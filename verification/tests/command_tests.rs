use rssol::command::Command;
use rssol::game::HEART_FD;

fn enum_type(opt_cmd: &Option<Command>) -> String {
    match opt_cmd {
        Some(cmd) => match cmd {
            Command::ShowHelp => String::from("ShowHelp"),
            Command::Retire => String::from("Retire"),
            Command::Quit => String::from("Quit"),
            Command::DrawFromStock => String::from("DrawFromStock"),
            Command::WasteToFoundation => String::from("WasteToFoundation"),
            Command::AutoFinish => String::from("AutoFinish"),
            Command::WasteToPile { pile_index: _ } => String::from("WasteToPile"),
            Command::PileToFoundation { pile_index: _ } => String::from("PileToFoundation"),
            Command::PileToPile { src_pile: _, dest_pile: _ } => String::from("PileToPile"),
            Command::FoundationToPile { foundation_index: _, pile_index: _ } => {
                String::from("FoundationToPile")
            }
        },
        None => String::from(""),
    }
}

#[test]
fn test_cmd_type() {
    let cmd = Command::from_string("?");
    assert_eq!(enum_type(&cmd), "ShowHelp");

    let cmd = Command::from_string("r");
    assert_eq!(enum_type(&cmd), "Retire");

    let cmd = Command::from_string("n");
    assert_eq!(enum_type(&cmd), "DrawFromStock");

    let cmd = Command::from_string("q");
    assert_eq!(enum_type(&cmd), "Quit");

    let cmd = Command::from_string("k");
    assert_eq!(enum_type(&cmd), "WasteToFoundation");

    let cmd = Command::from_string("k1");
    assert_eq!(enum_type(&cmd), "WasteToPile");

    let cmd = Command::from_string("2");
    assert_eq!(enum_type(&cmd), "PileToFoundation");

    let cmd = Command::from_string("21");
    assert_eq!(enum_type(&cmd), "PileToPile");

    let cmd = Command::from_string("i");
    assert_eq!(enum_type(&cmd), "");
}

#[test]
fn test_waste_to_pile() {
    let cmd = Command::from_string("k0");
    assert!(cmd.is_none());

    let cmd = Command::from_string("k1");
    assert!(!cmd.is_none());
    match cmd.unwrap() {
        Command::WasteToPile { pile_index } => assert_eq!(pile_index, 1),
        _ => panic!(),
    }

    let cmd = Command::from_string("k7");
    assert!(!cmd.is_none());
    match cmd.unwrap() {
        Command::WasteToPile { pile_index } => assert_eq!(pile_index, 7),
        _ => panic!(),
    }

    let cmd = Command::from_string("k8");
    assert!(cmd.is_none());

    let cmd = Command::from_string("k9");
    assert!(cmd.is_none());
}

#[test]
fn test_pile_to_foundation() {
    let cmd = Command::from_string("0");
    assert!(cmd.is_none());

    let cmd = Command::from_string("1");
    assert!(!cmd.is_none());
    match cmd.unwrap() {
        Command::PileToFoundation { pile_index } => assert_eq!(pile_index, 1),
        _ => panic!(),
    }

    let cmd = Command::from_string("7");
    assert!(!cmd.is_none());
    match cmd.unwrap() {
        Command::PileToFoundation { pile_index } => assert_eq!(pile_index, 7),
        _ => panic!(),
    }

    let cmd = Command::from_string("8");
    assert!(cmd.is_none());

    let cmd = Command::from_string("9");
    assert!(cmd.is_none());
}

#[test]
fn test_pile_to_pile() {
    let cmd = Command::from_string("01");
    assert!(cmd.is_none());

    let cmd = Command::from_string("10");
    assert!(cmd.is_none());

    let cmd = Command::from_string("82");
    assert!(cmd.is_none());

    let cmd = Command::from_string("78");
    assert!(cmd.is_none());

    let cmd = Command::from_string("79");
    assert!(cmd.is_none());

    let cmd = Command::from_string("15");
    assert!(!cmd.is_none());
    match cmd.unwrap() {
        Command::PileToPile { src_pile, dest_pile } => {
            assert_eq!(src_pile, 1);
            assert_eq!(dest_pile, 5);
        }
        _ => panic!(),
    }

    let cmd = Command::from_string("73");
    assert!(!cmd.is_none());
    match cmd.unwrap() {
        Command::PileToPile { src_pile, dest_pile } => {
            assert_eq!(src_pile, 7);
            assert_eq!(dest_pile, 3);
        }
        _ => panic!(),
    }

    let cmd = Command::from_string("41");
    assert!(!cmd.is_none());
    match cmd.unwrap() {
        Command::PileToPile { src_pile, dest_pile } => {
            assert_eq!(src_pile, 4);
            assert_eq!(dest_pile, 1);
        }
        _ => panic!(),
    }

    let cmd = Command::from_string("67");
    assert!(!cmd.is_none());
    match cmd.unwrap() {
        Command::PileToPile { src_pile, dest_pile } => {
            assert_eq!(src_pile, 6);
            assert_eq!(dest_pile, 7);
        }
        _ => panic!(),
    }
}

#[test]
fn test_foundation_to_pile_command() {
    let cmd = Command::from_string("h3");
    match cmd.unwrap() {
        Command::FoundationToPile { foundation_index, pile_index } => {
            assert_eq!(foundation_index, HEART_FD);
            assert_eq!(pile_index, 3);
        }
        _ => panic!(),
    }
}

#[test]
fn test_rejected_commands() {
    assert!(Command::from_string("").is_none());
    assert!(Command::from_string("100").is_none());
    assert!(Command::from_string("h0").is_none());
    assert!(Command::from_string("x3").is_none());
    assert!(Command::from_string("   ").is_none());
}

#[test]
fn test_unicode_whitespace_trimmed() {
    // Every White_Space character is trimmed, not just ASCII blanks.
    let cmd = Command::from_string("k1\u{000B}");
    match cmd.unwrap() {
        Command::WasteToPile { pile_index } => assert_eq!(pile_index, 1),
        _ => panic!(),
    }
    let cmd = Command::from_string("\u{00A0}k1");
    match cmd.unwrap() {
        Command::WasteToPile { pile_index } => assert_eq!(pile_index, 1),
        _ => panic!(),
    }
    let cmd = Command::from_string("\u{000C}\u{0085}37\u{2028}\u{3000}");
    match cmd.unwrap() {
        Command::PileToPile { src_pile, dest_pile } => {
            assert_eq!(src_pile, 3);
            assert_eq!(dest_pile, 7);
        }
        _ => panic!(),
    }
    assert!(Command::from_string("\u{2009}\u{202F}").is_none());
}

#[test]
fn test_kelvin_sign_as_k() {
    // The Kelvin sign lower-cases to `k`, so it names the waste commands.
    let cmd = Command::from_string("\u{212A}");
    match cmd.unwrap() {
        Command::WasteToFoundation => {}
        _ => panic!(),
    }
    let cmd = Command::from_string("\u{212A}4");
    match cmd.unwrap() {
        Command::WasteToPile { pile_index } => assert_eq!(pile_index, 4),
        _ => panic!(),
    }
}

#[test]
fn test_multibyte_rejected() {
    // Unrecognized non-ASCII text parses to no command.
    assert!(Command::from_string("\u{00E9}").is_none());
    assert!(Command::from_string("\u{00E9}1").is_none());
}

#[test]
fn test_case_and_whitespace() {
    let cmd = Command::from_string(" K1 ");
    match cmd.unwrap() {
        Command::WasteToPile { pile_index } => assert_eq!(pile_index, 1),
        _ => panic!(),
    }
    let cmd = Command::from_string("Q");
    match cmd.unwrap() {
        Command::Quit => {}
        _ => panic!(),
    }
}
