//! The command parser: raw text tokens become a closed set of typed move
//! requests. Matching is case-insensitive and ignores surrounding
//! whitespace; anything unrecognized parses to nothing.

use vstd::prelude::*;

use crate::game::{CLUB_FD, DIAMOND_FD, HEART_FD, SPADE_FD};

verus! {

#[derive(Debug, PartialEq, Eq, Structural, Clone, Copy)]
pub enum Command {
    ShowHelp,
    Retire,
    Quit,
    DrawFromStock,
    WasteToFoundation,
    AutoFinish,
    WasteToPile { pile_index: u8 },
    PileToFoundation { pile_index: u8 },
    PileToPile { src_pile: u8, dest_pile: u8 },
    FoundationToPile { foundation_index: u8, pile_index: u8 },
}

/// The whitespace stripped from both ends of a command: every character
/// with Unicode's White_Space property, the same set `str::trim` removes.
pub open spec fn is_space(c: char) -> bool {
    ||| c == '\u{0009}'
    ||| c == '\u{000A}'
    ||| c == '\u{000B}'
    ||| c == '\u{000C}'
    ||| c == '\u{000D}'
    ||| c == '\u{0020}'
    ||| c == '\u{0085}'
    ||| c == '\u{00A0}'
    ||| c == '\u{1680}'
    ||| c == '\u{2000}'
    ||| c == '\u{2001}'
    ||| c == '\u{2002}'
    ||| c == '\u{2003}'
    ||| c == '\u{2004}'
    ||| c == '\u{2005}'
    ||| c == '\u{2006}'
    ||| c == '\u{2007}'
    ||| c == '\u{2008}'
    ||| c == '\u{2009}'
    ||| c == '\u{200A}'
    ||| c == '\u{2028}'
    ||| c == '\u{2029}'
    ||| c == '\u{202F}'
    ||| c == '\u{205F}'
    ||| c == '\u{3000}'
}

pub open spec fn trim_front(s: Seq<char>) -> Seq<char>
    decreases s.len(),
{
    if s.len() > 0 && is_space(s[0]) {
        trim_front(s.drop_first())
    } else {
        s
    }
}

pub open spec fn trim_back(s: Seq<char>) -> Seq<char>
    decreases s.len(),
{
    if s.len() > 0 && is_space(s.last()) {
        trim_back(s.drop_last())
    } else {
        s
    }
}

/// The command text with leading and trailing whitespace removed.
pub open spec fn trimmed(s: Seq<char>) -> Seq<char> {
    trim_back(trim_front(s))
}

/// The numeric value of a decimal digit character, if it is one.
pub open spec fn spec_digit(c: char) -> Option<u8> {
    if c == '0' {
        Some(0u8)
    } else if c == '1' {
        Some(1u8)
    } else if c == '2' {
        Some(2u8)
    } else if c == '3' {
        Some(3u8)
    } else if c == '4' {
        Some(4u8)
    } else if c == '5' {
        Some(5u8)
    } else if c == '6' {
        Some(6u8)
    } else if c == '7' {
        Some(7u8)
    } else if c == '8' {
        Some(8u8)
    } else if c == '9' {
        Some(9u8)
    } else {
        None
    }
}

/// A `k` of either case. The Kelvin sign also lower-cases to `k`, so
/// case-insensitive matching accepts it too.
pub open spec fn is_letter_k(c: char) -> bool {
    c == 'k' || c == 'K' || c == '\u{212A}'
}

/// What a single-character command means: a pile number sends that pile
/// to a foundation; the letters are the fixed one-key commands.
pub open spec fn spec_parse1(c: char) -> Option<Command> {
    match spec_digit(c) {
        Some(d) => if 1 <= d <= 7 {
            Some(Command::PileToFoundation { pile_index: d })
        } else {
            None
        },
        None => if c == '?' {
            Some(Command::ShowHelp)
        } else if c == 'r' || c == 'R' {
            Some(Command::Retire)
        } else if c == 'n' || c == 'N' {
            Some(Command::DrawFromStock)
        } else if c == 'q' || c == 'Q' {
            Some(Command::Quit)
        } else if is_letter_k(c) {
            Some(Command::WasteToFoundation)
        } else {
            None
        },
    }
}

/// What a two-character command means: two pile numbers move a run
/// between piles; a letter before a pile number addresses the waste or
/// the named foundation.
pub open spec fn spec_parse2(c1: char, c2: char) -> Option<Command> {
    match (spec_digit(c1), spec_digit(c2)) {
        (Some(d1), Some(d2)) => if 1 <= d1 <= 7 && 1 <= d2 <= 7 {
            Some(Command::PileToPile { src_pile: d1, dest_pile: d2 })
        } else {
            None
        },
        (None, Some(d2)) => if 1 <= d2 <= 7 {
            if c1 == 'h' || c1 == 'H' {
                Some(Command::FoundationToPile { foundation_index: HEART_FD, pile_index: d2 })
            } else if c1 == 'd' || c1 == 'D' {
                Some(Command::FoundationToPile { foundation_index: DIAMOND_FD, pile_index: d2 })
            } else if c1 == 's' || c1 == 'S' {
                Some(Command::FoundationToPile { foundation_index: SPADE_FD, pile_index: d2 })
            } else if c1 == 'c' || c1 == 'C' {
                Some(Command::FoundationToPile { foundation_index: CLUB_FD, pile_index: d2 })
            } else if is_letter_k(c1) {
                Some(Command::WasteToPile { pile_index: d2 })
            } else {
                None
            }
        } else {
            None
        },
        _ => None,
    }
}

/// What any command text means: after trimming, exactly one or two
/// characters parse; everything else is no command.
pub open spec fn spec_parse(s: Seq<char>) -> Option<Command> {
    let t = trimmed(s);
    if t.len() == 1 {
        spec_parse1(t[0])
    } else if t.len() == 2 {
        spec_parse2(t[0], t[1])
    } else {
        None
    }
}

fn is_space_char(c: char) -> (r: bool)
    ensures
        r == is_space(c),
{
    c == '\u{0009}' || c == '\u{000A}' || c == '\u{000B}' || c == '\u{000C}' || c == '\u{000D}'
        || c == '\u{0020}' || c == '\u{0085}' || c == '\u{00A0}' || c == '\u{1680}'
        || c == '\u{2000}' || c == '\u{2001}' || c == '\u{2002}' || c == '\u{2003}'
        || c == '\u{2004}' || c == '\u{2005}' || c == '\u{2006}' || c == '\u{2007}'
        || c == '\u{2008}' || c == '\u{2009}' || c == '\u{200A}' || c == '\u{2028}'
        || c == '\u{2029}' || c == '\u{202F}' || c == '\u{205F}' || c == '\u{3000}'
}

fn letter_k(c: char) -> (r: bool)
    ensures
        r == is_letter_k(c),
{
    c == 'k' || c == 'K' || c == '\u{212A}'
}

fn digit_value(c: char) -> (r: Option<u8>)
    ensures
        r == spec_digit(c),
{
    if c == '0' {
        Some(0)
    } else if c == '1' {
        Some(1)
    } else if c == '2' {
        Some(2)
    } else if c == '3' {
        Some(3)
    } else if c == '4' {
        Some(4)
    } else if c == '5' {
        Some(5)
    } else if c == '6' {
        Some(6)
    } else if c == '7' {
        Some(7)
    } else if c == '8' {
        Some(8)
    } else if c == '9' {
        Some(9)
    } else {
        None
    }
}

fn parse_one(c: char) -> (r: Option<Command>)
    ensures
        r == spec_parse1(c),
{
    match digit_value(c) {
        Some(d) => {
            if 1 <= d && d <= 7 {
                Some(Command::PileToFoundation { pile_index: d })
            } else {
                None
            }
        }
        None => {
            if c == '?' {
                Some(Command::ShowHelp)
            } else if c == 'r' || c == 'R' {
                Some(Command::Retire)
            } else if c == 'n' || c == 'N' {
                Some(Command::DrawFromStock)
            } else if c == 'q' || c == 'Q' {
                Some(Command::Quit)
            } else if letter_k(c) {
                Some(Command::WasteToFoundation)
            } else {
                None
            }
        }
    }
}

fn parse_two(c1: char, c2: char) -> (r: Option<Command>)
    ensures
        r == spec_parse2(c1, c2),
{
    match (digit_value(c1), digit_value(c2)) {
        (Some(d1), Some(d2)) => {
            if 1 <= d1 && d1 <= 7 && 1 <= d2 && d2 <= 7 {
                Some(Command::PileToPile { src_pile: d1, dest_pile: d2 })
            } else {
                None
            }
        }
        (None, Some(d2)) => {
            if 1 <= d2 && d2 <= 7 {
                if c1 == 'h' || c1 == 'H' {
                    Some(Command::FoundationToPile { foundation_index: HEART_FD, pile_index: d2 })
                } else if c1 == 'd' || c1 == 'D' {
                    Some(
                        Command::FoundationToPile { foundation_index: DIAMOND_FD, pile_index: d2 },
                    )
                } else if c1 == 's' || c1 == 'S' {
                    Some(Command::FoundationToPile { foundation_index: SPADE_FD, pile_index: d2 })
                } else if c1 == 'c' || c1 == 'C' {
                    Some(Command::FoundationToPile { foundation_index: CLUB_FD, pile_index: d2 })
                } else if letter_k(c1) {
                    Some(Command::WasteToPile { pile_index: d2 })
                } else {
                    None
                }
            } else {
                None
            }
        }
        _ => None,
    }
}

impl Command {
    /// Parses a raw input line into a command, or nothing when the text
    /// matches no command pattern.
    pub fn from_string(cmd_str: &str) -> (r: Option<Command>)
        ensures
            r == spec_parse(cmd_str@),
    {
        let ghost full = cmd_str@;
        let n = cmd_str.unicode_len();
        proof {
            assert(full.subrange(0, n as int) =~= full);
        }
        let mut start: usize = 0;
        while start < n && is_space_char(cmd_str.get_char(start))
            invariant
                n == full.len(),
                full == cmd_str@,
                start <= n,
                trim_front(full) == trim_front(full.subrange(start as int, n as int)),
            decreases n - start,
        {
            proof {
                assert(full.subrange(start as int, n as int).drop_first() =~= full.subrange(
                    start as int + 1,
                    n as int,
                ));
            }
            start += 1;
        }
        proof {
            if start == n {
                assert(full.subrange(start as int, n as int) =~= Seq::<char>::empty());
            }
            assert(trim_front(full) == full.subrange(start as int, n as int));
        }
        let mut end: usize = n;
        while end > start && is_space_char(cmd_str.get_char(end - 1))
            invariant
                n == full.len(),
                full == cmd_str@,
                start <= end <= n,
                trim_front(full) == full.subrange(start as int, n as int),
                trim_back(full.subrange(start as int, n as int)) == trim_back(
                    full.subrange(start as int, end as int),
                ),
            decreases end,
        {
            proof {
                assert(full.subrange(start as int, end as int).drop_last() =~= full.subrange(
                    start as int,
                    end as int - 1,
                ));
            }
            end -= 1;
        }
        proof {
            if end == start {
                assert(full.subrange(start as int, end as int) =~= Seq::<char>::empty());
            }
            assert(trimmed(full) == full.subrange(start as int, end as int));
        }
        let len = end - start;
        if len == 1 {
            let c = cmd_str.get_char(start);
            proof {
                assert(c == trimmed(full)[0]);
            }
            parse_one(c)
        } else if len == 2 {
            let c1 = cmd_str.get_char(start);
            let c2 = cmd_str.get_char(start + 1);
            proof {
                assert(c1 == trimmed(full)[0]);
                assert(c2 == trimmed(full)[1]);
            }
            parse_two(c1, c2)
        } else {
            None
        }
    }
}

} // verus!
