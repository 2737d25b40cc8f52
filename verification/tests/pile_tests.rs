use rssol::card::{Card, CardState, Suit, Value};
use rssol::pile::Pile;

fn card(suit: Suit, value: Value) -> Card {
    Card { suit, value }
}

fn setup() -> Pile {
    let mut col = Pile::new();
    col.populate(card(Suit::Heart, Value::Queen));
    col.populate(card(Suit::Club, Value::Nine));
    col.populate(card(Suit::Spade, Value::Queen));
    col
}

fn setup_for_cut() -> Pile {
    let mut col = setup();
    col.populate(card(Suit::Club, Value::Ten));
    col.flip_top();
    col.add_card(card(Suit::Heart, Value::Nine));
    col.add_card(card(Suit::Spade, Value::Eight));
    col.add_card(card(Suit::Diamond, Value::Seven));
    col.add_card(card(Suit::Club, Value::Six));
    col
}

#[test]
fn test_add_card() {
    let mut col = setup();
    col.add_card(card(Suit::Club, Value::Ten));
    assert_eq!(col.cards.len(), 4);
    match col.get_top() {
        Some(top_card) => {
            assert_eq!(top_card, card(Suit::Club, Value::Ten));
        }
        None => panic!(),
    }
}

#[test]
fn test_cut_pile_false_no_match() {
    let mut col = setup_for_cut();
    let mut cut_vec: Vec<CardState> = Vec::new();
    col.cut_pile(&card(Suit::Heart, Value::Two), &mut cut_vec);
    assert_eq!(cut_vec.len(), 0);
}

#[test]
fn test_cut_pile_false_invisible() {
    let mut col = setup_for_cut();
    let mut cut_vec: Vec<CardState> = Vec::new();
    col.cut_pile(&card(Suit::Heart, Value::Two), &mut cut_vec);
    assert_eq!(cut_vec.len(), 0);
}

#[test]
fn test_cut_pile() {
    let mut col = setup_for_cut();
    let mut cut_vec: Vec<CardState> = Vec::new();
    col.cut_pile(&card(Suit::Heart, Value::Jack), &mut cut_vec);
    assert_eq!(cut_vec.len(), 5);
}

#[test]
fn test_cut_pile_and_add() {
    let mut col1 = Pile::new();
    col1.add_card(card(Suit::Heart, Value::Jack));
    let mut col2 = setup_for_cut();
    let mut cut_vec: Vec<CardState> = Vec::new();
    col2.cut_pile(&card(Suit::Heart, Value::Jack), &mut cut_vec);
    assert_eq!(cut_vec.len(), 5);
    col1.add_cut(&mut cut_vec);
    assert_eq!(col1.cards.len(), 6);
}

#[test]
fn test_cut_one() {
    let mut col = setup_for_cut();
    let mut cut_vec: Vec<CardState> = Vec::new();
    col.cut_pile(&card(Suit::Heart, Value::Seven), &mut cut_vec);
    assert_eq!(cut_vec.len(), 1);
}

#[test]
fn test_create_pile() {
    let col = Pile::new();
    assert!(col.is_empty());
}

#[test]
fn test_populate() {
    let mut col = setup();
    col.flip_top();
    assert!(!col.is_empty());

    match col.get_top() {
        Some(card) => {
            assert_eq!(card.suit.code(), 'S');
            assert_eq!(card.value.rank(), Value::Queen.rank());
            assert_eq!(col.cards.len(), 3);
            assert_eq!(col.cards.len() - 1, 2);
        }
        None => panic!(),
    }
}

#[test]
fn test_can_add_true() {
    let mut col = setup();
    col.flip_top();
    assert!(col.can_add(&card(Suit::Heart, Value::Jack)));
    assert!(col.can_add(&card(Suit::Diamond, Value::Jack)));
}

#[test]
fn test_can_add_false_bc_suit() {
    let mut col = setup();
    col.flip_top();
    assert!(!col.can_add(&card(Suit::Club, Value::Jack)));
    assert!(!col.can_add(&card(Suit::Spade, Value::Jack)));
}

#[test]
fn test_can_add_false_bc_value() {
    let mut col = setup();
    col.flip_top();
    assert!(!col.can_add(&card(Suit::Heart, Value::King)));
    assert!(!col.can_add(&card(Suit::Heart, Value::Ten)));
    assert!(!col.can_add(&card(Suit::Heart, Value::Queen)));
}

#[test]
fn test_can_add_to_empty_true() {
    let col = Pile::new();
    let king_of_hearts = card(Suit::Heart, Value::King);
    assert!(col.can_add(&king_of_hearts));
}

#[test]
fn test_can_add_to_empty_false() {
    let col = Pile::new();
    let ten_of_hearts = card(Suit::Heart, Value::Ten);
    assert!(!col.can_add(&ten_of_hearts));
}

#[test]
fn test_take_valid() {
    let mut col = setup();
    col.flip_top();
    let taken = col.take();
    match taken {
        Some(card) => {
            assert_eq!(card.suit.code(), 'S');
            assert_eq!(card.value.rank(), Value::Queen.rank());
            assert_eq!(col.cards.len(), 2);
        }
        None => {
            panic!();
        }
    }
}

#[test]
fn test_take_invalid() {
    let mut col = Pile::new();
    let taken = col.take();
    assert!(taken.is_none());
}

#[test]
fn test_row_display() {
    let mut col = setup();
    col.flip_top();
    let row_0 = col.display_row(0);
    let row_1 = col.display_row(1);
    let row_2 = col.display_row(2);
    let row_3 = col.display_row(3);

    assert_eq!(row_0, "{###}");
    assert_eq!(row_1, "{###}");
    assert_eq!(row_2, "[Q.S]");
    assert_eq!(row_3, "     ");
}

#[test]
fn test_cut_king_round_trip() {
    // A pile with two face-down cards below a face-up run headed by a king.
    let mut col = Pile::new();
    col.populate(card(Suit::Heart, Value::Four));
    col.populate(card(Suit::Club, Value::Nine));
    col.add_card(card(Suit::Spade, Value::King));
    col.add_card(card(Suit::Heart, Value::Queen));
    col.add_card(card(Suit::Club, Value::Jack));

    let mut sink = Pile::new();
    let mut cut_vec: Vec<CardState> = Vec::new();
    col.cut_king(&mut cut_vec);
    assert_eq!(cut_vec.len(), 3);
    sink.add_cut(&mut cut_vec);

    // The sink now holds the original face-up suffix in its order.
    assert_eq!(sink.cards.len(), 3);
    assert_eq!(sink.cards[0].card, card(Suit::Spade, Value::King));
    assert!(sink.cards[0].is_visible());
    assert_eq!(sink.cards[1].card, card(Suit::Heart, Value::Queen));
    assert_eq!(sink.cards[2].card, card(Suit::Club, Value::Jack));

    // The remainder's new top was turned face-up.
    assert_eq!(col.cards.len(), 2);
    assert_eq!(col.cards[1].card, card(Suit::Club, Value::Nine));
    assert!(col.cards[1].is_visible());
    assert!(!col.cards[0].is_visible());
}

#[test]
fn test_cut_king_ignores_face_down_king() {
    let mut col = Pile::new();
    col.populate(card(Suit::Spade, Value::King));
    let mut cut_vec: Vec<CardState> = Vec::new();
    col.cut_king(&mut cut_vec);
    assert_eq!(cut_vec.len(), 0);
    assert_eq!(col.cards.len(), 1);
    assert!(!col.cards[0].is_visible());
}
