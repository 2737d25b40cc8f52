use rssol::card::{Card, CardState, Suit, Value};

fn card(suit: Suit, value: Value) -> Card {
    Card { suit, value }
}

#[test]
fn test_four_of_hearts() {
    let card = Card { suit: Suit::Heart, value: Value::Four };
    assert_eq!(card.display(), "(4:H)");
}

#[test]
fn test_jack_of_clubs() {
    let card = Card { suit: Suit::Club, value: Value::Jack };
    assert_eq!(card.display(), "[J.C]");
}

#[test]
fn test_ace_of_diamonds() {
    let card = Card { suit: Suit::Diamond, value: Value::Ace };
    assert_eq!(card.display(), "(A:D)");
}

#[test]
fn test_queen_of_spades() {
    let card = Card { suit: Suit::Spade, value: Value::Queen };
    assert_eq!(card.display(), "[Q.S]");
}

#[test]
fn test_suit_different_color_true() {
    let card1 = Card { suit: Suit::Spade, value: Value::Queen };
    let card2 = Card { suit: Suit::Diamond, value: Value::Nine };
    assert_eq!(card1.suit.is_different_color(&card2.suit), true);
}

#[test]
fn test_suit_different_color_false() {
    let card1 = Card { suit: Suit::Spade, value: Value::Queen };
    let card2 = Card { suit: Suit::Club, value: Value::Nine };
    assert_eq!(card1.suit.is_different_color(&card2.suit), false);
}

#[test]
fn test_rank_diff() {
    let card1 = Card { suit: Suit::Spade, value: Value::Queen };
    let card2 = Card { suit: Suit::Spade, value: Value::King };

    let diff = card1.value.rank() - card2.value.rank();
    assert_eq!(diff, -1);
}

#[test]
fn test_create_card_state() {
    let card = card(Suit::Spade, Value::Queen);
    let card_state = CardState::new(card, false);
    assert_eq!(card_state.card, card);
    assert!(!card_state.is_visible());
}

#[test]
fn test_card_state_make_visible() {
    let card = card(Suit::Spade, Value::Queen);
    let mut card_state = CardState::new(card, false);
    card_state.make_visible();
    assert!(card_state.is_visible());
}

#[test]
fn test_card_same_color() {
    let queen_of_spades = card(Suit::Spade, Value::Queen);
    let nine_of_clubs = card(Suit::Club, Value::Nine);
    let two_of_hearts = card(Suit::Heart, Value::Two);

    assert!(!queen_of_spades.is_different_color(&nine_of_clubs));
    assert!(queen_of_spades.is_different_color(&two_of_hearts));
}

#[test]
fn test_card_one_more() {
    let jack_of_hearts = card(Suit::Heart, Value::Jack);
    let king_of_clubs = card(Suit::Club, Value::King);
    let jack_of_spades = card(Suit::Spade, Value::Jack);
    let queen_of_hearts = card(Suit::Heart, Value::Queen);
    let ten_of_diamonds = card(Suit::Diamond, Value::Ten);

    assert!(jack_of_hearts.is_one_more(&queen_of_hearts));

    assert!(!jack_of_hearts.is_one_more(&king_of_clubs));
    assert!(!jack_of_hearts.is_one_more(&jack_of_spades));
    assert!(!jack_of_hearts.is_one_more(&ten_of_diamonds));
}

#[test]
fn test_card_one_less() {
    let jack_of_hearts = card(Suit::Heart, Value::Jack);
    let king_of_clubs = card(Suit::Club, Value::King);
    let jack_of_spades = card(Suit::Spade, Value::Jack);
    let queen_of_hearts = card(Suit::Heart, Value::Queen);
    let ten_of_diamonds = card(Suit::Diamond, Value::Ten);

    assert!(jack_of_hearts.is_one_less(&ten_of_diamonds));

    assert!(!jack_of_hearts.is_one_less(&king_of_clubs));
    assert!(!jack_of_hearts.is_one_less(&jack_of_spades));
    assert!(!jack_of_hearts.is_one_less(&queen_of_hearts));
}

#[test]
fn test_no_wraparound() {
    let king_of_hearts = card(Suit::Heart, Value::King);
    let ace_of_spades = card(Suit::Spade, Value::Ace);

    assert!(!king_of_hearts.is_one_more(&ace_of_spades));
    assert!(!ace_of_spades.is_one_less(&king_of_hearts));
}

#[test]
fn test_card_back_display() {
    let card = card(Suit::Heart, Value::Four);
    let hidden = CardState::new(card, false);
    assert_eq!(hidden.display(), "{###}");
    let shown = CardState::new(card, true);
    assert_eq!(shown.display(), "(4:H)");
}
