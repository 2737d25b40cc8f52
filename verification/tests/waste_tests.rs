use rssol::card::{Card, Suit, Value};
use rssol::waste::Waste;

fn heart(value: Value) -> Card {
    Card { suit: Suit::Heart, value }
}

fn check_taken(opt: Option<Card>, card: Card) {
    match opt {
        Some(taken) => assert_eq!(taken, card),
        None => panic!(),
    }
}

#[test]
fn test_create_waste() {
    let waste = Waste::new();
    assert!(waste.cards.is_empty());
}

#[test]
fn waste_test_display_empty() {
    let waste = Waste::new();
    assert_eq!(waste.display(), "{   }");
}

#[test]
fn waste_test_display() {
    let mut waste = Waste::new();
    let take = vec![heart(Value::Ace)];
    waste.put(take);
    assert_eq!(waste.display(), "(A:H)");
}

#[test]
fn test_put() {
    // three card take
    let take = vec![heart(Value::Ace), heart(Value::Two), heart(Value::Three)];
    let mut waste = Waste::new();
    waste.put(take);
    // top should be top of take (3H)
    let opt = waste.get_top();
    match opt {
        Some(top_card) => assert_eq!(top_card, heart(Value::Three)),
        None => panic!(),
    };
}

#[test]
fn test_two_puts_and_takes() {
    // three card take
    let take = vec![heart(Value::Ace), heart(Value::Two), heart(Value::Three)];
    let mut waste = Waste::new();
    waste.put(take);
    let take = vec![heart(Value::Four), heart(Value::Five), heart(Value::Six)];
    waste.put(take);
    check_taken(waste.take(), heart(Value::Six));
    check_taken(waste.take(), heart(Value::Five));
    check_taken(waste.take(), heart(Value::Four));
    check_taken(waste.take(), heart(Value::Three));
    check_taken(waste.take(), heart(Value::Two));
    check_taken(waste.take(), heart(Value::Ace));

    let taken = waste.take();
    assert!(taken.is_none());
    assert!(waste.cards.is_empty());
}
