use rssol::card::{Card, Suit, Value};
use rssol::stock::Stock;
use rssol::waste::Waste;

fn heart(value: Value) -> Card {
    Card { suit: Suit::Heart, value }
}

fn create_five_card_stock() -> Stock {
    let mut test_deck = Vec::new();
    test_deck.push(heart(Value::Ace));
    test_deck.push(heart(Value::Two));
    test_deck.push(heart(Value::Three));
    test_deck.push(heart(Value::Four));
    test_deck.push(heart(Value::Five));
    Stock::new(test_deck)
}

fn check_single_taken(opt: Option<Vec<Card>>, card: Card) {
    match opt {
        Some(taken) => assert_eq!(taken[0], card),
        None => panic!(),
    }
}

#[test]
fn test_create_stock() {
    let stock = create_five_card_stock();
    assert!(!stock.is_empty());
}

#[test]
fn test_display_not_empty() {
    let stock = create_five_card_stock();
    assert_eq!(stock.display(), "{###}");
}

#[test]
fn stock_test_display_empty() {
    let mut stock = create_five_card_stock();
    check_single_taken(stock.take(1), heart(Value::Five));
    check_single_taken(stock.take(1), heart(Value::Four));
    check_single_taken(stock.take(1), heart(Value::Three));
    check_single_taken(stock.take(1), heart(Value::Two));
    check_single_taken(stock.take(1), heart(Value::Ace));
    assert!(stock.is_empty());
    assert_eq!(stock.display(), "{   }");
}

#[test]
fn test_take_one() {
    let mut stock = create_five_card_stock();
    check_single_taken(stock.take(1), heart(Value::Five));
    check_single_taken(stock.take(1), heart(Value::Four));
    check_single_taken(stock.take(1), heart(Value::Three));
    check_single_taken(stock.take(1), heart(Value::Two));
    check_single_taken(stock.take(1), heart(Value::Ace));
    let opt = stock.take(1);
    assert!(opt.is_none());
    assert!(stock.is_empty());
}

#[test]
fn test_take_three() {
    let mut stock = create_five_card_stock();
    let opt = stock.take(3);
    match opt {
        Some(taken) => {
            assert_eq!(taken.len(), 3);
            // top of take
            assert_eq!(taken[2], heart(Value::Three));
            assert_eq!(taken[1], heart(Value::Four));
            assert_eq!(taken[0], heart(Value::Five));
        }
        None => panic!(),
    };
    let opt = stock.take(3);
    match opt {
        Some(taken) => {
            assert_eq!(taken.len(), 2);
            // top of take
            assert_eq!(taken[1], heart(Value::Ace));
            assert_eq!(taken[0], heart(Value::Two));
        }
        None => panic!(),
    };
    assert!(stock.is_empty());
}

#[test]
fn test_refresh() {
    let mut stock = create_five_card_stock();
    let opt = stock.take(5);
    match opt {
        Some(taken) => {
            assert_eq!(taken.len(), 5);
            // top of take
            assert_eq!(taken[4], heart(Value::Ace));
            assert_eq!(taken[3], heart(Value::Two));
            assert_eq!(taken[2], heart(Value::Three));
            assert_eq!(taken[1], heart(Value::Four));
            assert_eq!(taken[0], heart(Value::Five));
            assert!(stock.is_empty());

            stock.refresh(&taken);
            assert_eq!(stock.cards.len(), 5);
            let opt = stock.take(5);
            match opt {
                Some(taken) => {
                    assert_eq!(taken.len(), 5);
                    // top of take
                    assert_eq!(taken[4], heart(Value::Ace));
                    assert_eq!(taken[3], heart(Value::Two));
                    assert_eq!(taken[2], heart(Value::Three));
                    assert_eq!(taken[1], heart(Value::Four));
                    assert_eq!(taken[0], heart(Value::Five));
                    assert!(stock.is_empty());
                }
                None => panic!(),
            };
        }
        None => panic!(),
    };
}

#[test]
fn test_refresh_from_waste_order() {
    // Waste filled in play order: ace first, three on top. Flipping the
    // waste back over puts the waste's bottom card on the stock's top.
    let mut waste = Waste::new();
    waste.put(vec![heart(Value::Ace), heart(Value::Two), heart(Value::Three)]);

    let mut stock = Stock::new(Vec::new());
    stock.refresh(waste.get_all());
    waste.clear();

    check_single_taken(stock.take(1), heart(Value::Ace));
    check_single_taken(stock.take(1), heart(Value::Two));
    check_single_taken(stock.take(1), heart(Value::Three));
    assert!(stock.is_empty());
}
