use rssol::card::{Card, Suit, Value};
use rssol::deck::full_deck;
use rssol::foundation::Foundation;
use rssol::game::Game;
use rssol::stock::Stock;
use rssol::tableau::Tableau;
use rssol::waste::Waste;

fn card(suit: Suit, value: Value) -> Card {
    Card { suit, value }
}

fn value_of(rank: i8) -> Value {
    match rank {
        1 => Value::Ace,
        2 => Value::Two,
        3 => Value::Three,
        4 => Value::Four,
        5 => Value::Five,
        6 => Value::Six,
        7 => Value::Seven,
        8 => Value::Eight,
        9 => Value::Nine,
        10 => Value::Ten,
        11 => Value::Jack,
        12 => Value::Queen,
        _ => Value::King,
    }
}

fn suit_index(suit: &Suit) -> u8 {
    match suit {
        Suit::Heart => 0,
        Suit::Diamond => 1,
        Suit::Club => 2,
        Suit::Spade => 3,
    }
}

fn card_key(card: &Card) -> u8 {
    suit_index(&card.suit) * 13 + (card.value.rank() as u8)
}

fn full_foundation(suit: Suit) -> Foundation {
    let mut f = Foundation::new(suit);
    for rank in 1..=13 {
        f.add(card(suit, value_of(rank)));
    }
    f
}

fn won_game() -> Game {
    Game {
        foundations: vec![
            full_foundation(Suit::Heart),
            full_foundation(Suit::Diamond),
            full_foundation(Suit::Spade),
            full_foundation(Suit::Club),
        ],
        stock: Stock::new(Vec::new()),
        waste: Waste::new(),
        tableau: Tableau::new(),
        turn: 0,
    }
}

#[test]
fn test_new_game_deal() {
    let g = Game::new();
    assert_eq!(g.turn, 0);
    assert_eq!(g.stock.size(), 24);
    assert_eq!(g.waste.size(), 0);
    for k in 0..4 {
        assert!(g.foundations[k].get_top().is_none());
    }
    let mut dealt = 0;
    for i in 0..7 {
        let pile = &g.tableau.piles[i];
        assert_eq!(pile.cards.len(), i + 1);
        dealt += pile.cards.len();
        for j in 0..=i {
            assert_eq!(pile.cards[j].is_visible(), j == i);
        }
    }
    assert_eq!(dealt, 28);
}

#[test]
fn test_new_game_holds_all_52_cards() {
    // Every card of the deck appears exactly once across stock and piles.
    let g = Game::new();
    let mut keys: Vec<u8> = Vec::new();
    for c in g.stock.cards.iter() {
        keys.push(card_key(c));
    }
    for pile in g.tableau.piles.iter() {
        for cs in pile.cards.iter() {
            keys.push(card_key(&cs.card));
        }
    }
    keys.sort();
    let mut expected: Vec<u8> = full_deck().iter().map(card_key).collect();
    expected.sort();
    assert_eq!(keys, expected);
}

#[test]
fn test_victory_with_complete_foundations() {
    let g = won_game();
    assert!(g.victory());
}

#[test]
fn test_no_victory_with_missing_king() {
    let mut g = won_game();
    g.foundations[2].take();
    assert!(!g.victory());
}

#[test]
fn test_invalid_move_never_mutates() {
    // The canonical unshuffled deal: every pile top is a club or spade
    // run end with no legal pile-to-pile cut anywhere.
    let g0 = Game::with_deck(full_deck());
    let mut g = Game::with_deck(full_deck());
    assert!(!g.pile_to_pile(2, 1));
    assert!(!g.pile_to_pile(1, 2));
    assert_eq!(g.turn, g0.turn);
    for i in 0..7 {
        assert_eq!(g.tableau.piles[i].cards.len(), g0.tableau.piles[i].cards.len());
        for j in 0..g.tableau.piles[i].cards.len() {
            assert_eq!(
                g.tableau.piles[i].cards[j].is_visible(),
                g0.tableau.piles[i].cards[j].is_visible()
            );
            assert_eq!(g.tableau.piles[i].cards[j].card, g0.tableau.piles[i].cards[j].card);
        }
    }
    assert_eq!(g.stock.size(), g0.stock.size());
    assert_eq!(g.waste.size(), g0.waste.size());
}

#[test]
fn test_draw_fails_only_when_stock_and_waste_empty() {
    let mut g = won_game();
    assert!(!g.draw_from_stock());
    assert_eq!(g.turn, 0);
}

#[test]
fn test_draw_from_stock_moves_top_to_waste() {
    let mut g = Game::with_deck(full_deck());
    let top = *g.stock.cards.last().unwrap();
    assert!(g.draw_from_stock());
    assert_eq!(g.turn, 1);
    assert_eq!(g.stock.size(), 23);
    assert_eq!(g.waste.size(), 1);
    assert_eq!(g.waste.get_top(), Some(top));
}

#[test]
fn test_winning_game() {
    // A deck arranged so that emptying the piles top-down and then the
    // stock feeds every foundation in ace-to-king order.
    let mut pop_order: Vec<Card> = Vec::new();
    // Pile contents in deal (pop) order: bottom card first per pile.
    let pile_tops: [Vec<(Suit, i8)>; 7] = [
        vec![(Suit::Heart, 1)],
        vec![(Suit::Heart, 3), (Suit::Heart, 2)],
        vec![(Suit::Heart, 6), (Suit::Heart, 5), (Suit::Heart, 4)],
        vec![(Suit::Heart, 10), (Suit::Heart, 9), (Suit::Heart, 8), (Suit::Heart, 7)],
        vec![
            (Suit::Diamond, 2),
            (Suit::Diamond, 1),
            (Suit::Heart, 13),
            (Suit::Heart, 12),
            (Suit::Heart, 11),
        ],
        vec![
            (Suit::Diamond, 8),
            (Suit::Diamond, 7),
            (Suit::Diamond, 6),
            (Suit::Diamond, 5),
            (Suit::Diamond, 4),
            (Suit::Diamond, 3),
        ],
        vec![
            (Suit::Spade, 2),
            (Suit::Spade, 1),
            (Suit::Diamond, 13),
            (Suit::Diamond, 12),
            (Suit::Diamond, 11),
            (Suit::Diamond, 10),
            (Suit::Diamond, 9),
        ],
    ];
    for pile in pile_tops.iter() {
        for (suit, rank) in pile.iter() {
            pop_order.push(card(*suit, value_of(*rank)));
        }
    }
    // Stock in draw order: the remaining spades, then all clubs.
    for rank in 3..=13 {
        pop_order.push(card(Suit::Spade, value_of(rank)));
    }
    for rank in 1..=13 {
        pop_order.push(card(Suit::Club, value_of(rank)));
    }
    assert_eq!(pop_order.len(), 52);
    pop_order.reverse();
    let deck = pop_order;

    let mut g = Game::with_deck(deck);
    assert!(!g.victory());

    // Empty each pile onto the foundations, top card first.
    for pile_num in 1..=7u8 {
        for _ in 0..pile_num {
            assert!(g.pile_to_foundation(pile_num));
        }
    }
    // Draw each remaining card and play it on its foundation.
    for _ in 0..24 {
        assert!(g.draw_from_stock());
        assert!(g.waste_to_foundation());
    }
    assert!(g.victory());
    assert_eq!(g.turn, 28 + 48);
}

#[test]
fn test_foundation_to_pile_move() {
    // A won game with an empty tableau: a king may leave its foundation
    // for an empty pile; a lower card may not start one.
    let mut g = won_game();
    assert!(g.foundation_to_pile(0, 2));
    assert!(!g.victory());
    assert_eq!(g.foundations[0].cards.len(), 12);
    assert_eq!(g.tableau.piles[1].cards.len(), 1);
    assert_eq!(g.tableau.piles[1].cards[0].card, card(Suit::Heart, Value::King));
    assert!(g.tableau.piles[1].cards[0].is_visible());
    assert_eq!(g.turn, 1);

    // The queen of hearts may not start an empty pile.
    assert!(!g.foundation_to_pile(0, 3));
    assert_eq!(g.turn, 1);

    // The king of clubs starts another pile, and the red queen goes
    // onto that black king.
    assert!(g.foundation_to_pile(3, 1));
    assert!(g.foundation_to_pile(0, 1));
    assert_eq!(g.tableau.piles[0].cards.len(), 2);
    assert_eq!(g.tableau.piles[0].cards[1].card, card(Suit::Heart, Value::Queen));
    assert_eq!(g.turn, 3);

    // The black spade king is refused on the red queen.
    assert!(!g.foundation_to_pile(2, 1));
    assert_eq!(g.turn, 3);
}

#[test]
fn test_waste_to_pile_move() {
    // Move a king out of a foundation, then check that the waste's top
    // card follows the tableau's adjacency rule.
    let mut g = won_game();
    assert!(g.foundation_to_pile(3, 1));
    // Feed the red diamond queen through the waste by hand.
    let _king_d = g.foundations[1].take();
    let queen_d = g.foundations[1].take().unwrap();
    g.waste.put(vec![queen_d]);
    assert!(!g.waste_to_pile(2));
    assert!(g.waste_to_pile(1));
    assert_eq!(g.tableau.piles[0].cards.len(), 2);
    assert_eq!(g.waste.size(), 0);
}

#[test]
fn test_display_status_line() {
    let g = Game::with_deck(full_deck());
    let shown = g.display();
    assert!(shown.starts_with("-----------------------------------------------------\n"));
    assert!(shown.contains("Turn: 0   Stock: 24   Waste: 0\n"));
    assert!(shown.contains("    n      k            h      d      s      c\n"));
    assert!(shown.contains("  {###}  {   }        {   }  {   }  {   }  {   }\n"));
    assert!(shown.contains("||__1__||__2__||__3__||__4__||__5__||__6__||__7__||\n"));
}

#[test]
fn test_display_tableau_rows() {
    // The canonical unshuffled deal puts the king of clubs alone on the
    // first pile; taller piles show card backs below their face-up top.
    let g = Game::with_deck(full_deck());
    let shown = g.tableau.display();
    let lines: Vec<&str> = shown.lines().collect();
    assert_eq!(lines.len(), 8);
    assert_eq!(lines[0], "||__1__||__2__||__3__||__4__||__5__||__6__||__7__||");
    assert_eq!(lines[1], "  [K.C]  {###}  {###}  {###}  {###}  {###}  {###}  ");
    assert_eq!(lines[2], "         [J.C]  {###}  {###}  {###}  {###}  {###}  ");
}
