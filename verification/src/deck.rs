//! The canonical 52-card identity set: thirteen ranks in each of the
//! four suits, ordered hearts, diamonds, spades, clubs.

use vstd::prelude::*;

use crate::card::{Card, Suit, Value};

verus! {

/// The suit of the card at position `i` of the full deck.
pub open spec fn suit_of_index(i: int) -> Suit {
    if i < 13 {
        Suit::Heart
    } else if i < 26 {
        Suit::Diamond
    } else if i < 39 {
        Suit::Spade
    } else {
        Suit::Club
    }
}

/// The rank value numbered `r`, for `r` in 1..13.
pub open spec fn value_of_rank(r: int) -> Value {
    if r == 1 {
        Value::Ace
    } else if r == 2 {
        Value::Two
    } else if r == 3 {
        Value::Three
    } else if r == 4 {
        Value::Four
    } else if r == 5 {
        Value::Five
    } else if r == 6 {
        Value::Six
    } else if r == 7 {
        Value::Seven
    } else if r == 8 {
        Value::Eight
    } else if r == 9 {
        Value::Nine
    } else if r == 10 {
        Value::Ten
    } else if r == 11 {
        Value::Jack
    } else if r == 12 {
        Value::Queen
    } else {
        Value::King
    }
}

/// The card at position `i` of the full deck: thirteen consecutive ranks
/// per suit, aces first.
pub open spec fn full_deck_card(i: int) -> Card {
    Card { suit: suit_of_index(i), value: value_of_rank(i % 13 + 1) }
}

/// The canonical deck as a sequence.
pub open spec fn full_deck_seq() -> Seq<Card> {
    Seq::new(52, |i: int| full_deck_card(i))
}

/// The canonical deck holds 52 distinct cards: each card appears in it
/// exactly once.
pub proof fn lemma_full_deck_distinct()
    ensures
        full_deck_seq().no_duplicates(),
        forall|c: Card|
            full_deck_seq().to_multiset().contains(c) ==> full_deck_seq().to_multiset().count(c)
                == 1,
{
    let s = full_deck_seq();
    assert forall|i: int, j: int|
        0 <= i < s.len() && 0 <= j < s.len() && i != j implies s[i] != s[j] by {
        if suit_of_index(i) == suit_of_index(j) {
            assert(i % 13 != j % 13);
        }
    }
    s.lemma_multiset_has_no_duplicates();
}

fn suit_at(i: usize) -> (s: Suit)
    requires
        i < 52,
    ensures
        s == suit_of_index(i as int),
{
    if i < 13 {
        Suit::Heart
    } else if i < 26 {
        Suit::Diamond
    } else if i < 39 {
        Suit::Spade
    } else {
        Suit::Club
    }
}

fn value_at(r: usize) -> (v: Value)
    requires
        1 <= r <= 13,
    ensures
        v == value_of_rank(r as int),
{
    if r == 1 {
        Value::Ace
    } else if r == 2 {
        Value::Two
    } else if r == 3 {
        Value::Three
    } else if r == 4 {
        Value::Four
    } else if r == 5 {
        Value::Five
    } else if r == 6 {
        Value::Six
    } else if r == 7 {
        Value::Seven
    } else if r == 8 {
        Value::Eight
    } else if r == 9 {
        Value::Nine
    } else if r == 10 {
        Value::Ten
    } else if r == 11 {
        Value::Jack
    } else if r == 12 {
        Value::Queen
    } else {
        Value::King
    }
}

/// Builds the full 52-card deck in its canonical order.
pub fn full_deck() -> (deck: Vec<Card>)
    ensures
        deck@ == full_deck_seq(),
        deck@.len() == 52,
        forall|i: int| 0 <= i < 52 ==> deck@[i] == full_deck_card(i),
{
    let mut deck: Vec<Card> = Vec::new();
    let mut i: usize = 0;
    while i < 52
        invariant
            i <= 52,
            deck@.len() == i,
            forall|k: int| 0 <= k < i ==> deck@[k] == full_deck_card(k),
        decreases 52 - i,
    {
        let suit = suit_at(i);
        let value = value_at(i % 13 + 1);
        deck.push(Card { suit, value });
        i += 1;
    }
    proof {
        assert(deck@ =~= full_deck_seq());
    }
    deck
}

} // verus!
