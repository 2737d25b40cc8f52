//! A foundation: one ascending same-suit run from ace to king. The game
//! is won once all four foundations are complete.

use vstd::prelude::*;
use vstd::string::StringExecFns;

use crate::card::{Card, Suit, Value, DISPLAY_EMPTY};

verus! {

pub struct Foundation {
    pub cards: Vec<Card>,
    pub suit: Suit,
}

impl Foundation {
    /// The foundation invariant: every card is of the foundation's suit
    /// and ranks ascend from 1 in steps of exactly 1 from the bottom.
    pub open spec fn wf(self) -> bool {
        forall|i: int|
            0 <= i < self.cards@.len() ==> (#[trigger] self.cards@[i]).suit == self.suit
                && self.cards@[i].value.spec_rank() == i + 1
    }

    /// The topmost card, if any.
    pub open spec fn spec_top(self) -> Option<Card> {
        if self.cards@.len() == 0 {
            None
        } else {
            Some(self.cards@.last())
        }
    }

    /// A foundation is full exactly when a king lies on top.
    pub open spec fn spec_is_full(self) -> bool {
        match self.spec_top() {
            Some(top) => top.value == Value::King,
            None => false,
        }
    }

    /// An empty foundation accepts only its own suit's ace; afterwards it
    /// accepts exactly the card of its suit one rank above the current top.
    pub open spec fn spec_can_add(self, card: Card) -> bool {
        match self.spec_top() {
            Some(top) => card.suit == self.suit && top.spec_is_one_more(card),
            None => card.suit == self.suit && card.value == Value::Ace,
        }
    }

    pub fn new(suit: Suit) -> (f: Foundation)
        ensures
            f.suit == suit,
            f.cards@.len() == 0,
            f.wf(),
    {
        Foundation { cards: Vec::new(), suit }
    }

    pub fn get_top(&self) -> (r: Option<Card>)
        ensures
            r == self.spec_top(),
    {
        if self.cards.is_empty() {
            None
        } else {
            Some(self.cards[self.cards.len() - 1])
        }
    }

    pub fn take(&mut self) -> (r: Option<Card>)
        ensures
            final(self).suit == old(self).suit,
            old(self).cards@.len() == 0 ==> r is None && final(self).cards@ == old(self).cards@,
            old(self).cards@.len() > 0 ==> r == Some(old(self).cards@.last())
                && final(self).cards@ == old(self).cards@.drop_last(),
            old(self).wf() ==> final(self).wf(),
    {
        self.cards.pop()
    }

    pub fn is_full(&self) -> (r: bool)
        ensures
            r == self.spec_is_full(),
    {
        match self.get_top() {
            Some(top_card) => top_card.value == Value::King,
            None => false,
        }
    }

    pub fn can_add(&self, card: &Card) -> (r: bool)
        ensures
            r == self.spec_can_add(*card),
    {
        match self.get_top() {
            Some(top_card) => card.suit == self.suit && top_card.is_one_more(card),
            None => card.suit == self.suit && card.value == Value::Ace,
        }
    }

    /// Pushes `card` unconditionally; the caller is responsible for having
    /// checked `can_add` first.
    pub fn add(&mut self, card: Card)
        requires
            old(self).spec_can_add(card),
        ensures
            final(self).suit == old(self).suit,
            final(self).cards@ == old(self).cards@.push(card),
            old(self).wf() ==> final(self).wf(),
    {
        self.cards.push(card);
    }

    /// The rendering of a foundation: its top card, or the empty marker.
    pub open spec fn spec_display(self) -> Seq<char> {
        match self.spec_top() {
            Some(top) => top.spec_display(),
            None => DISPLAY_EMPTY@,
        }
    }

    pub fn display(&self) -> (s: String)
        ensures
            s@ == self.spec_display(),
    {
        match self.get_top() {
            Some(card) => card.display(),
            None => String::from_str(DISPLAY_EMPTY),
        }
    }
}

} // verus!
