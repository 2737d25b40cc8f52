//! The waste: the face-up discard pile fed by the stock. Only its top
//! card is playable.

use vstd::prelude::*;
use vstd::string::StringExecFns;

use crate::card::{Card, DISPLAY_EMPTY};

verus! {

pub struct Waste {
    pub cards: Vec<Card>,
}

impl Waste {
    /// The topmost card, if any.
    pub open spec fn spec_top(self) -> Option<Card> {
        if self.cards@.len() == 0 {
            None
        } else {
            Some(self.cards@.last())
        }
    }

    pub fn new() -> (w: Waste)
        ensures
            w.cards@.len() == 0,
    {
        Waste { cards: Vec::new() }
    }

    pub fn size(&self) -> (n: usize)
        ensures
            n == self.cards@.len(),
    {
        self.cards.len()
    }

    /// Appends a batch drawn from the stock, preserving its order: the
    /// batch's last card becomes the new top.
    pub fn put(&mut self, take: Vec<Card>)
        ensures
            final(self).cards@ == old(self).cards@ + take@,
    {
        let mut batch = take;
        self.cards.append(&mut batch);
    }

    pub fn get_top(&self) -> (r: Option<Card>)
        ensures
            r == self.spec_top(),
    {
        if self.cards.is_empty() {
            None
        } else {
            Some(self.cards[self.cards.len() - 1])
        }
    }

    /// Removes and returns the top card.
    pub fn take(&mut self) -> (r: Option<Card>)
        ensures
            old(self).cards@.len() == 0 ==> r is None && final(self).cards@ == old(self).cards@,
            old(self).cards@.len() > 0 ==> r == Some(old(self).cards@.last())
                && final(self).cards@ == old(self).cards@.drop_last(),
    {
        self.cards.pop()
    }

    pub fn get_all(&self) -> (r: &Vec<Card>)
        ensures
            r@ == self.cards@,
    {
        &self.cards
    }

    pub fn clear(&mut self)
        ensures
            final(self).cards@.len() == 0,
    {
        self.cards.clear();
    }

    /// The rendering of the waste: its top card, or the empty marker.
    pub open spec fn spec_display(self) -> Seq<char> {
        match self.spec_top() {
            Some(top) => top.spec_display(),
            None => DISPLAY_EMPTY@,
        }
    }

    pub fn display(&self) -> (s: String)
        ensures
            s@ == self.spec_display(),
    {
        match self.get_top() {
            Some(card) => card.display(),
            None => String::from_str(DISPLAY_EMPTY),
        }
    }
}

} // verus!
