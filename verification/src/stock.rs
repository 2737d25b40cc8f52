//! The stock: the face-down draw pile. Cards leave from the top in LIFO
//! order and the stock is refilled by flipping the waste pile over.

use vstd::prelude::*;
use vstd::string::StringExecFns;

use crate::card::{Card, DISPLAY_CARD_BACK, DISPLAY_EMPTY};

verus! {

pub struct Stock {
    pub cards: Vec<Card>,
}

impl Stock {
    pub fn new(deck: Vec<Card>) -> (s: Stock)
        ensures
            s.cards@ == deck@,
    {
        Stock { cards: deck }
    }

    pub fn size(&self) -> (n: usize)
        ensures
            n == self.cards@.len(),
    {
        self.cards.len()
    }

    pub fn is_empty(&self) -> (r: bool)
        ensures
            r == (self.cards@.len() == 0),
    {
        self.cards.is_empty()
    }

    /// Removes up to `num` cards from the top, in pop order: the first
    /// element of the result was the stock's top. Returns nothing only
    /// when the stock was already empty; a partial take is a success.
    pub fn take(&mut self, num: u8) -> (r: Option<Vec<Card>>)
        ensures
            old(self).cards@.len() == 0 ==> r is None && final(self).cards@ == old(self).cards@,
            old(self).cards@.len() > 0 ==> (r matches Some(taken) && {
                let n = if num as int <= old(self).cards@.len() {
                    num as int
                } else {
                    old(self).cards@.len() as int
                };
                &&& taken@.len() == n
                &&& forall|i: int|
                    0 <= i < n ==> taken@[i] == old(self).cards@[old(self).cards@.len() - 1 - i]
                &&& final(self).cards@ == old(self).cards@.take(old(self).cards@.len() - n)
            }),
    {
        if self.is_empty() {
            None
        } else {
            let len: usize = if (num as usize) < self.cards.len() {
                num as usize
            } else {
                self.cards.len()
            };
            let mut taken: Vec<Card> = Vec::new();
            let mut k: usize = 0;
            while k < len
                invariant
                    k <= len,
                    len <= old(self).cards@.len(),
                    len == if num as int <= old(self).cards@.len() {
                        num as int
                    } else {
                        old(self).cards@.len() as int
                    },
                    taken@.len() == k,
                    forall|i: int|
                        0 <= i < k ==> taken@[i] == old(self).cards@[old(self).cards@.len() - 1
                            - i],
                    self.cards@ == old(self).cards@.take(old(self).cards@.len() - k),
                decreases len - k,
            {
                if let Some(card) = self.cards.pop() {
                    taken.push(card);
                }
                k += 1;
                assert(self.cards@ =~= old(self).cards@.take(old(self).cards@.len() - k as int));
            }
            Some(taken)
        }
    }

    /// Replaces the stock's contents with the waste's cards in reverse of
    /// waste order: the waste's bottom card becomes the stock's top.
    pub fn refresh(&mut self, waste: &Vec<Card>)
        ensures
            final(self).cards@ == waste@.reverse(),
    {
        self.cards.clear();
        let mut k: usize = waste.len();
        while k > 0
            invariant
                k <= waste@.len(),
                self.cards@.len() == waste@.len() - k,
                forall|i: int|
                    0 <= i < self.cards@.len() ==> self.cards@[i] == waste@[waste@.len() - 1 - i],
            decreases k,
        {
            k -= 1;
            self.cards.push(waste[k]);
        }
        assert(self.cards@ =~= waste@.reverse());
    }

    /// The rendering of the stock: a card back when any card remains,
    /// the empty marker otherwise.
    pub open spec fn spec_display(self) -> Seq<char> {
        if self.cards@.len() == 0 {
            DISPLAY_EMPTY@
        } else {
            DISPLAY_CARD_BACK@
        }
    }

    pub fn display(&self) -> (s: String)
        ensures
            s@ == self.spec_display(),
    {
        if self.is_empty() {
            String::from_str(DISPLAY_EMPTY)
        } else {
            String::from_str(DISPLAY_CARD_BACK)
        }
    }
}

} // verus!
