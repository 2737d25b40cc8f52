//! A tableau pile: face-down cards at the bottom, a face-up run on top.
//! Pile-to-pile moves cut a whole face-up run and append it elsewhere.

use vstd::prelude::*;
use vstd::string::StringExecFns;

use crate::card::{Card, CardState, Value, DISPLAY_BLANK};

verus! {

/// A face-up king: the cards that may start a run on an empty pile.
pub open spec fn king_match(cs: CardState) -> bool {
    cs.spec_is_visible() && cs.card.spec_is_king()
}

/// A face-up card that may legally sit on top of `cmp`: a different
/// color and exactly one rank above it.
pub open spec fn pile_match(cs: CardState, cmp: Card) -> bool {
    cs.spec_is_visible() && cs.card.spec_is_different_color(cmp) && cs.card.spec_is_one_more(cmp)
}

pub open spec fn king_pred() -> spec_fn(CardState) -> bool {
    |cs: CardState| king_match(cs)
}

pub open spec fn pile_pred(cmp: Card) -> spec_fn(CardState) -> bool {
    |cs: CardState| pile_match(cs, cmp)
}

/// The index where a cut splits the pile: the topmost card satisfying
/// `pred`, scanning from the top of the pile downward.
pub open spec fn cut_index(s: Seq<CardState>, pred: spec_fn(CardState) -> bool) -> Option<int>
    decreases s.len(),
{
    if s.len() == 0 {
        None
    } else if pred(s.last()) {
        Some(s.len() - 1)
    } else {
        cut_index(s.drop_last(), pred)
    }
}

/// Where `cut_king` splits the pile, if anywhere.
pub open spec fn king_cut_index(s: Seq<CardState>) -> Option<int> {
    cut_index(s, king_pred())
}

/// Where `cut_pile` splits the pile for a destination top card `cmp`.
pub open spec fn pile_cut_index(s: Seq<CardState>, cmp: Card) -> Option<int> {
    cut_index(s, pile_pred(cmp))
}

/// The pile after its top card (if any) is turned face-up.
pub open spec fn flip_top_seq(s: Seq<CardState>) -> Seq<CardState> {
    if s.len() == 0 {
        s
    } else {
        s.update(s.len() - 1, s.last().spec_make_visible())
    }
}

/// What `cut_index` finds: a satisfying index with nothing satisfying
/// above it, or the guarantee that no index satisfies `pred`.
pub proof fn lemma_cut_index(s: Seq<CardState>, pred: spec_fn(CardState) -> bool)
    ensures
        match cut_index(s, pred) {
            Some(j) => 0 <= j < s.len() && pred(s[j]) && (forall|i: int|
                j < i < s.len() ==> !pred(s[i])),
            None => forall|i: int| 0 <= i < s.len() ==> !pred(s[i]),
        },
    decreases s.len(),
{
    if s.len() > 0 && !pred(s.last()) {
        lemma_cut_index(s.drop_last(), pred);
        match cut_index(s.drop_last(), pred) {
            Some(j) => {
                assert(s.drop_last()[j] == s[j]);
                assert forall|i: int| j < i < s.len() implies !pred(s[i]) by {
                    if i < s.len() - 1 {
                        assert(s.drop_last()[i] == s[i]);
                    }
                }
            }
            None => {
                assert forall|i: int| 0 <= i < s.len() implies !pred(s[i]) by {
                    if i < s.len() - 1 {
                        assert(s.drop_last()[i] == s[i]);
                    }
                }
            }
        }
    }
}

/// An index satisfying `pred` with none satisfying above it is exactly
/// where the cut lands.
pub proof fn lemma_cut_index_topmost(s: Seq<CardState>, pred: spec_fn(CardState) -> bool, j: int)
    requires
        0 <= j < s.len(),
        pred(s[j]),
        forall|i: int| j < i < s.len() ==> !pred(s[i]),
    ensures
        cut_index(s, pred) == Some(j),
    decreases s.len(),
{
    if j < s.len() - 1 {
        lemma_cut_index_topmost(s.drop_last(), pred, j);
    }
}

/// Removing an unsatisfying top card does not move the cut.
proof fn lemma_cut_take_step(s: Seq<CardState>, pred: spec_fn(CardState) -> bool, i: int)
    requires
        0 <= i < s.len(),
        !pred(s[i]),
    ensures
        cut_index(s.take(i + 1), pred) == cut_index(s.take(i), pred),
{
    assert(s.take(i + 1).last() == s[i]);
    assert(s.take(i + 1).drop_last() =~= s.take(i));
}

/// The tableau pile shape invariant: face-down cards form a prefix and
/// face-up cards a suffix, and within the face-up suffix each card one
/// position up is one rank lower and of the other color.
#[verifier::opaque]
pub open spec fn pile_wf(s: Seq<CardState>) -> bool {
    &&& forall|i: int|
        0 <= i < s.len() - 1 && (#[trigger] s[i]).spec_is_visible() ==> s[i
            + 1].spec_is_visible()
    &&& forall|i: int|
        0 <= i < s.len() - 1 && (#[trigger] s[i]).spec_is_visible() ==> s[i].card.spec_is_one_less(
            s[i + 1].card,
        ) && s[i].card.spec_is_different_color(s[i + 1].card)
}

/// In a well-formed pile, a face-up card `i` positions below the top has
/// a rank exactly `i` above the top card's.
pub proof fn lemma_visible_rank(s: Seq<CardState>, i: int)
    requires
        pile_wf(s),
        0 <= i < s.len(),
        s[i].spec_is_visible(),
    ensures
        s[i].card.value.spec_rank() == s.last().card.value.spec_rank() + (s.len() - 1 - i),
    decreases s.len() - i,
{
    reveal(pile_wf);
    if i < s.len() - 1 {
        lemma_visible_rank(s, i + 1);
    }
}

/// Cutting a well-formed pile leaves a well-formed remainder once its
/// new top is turned face-up.
pub proof fn lemma_rest_wf(s: Seq<CardState>, j: int)
    requires
        pile_wf(s),
        0 <= j <= s.len(),
    ensures
        pile_wf(flip_top_seq(s.take(j))),
{
    reveal(pile_wf);
    let t = s.take(j);
    if j > 0 {
        if t.last().spec_is_visible() {
            assert(t.last().spec_make_visible() == t.last());
            assert(flip_top_seq(t) =~= t);
        } else {
            assert forall|i: int|
                0 <= i < j - 1 && (#[trigger] flip_top_seq(t)[i]).spec_is_visible() implies flip_top_seq(
                t,
            )[i + 1].spec_is_visible() && flip_top_seq(t)[i].card.spec_is_one_less(
                flip_top_seq(t)[i + 1].card,
            ) && flip_top_seq(t)[i].card.spec_is_different_color(flip_top_seq(t)[i + 1].card) by {
                assert(flip_top_seq(t)[i] == s[i]);
                if i + 1 < j - 1 {
                    assert(flip_top_seq(t)[i + 1] == s[i + 1]);
                } else {
                    // The card below the face-down old top cannot be face-up.
                    assert(s[j - 2].spec_is_visible() ==> s[j - 1].spec_is_visible());
                }
            }
        }
    }
}

/// Appending one well-formed run to another stays well-formed when the
/// joint obeys the visibility and adjacency rules.
#[verifier::rlimit(100)]
pub proof fn lemma_append_wf(a: Seq<CardState>, b: Seq<CardState>)
    requires
        pile_wf(a),
        pile_wf(b),
        a.len() > 0 && b.len() > 0 && a.last().spec_is_visible() ==> b[0].spec_is_visible()
            && a.last().card.spec_is_one_less(b[0].card)
            && a.last().card.spec_is_different_color(b[0].card),
    ensures
        pile_wf(a + b),
{
    reveal(pile_wf);
    let c = a + b;
    assert forall|i: int|
        0 <= i < c.len() - 1 && (#[trigger] c[i]).spec_is_visible() implies c[i
        + 1].spec_is_visible() && c[i].card.spec_is_one_less(c[i + 1].card)
        && c[i].card.spec_is_different_color(c[i + 1].card) by {
        if i < a.len() - 1 {
            assert(c[i] == a[i]);
            assert(c[i + 1] == a[i + 1]);
        } else if i == a.len() - 1 {
            assert(c[i] == a.last());
            assert(c[i + 1] == b[0]);
        } else {
            assert(c[i] == b[i - a.len()]);
            assert(c[i + 1] == b[i + 1 - a.len()]);
        }
    }
}

/// Any upper part of a well-formed pile is well-formed on its own.
#[verifier::rlimit(100)]
pub proof fn lemma_subrange_wf(s: Seq<CardState>, j: int)
    requires
        pile_wf(s),
        0 <= j <= s.len(),
    ensures
        pile_wf(s.subrange(j, s.len() as int)),
{
    reveal(pile_wf);
    let t = s.subrange(j, s.len() as int);
    assert forall|i: int|
        0 <= i < t.len() - 1 && (#[trigger] t[i]).spec_is_visible() implies t[i
        + 1].spec_is_visible() && t[i].card.spec_is_one_less(t[i + 1].card)
        && t[i].card.spec_is_different_color(t[i + 1].card) by {
        assert(t[i] == s[j + i]);
        assert(t[i + 1] == s[j + i + 1]);
    }
}

/// Pushing a face-up card that may legally sit on the pile's face-up
/// top (or on an empty pile) keeps the pile well-formed.
#[verifier::rlimit(100)]
pub proof fn lemma_push_wf(s: Seq<CardState>, c: Card)
    requires
        pile_wf(s),
        s.len() == 0 || (s.last().spec_is_visible() && s.last().card.spec_is_one_less(c)
            && s.last().card.spec_is_different_color(c)),
    ensures
        pile_wf(s.push((CardState { card: c, face_up: true }))),
{
    reveal(pile_wf);
    let t = s.push((CardState { card: c, face_up: true }));
    assert forall|i: int|
        0 <= i < t.len() - 1 && (#[trigger] t[i]).spec_is_visible() implies t[i
        + 1].spec_is_visible() && t[i].card.spec_is_one_less(t[i + 1].card)
        && t[i].card.spec_is_different_color(t[i + 1].card) by {
        assert(t[i] == s[i]);
        if i < s.len() - 1 {
            assert(t[i + 1] == s[i + 1]);
        } else {
            assert(t[i + 1] == (CardState { card: c, face_up: true }));
        }
    }
}

/// A pile with no face-up card below its top is well-formed.
pub proof fn lemma_top_only_wf(s: Seq<CardState>)
    requires
        forall|i: int| 0 <= i < s.len() - 1 ==> !(#[trigger] s[i]).spec_is_visible(),
    ensures
        pile_wf(s),
{
    reveal(pile_wf);
}

/// In a well-formed pile no face-up card sits one rank below the pile's
/// own top card, so a pile never yields a cut onto itself.
pub proof fn lemma_no_self_cut(s: Seq<CardState>)
    requires
        pile_wf(s),
        s.len() > 0,
        s.last().spec_is_visible(),
    ensures
        pile_cut_index(s, s.last().card) is None,
{
    reveal(pile_wf);
    lemma_cut_index(s, pile_pred(s.last().card));
    match cut_index(s, pile_pred(s.last().card)) {
        Some(j) => {
            lemma_visible_rank(s, j);
        }
        None => {}
    }
}

pub struct Pile {
    pub cards: Vec<CardState>,
}

impl Pile {
    /// The playable top card: the pile's topmost card when it lies
    /// face-up, nothing otherwise.
    pub open spec fn spec_top(self) -> Option<Card> {
        if self.cards@.len() > 0 && self.cards@.last().spec_is_visible() {
            Some(self.cards@.last().card)
        } else {
            None
        }
    }

    /// An empty pile accepts only a king; a pile with a face-up top
    /// accepts exactly a card of the other color one rank below it.
    pub open spec fn spec_can_add(self, card: Card) -> bool {
        match self.spec_top() {
            Some(top) => top.spec_is_different_color(card) && top.spec_is_one_less(card),
            None => self.cards@.len() == 0 && card.spec_is_king(),
        }
    }

    pub fn new() -> (p: Pile)
        ensures
            p.cards@.len() == 0,
    {
        Pile { cards: Vec::new() }
    }

    /// The rendering of the card at height `row`, or a blank token when
    /// the pile is shorter than that.
    pub open spec fn spec_display_row(self, row: int) -> Seq<char> {
        if row >= self.cards@.len() {
            DISPLAY_BLANK@
        } else {
            self.cards@[row].spec_display()
        }
    }

    pub fn display_row(&self, row: u8) -> (s: String)
        ensures
            s@ == self.spec_display_row(row as int),
    {
        if row as usize >= self.cards.len() {
            String::from_str(DISPLAY_BLANK)
        } else {
            self.cards[row as usize].display()
        }
    }

    pub fn len(&self) -> (n: u8)
        requires
            self.cards@.len() <= 255,
        ensures
            n as int == self.cards@.len(),
    {
        self.cards.len() as u8
    }

    fn find_king(cards: &Vec<CardState>) -> (r: Option<usize>)
        ensures
            match r {
                Some(j) => king_cut_index(cards@) == Some(j as int),
                None => king_cut_index(cards@) is None,
            },
    {
        proof {
            assert(cards@.take(cards@.len() as int) =~= cards@);
        }
        let mut i: usize = cards.len();
        while i > 0
            invariant
                i <= cards@.len(),
                cut_index(cards@, king_pred()) == cut_index(cards@.take(i as int), king_pred()),
            decreases i,
        {
            i -= 1;
            let cs = cards[i];
            if cs.is_visible() && cs.card.is_king() {
                proof {
                    assert(cards@.take(i + 1).last() == cards@[i as int]);
                    assert(king_pred()(cards@[i as int]));
                }
                return Some(i);
            }
            proof {
                assert(!king_pred()(cards@[i as int]));
                lemma_cut_take_step(cards@, king_pred(), i as int);
            }
        }
        proof {
            assert(cards@.take(0) =~= Seq::<CardState>::empty());
        }
        None
    }

    fn find_match(cards: &Vec<CardState>, cmp_card: &Card) -> (r: Option<usize>)
        ensures
            match r {
                Some(j) => pile_cut_index(cards@, *cmp_card) == Some(j as int),
                None => pile_cut_index(cards@, *cmp_card) is None,
            },
    {
        proof {
            assert(cards@.take(cards@.len() as int) =~= cards@);
        }
        let mut i: usize = cards.len();
        while i > 0
            invariant
                i <= cards@.len(),
                cut_index(cards@, pile_pred(*cmp_card)) == cut_index(
                    cards@.take(i as int),
                    pile_pred(*cmp_card),
                ),
            decreases i,
        {
            i -= 1;
            let cs = cards[i];
            if cs.is_visible() && cs.card.is_different_color(cmp_card) && cs.card.is_one_more(
                cmp_card,
            ) {
                proof {
                    assert(cards@.take(i + 1).last() == cards@[i as int]);
                    assert(pile_pred(*cmp_card)(cards@[i as int]));
                }
                return Some(i);
            }
            proof {
                assert(!pile_pred(*cmp_card)(cards@[i as int]));
                lemma_cut_take_step(cards@, pile_pred(*cmp_card), i as int);
            }
        }
        proof {
            assert(cards@.take(0) =~= Seq::<CardState>::empty());
        }
        None
    }

    /// Splits this pile at the topmost face-up king, turns the remainder's
    /// new top face-up, and appends the cut segment to `cut`; with no
    /// face-up king, neither the pile nor `cut` changes.
    pub fn cut_king(&mut self, cut: &mut Vec<CardState>)
        ensures
            match king_cut_index(old(self).cards@) {
                None => final(self).cards@ == old(self).cards@ && final(cut)@ == old(cut)@,
                Some(j) => final(self).cards@ == flip_top_seq(old(self).cards@.take(j))
                    && final(cut)@ == old(cut)@ + old(self).cards@.subrange(j, old(self).cards@.len() as int),
            },
    {
        match Self::find_king(&self.cards) {
            Some(index) => {
                proof {
                    lemma_cut_index(old(self).cards@, king_pred());
                }
                let mut cut_col = self.cards.split_off(index);
                self.flip_top();
                cut.append(&mut cut_col);
            }
            None => {}
        }
    }

    /// Splits this pile at the topmost face-up card that may sit on
    /// `cmp_card`, turns the remainder's new top face-up, and appends the
    /// cut segment to `cut`; with no such card, nothing changes.
    pub fn cut_pile(&mut self, cmp_card: &Card, cut: &mut Vec<CardState>)
        ensures
            match pile_cut_index(old(self).cards@, *cmp_card) {
                None => final(self).cards@ == old(self).cards@ && final(cut)@ == old(cut)@,
                Some(j) => final(self).cards@ == flip_top_seq(old(self).cards@.take(j))
                    && final(cut)@ == old(cut)@ + old(self).cards@.subrange(j, old(self).cards@.len() as int),
            },
    {
        match Self::find_match(&self.cards, cmp_card) {
            Some(index) => {
                proof {
                    lemma_cut_index(old(self).cards@, pile_pred(*cmp_card));
                }
                let mut cut_col = self.cards.split_off(index);
                self.flip_top();
                cut.append(&mut cut_col);
            }
            None => {}
        }
    }

    /// Appends a previously cut segment to this pile, preserving its
    /// order, and drains `cut`.
    pub fn add_cut(&mut self, cut: &mut Vec<CardState>)
        ensures
            final(self).cards@ == old(self).cards@ + old(cut)@,
            final(cut)@.len() == 0,
    {
        self.cards.append(cut);
    }

    fn get_top_index(&self) -> (r: usize)
        requires
            self.cards@.len() > 0,
        ensures
            r == self.cards@.len() - 1,
    {
        self.cards.len() - 1
    }

    pub fn get_top(&self) -> (r: Option<Card>)
        ensures
            r == self.spec_top(),
    {
        if !self.cards.is_empty() && self.cards[self.get_top_index()].is_visible() {
            Some(self.cards[self.get_top_index()].card)
        } else {
            None
        }
    }

    pub fn is_empty(&self) -> (r: bool)
        ensures
            r == (self.cards@.len() == 0),
    {
        self.cards.is_empty()
    }

    /// Pushes a card face-down; used only while dealing a new game.
    pub fn populate(&mut self, card: Card)
        ensures
            final(self).cards@ == old(self).cards@.push((CardState { card: card, face_up: false })),
    {
        self.cards.push(CardState::new(card, false));
    }

    /// Turns the top card face-up, if there is one.
    pub fn flip_top(&mut self)
        ensures
            final(self).cards@ == flip_top_seq(old(self).cards@),
    {
        if !self.is_empty() {
            let top_index = self.get_top_index();
            self.cards[top_index].make_visible();
        }
    }

    pub fn can_add(&self, card: &Card) -> (r: bool)
        ensures
            r == self.spec_can_add(*card),
    {
        let top = self.get_top();
        match top {
            Some(top_card) => top_card.is_different_color(card) && top_card.is_one_less(card),
            None => self.cards.is_empty() && card.value == Value::King,
        }
    }

    /// Pushes a card face-up.
    pub fn add_card(&mut self, card: Card)
        ensures
            final(self).cards@ == old(self).cards@.push((CardState { card: card, face_up: true })),
    {
        self.cards.push(CardState::new(card, true));
    }

    /// Pops the top card and turns the new top face-up, if one remains.
    pub fn take(&mut self) -> (r: Option<Card>)
        ensures
            old(self).cards@.len() == 0 ==> r is None && final(self).cards@ == old(self).cards@,
            old(self).cards@.len() > 0 ==> r == Some(old(self).cards@.last().card)
                && final(self).cards@ == flip_top_seq(old(self).cards@.drop_last()),
    {
        match self.cards.pop() {
            Some(taken_card) => {
                self.flip_top();
                Some(taken_card.card)
            }
            None => None,
        }
    }
}

/// Cutting at a face-up king below the face-up suffix and appending the
/// cut onto an empty pile reproduces the pile's face-up suffix in its
/// original order, and the remainder's new top lies face-up.
pub proof fn lemma_cut_king_round_trip(p: Seq<CardState>, j: int)
    requires
        0 <= j < p.len(),
        forall|i: int| 0 <= i < j ==> !(#[trigger] p[i]).spec_is_visible(),
        forall|i: int| j <= i < p.len() ==> (#[trigger] p[i]).spec_is_visible(),
        p[j].card.spec_is_king(),
        forall|i: int| j < i < p.len() ==> !(#[trigger] p[i]).card.spec_is_king(),
    ensures
        king_cut_index(p) == Some(j),
        Seq::<CardState>::empty() + p.subrange(j, p.len() as int) == p.subrange(
            j,
            p.len() as int,
        ),
        flip_top_seq(p.take(j)).len() == j,
        j > 0 ==> flip_top_seq(p.take(j)).last().spec_is_visible(),
        j > 0 ==> flip_top_seq(p.take(j)).last().card == p[j - 1].card,
{
    assert(king_pred()(p[j]));
    assert forall|i: int| j < i < p.len() implies !king_pred()(p[i]) by {}
    lemma_cut_index_topmost(p, king_pred(), j);
    assert(Seq::<CardState>::empty() + p.subrange(j, p.len() as int) =~= p.subrange(
        j,
        p.len() as int,
    ));
}

} // verus!
