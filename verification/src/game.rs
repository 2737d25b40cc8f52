//! The game orchestrator: four foundations, stock, waste, the tableau,
//! and one operation per player move. Every successful move increments
//! the turn counter exactly once; an invalid move changes nothing.

use vstd::assert_multisets_equal;
use vstd::multiset::Multiset;
use vstd::prelude::*;
use vstd::string::StringExecFns;

use rand::seq::SliceRandom;

use crate::card::{Card, CardState, Suit, Value};
use crate::deck::{full_deck, full_deck_seq};
use crate::foundation::Foundation;
use crate::pile::{flip_top_seq, king_cut_index, king_pred, lemma_append_wf, lemma_cut_index,
    lemma_no_self_cut, lemma_push_wf, lemma_rest_wf, lemma_subrange_wf, lemma_top_only_wf,
    pile_cut_index, pile_pred, pile_wf};
use crate::stock::Stock;
use crate::tableau::{apply_cut, spec_do_move, Tableau};
use crate::text::{push_decimal, spec_decimal};
use crate::waste::Waste;

verus! {

pub const HEART_FD: u8 = 0;

pub const DIAMOND_FD: u8 = 1;

pub const SPADE_FD: u8 = 2;

pub const CLUB_FD: u8 = 3;

/// The fixed suit of foundation number `k`.
pub open spec fn foundation_suit(k: int) -> Suit {
    if k == 0 {
        Suit::Heart
    } else if k == 1 {
        Suit::Diamond
    } else if k == 2 {
        Suit::Spade
    } else {
        Suit::Club
    }
}

/// The number of cards held across a sequence of card sequences.
pub open spec fn seq_total<T>(ss: Seq<Seq<T>>) -> int
    decreases ss.len(),
{
    if ss.len() == 0 {
        0
    } else {
        seq_total(ss.drop_last()) + ss.last().len()
    }
}

proof fn lemma_seq_total_update<T>(ss: Seq<Seq<T>>, i: int, v: Seq<T>)
    requires
        0 <= i < ss.len(),
    ensures
        seq_total(ss.update(i, v)) == seq_total(ss) - ss[i].len() + v.len(),
    decreases ss.len(),
{
    if i == ss.len() - 1 {
        assert(ss.update(i, v).drop_last() =~= ss.drop_last());
        assert(ss.update(i, v).last() == v);
    } else {
        assert(ss.update(i, v).drop_last() =~= ss.drop_last().update(i, v));
        assert(ss.update(i, v).last() == ss.last());
        lemma_seq_total_update(ss.drop_last(), i, v);
    }
}

proof fn lemma_seq_total_elem<T>(ss: Seq<Seq<T>>, i: int)
    requires
        0 <= i < ss.len(),
    ensures
        seq_total(ss) >= 0,
        ss[i].len() <= seq_total(ss),
    decreases ss.len(),
{
    lemma_seq_total_nonneg(ss.drop_last());
    if i == ss.len() - 1 {
        assert(ss.last() == ss[i]);
    } else {
        assert(ss.drop_last()[i] == ss[i]);
        lemma_seq_total_elem(ss.drop_last(), i);
    }
}

proof fn lemma_seq_total_nonneg<T>(ss: Seq<Seq<T>>)
    ensures
        seq_total(ss) >= 0,
    decreases ss.len(),
{
    if ss.len() > 0 {
        lemma_seq_total_nonneg(ss.drop_last());
    }
}

proof fn lemma_seq_total7<T>(ss: Seq<Seq<T>>)
    requires
        ss.len() == 7,
    ensures
        seq_total(ss) == ss[0].len() + ss[1].len() + ss[2].len() + ss[3].len() + ss[4].len()
            + ss[5].len() + ss[6].len(),
{
    let s6 = ss.drop_last();
    let s5 = s6.drop_last();
    let s4 = s5.drop_last();
    let s3 = s4.drop_last();
    let s2 = s3.drop_last();
    let s1 = s2.drop_last();
    let s0 = s1.drop_last();
    assert(seq_total(ss) == seq_total(s6) + ss[6].len());
    assert(seq_total(s6) == seq_total(s5) + ss[5].len());
    assert(seq_total(s5) == seq_total(s4) + ss[4].len());
    assert(seq_total(s4) == seq_total(s3) + ss[3].len());
    assert(seq_total(s3) == seq_total(s2) + ss[2].len());
    assert(seq_total(s2) == seq_total(s1) + ss[1].len());
    assert(seq_total(s1) == seq_total(s0) + ss[0].len());
    assert(seq_total(s0) == 0);
}

proof fn lemma_seq_total4<T>(ss: Seq<Seq<T>>)
    requires
        ss.len() == 4,
    ensures
        seq_total(ss) == ss[0].len() + ss[1].len() + ss[2].len() + ss[3].len(),
{
    let s3 = ss.drop_last();
    let s2 = s3.drop_last();
    let s1 = s2.drop_last();
    let s0 = s1.drop_last();
    assert(seq_total(ss) == seq_total(s3) + ss[3].len());
    assert(seq_total(s3) == seq_total(s2) + ss[2].len());
    assert(seq_total(s2) == seq_total(s1) + ss[1].len());
    assert(seq_total(s1) == seq_total(s0) + ss[0].len());
    assert(seq_total(s0) == 0);
}

/// The identities of a pile's cards, ignoring visibility.
pub open spec fn pile_cards(s: Seq<CardState>) -> Seq<Card> {
    s.map_values(|cs: CardState| cs.card)
}

/// All cards held across a sequence of tableau piles, as one multiset.
pub open spec fn piles_multiset(ss: Seq<Seq<CardState>>) -> Multiset<Card>
    decreases ss.len(),
{
    if ss.len() == 0 {
        Multiset::empty()
    } else {
        piles_multiset(ss.drop_last()).add(pile_cards(ss.last()).to_multiset())
    }
}

/// All cards held across a sequence of foundation runs, as one multiset.
pub open spec fn runs_multiset(ss: Seq<Seq<Card>>) -> Multiset<Card>
    decreases ss.len(),
{
    if ss.len() == 0 {
        Multiset::empty()
    } else {
        runs_multiset(ss.drop_last()).add(ss.last().to_multiset())
    }
}

/// Replacing one pile exchanges exactly that pile's cards in the total.
proof fn lemma_piles_multiset_update(ss: Seq<Seq<CardState>>, i: int, v: Seq<CardState>)
    requires
        0 <= i < ss.len(),
    ensures
        piles_multiset(ss.update(i, v)).add(pile_cards(ss[i]).to_multiset()) =~= piles_multiset(
            ss,
        ).add(pile_cards(v).to_multiset()),
    decreases ss.len(),
{
    broadcast use vstd::multiset::group_multiset_axioms;

    if i == ss.len() - 1 {
        assert(ss.update(i, v).drop_last() =~= ss.drop_last());
        assert(ss.update(i, v).last() == v);
        assert(ss.last() == ss[i]);
        assert(piles_multiset(ss.update(i, v)) == piles_multiset(ss.drop_last()).add(
            pile_cards(v).to_multiset(),
        ));
        assert(piles_multiset(ss) == piles_multiset(ss.drop_last()).add(
            pile_cards(ss[i]).to_multiset(),
        ));
    } else {
        assert(ss.update(i, v).drop_last() =~= ss.drop_last().update(i, v));
        assert(ss.update(i, v).last() == ss.last());
        assert(ss.drop_last()[i] == ss[i]);
        lemma_piles_multiset_update(ss.drop_last(), i, v);
        assert(piles_multiset(ss.update(i, v)) == piles_multiset(
            ss.drop_last().update(i, v),
        ).add(pile_cards(ss.last()).to_multiset()));
        assert(piles_multiset(ss) == piles_multiset(ss.drop_last()).add(
            pile_cards(ss.last()).to_multiset(),
        ));
    }
    assert_multisets_equal!(
        piles_multiset(ss.update(i, v)).add(pile_cards(ss[i]).to_multiset()),
        piles_multiset(ss).add(pile_cards(v).to_multiset()),
        c => {
            if i == ss.len() - 1 {
                assert(piles_multiset(ss.drop_last()).add(
                    pile_cards(v).to_multiset(),
                ).count(c) == piles_multiset(ss.drop_last()).count(c) + pile_cards(
                    v,
                ).to_multiset().count(c));
                assert(piles_multiset(ss.drop_last()).add(
                    pile_cards(ss[i]).to_multiset(),
                ).count(c) == piles_multiset(ss.drop_last()).count(c) + pile_cards(
                    ss[i],
                ).to_multiset().count(c));
            } else {
                assert(piles_multiset(ss.drop_last().update(i, v)).add(
                    pile_cards(ss.last()).to_multiset(),
                ).count(c) == piles_multiset(ss.drop_last().update(i, v)).count(c) + pile_cards(
                    ss.last(),
                ).to_multiset().count(c));
                assert(piles_multiset(ss.drop_last()).add(
                    pile_cards(ss.last()).to_multiset(),
                ).count(c) == piles_multiset(ss.drop_last()).count(c) + pile_cards(
                    ss.last(),
                ).to_multiset().count(c));
                assert(piles_multiset(ss.drop_last().update(i, v)).add(
                    pile_cards(ss[i]).to_multiset(),
                ).count(c) == piles_multiset(ss.drop_last().update(i, v)).count(c) + pile_cards(
                    ss[i],
                ).to_multiset().count(c));
                assert(piles_multiset(ss.drop_last()).add(
                    pile_cards(v).to_multiset(),
                ).count(c) == piles_multiset(ss.drop_last()).count(c) + pile_cards(
                    v,
                ).to_multiset().count(c));
            }
        }
    );
}

/// Replacing one foundation run exchanges exactly its cards in the total.
proof fn lemma_runs_multiset_update(ss: Seq<Seq<Card>>, i: int, v: Seq<Card>)
    requires
        0 <= i < ss.len(),
    ensures
        runs_multiset(ss.update(i, v)).add(ss[i].to_multiset()) =~= runs_multiset(ss).add(
            v.to_multiset(),
        ),
    decreases ss.len(),
{
    broadcast use vstd::multiset::group_multiset_axioms;

    if i == ss.len() - 1 {
        assert(ss.update(i, v).drop_last() =~= ss.drop_last());
        assert(ss.update(i, v).last() == v);
        assert(ss.last() == ss[i]);
        assert(runs_multiset(ss.update(i, v)) == runs_multiset(ss.drop_last()).add(
            v.to_multiset(),
        ));
        assert(runs_multiset(ss) == runs_multiset(ss.drop_last()).add(ss[i].to_multiset()));
    } else {
        assert(ss.update(i, v).drop_last() =~= ss.drop_last().update(i, v));
        assert(ss.update(i, v).last() == ss.last());
        assert(ss.drop_last()[i] == ss[i]);
        lemma_runs_multiset_update(ss.drop_last(), i, v);
        assert(runs_multiset(ss.update(i, v)) == runs_multiset(ss.drop_last().update(i, v)).add(
            ss.last().to_multiset(),
        ));
        assert(runs_multiset(ss) == runs_multiset(ss.drop_last()).add(ss.last().to_multiset()));
    }
    assert_multisets_equal!(
        runs_multiset(ss.update(i, v)).add(ss[i].to_multiset()),
        runs_multiset(ss).add(v.to_multiset()),
        c => {
            if i == ss.len() - 1 {
                assert(runs_multiset(ss.drop_last()).add(v.to_multiset()).count(c)
                    == runs_multiset(ss.drop_last()).count(c) + v.to_multiset().count(c));
                assert(runs_multiset(ss.drop_last()).add(ss[i].to_multiset()).count(c)
                    == runs_multiset(ss.drop_last()).count(c) + ss[i].to_multiset().count(c));
            } else {
                assert(runs_multiset(ss.drop_last().update(i, v)).add(
                    ss.last().to_multiset(),
                ).count(c) == runs_multiset(ss.drop_last().update(i, v)).count(c)
                    + ss.last().to_multiset().count(c));
                assert(runs_multiset(ss.drop_last()).add(ss.last().to_multiset()).count(c)
                    == runs_multiset(ss.drop_last()).count(c) + ss.last().to_multiset().count(c));
                assert(runs_multiset(ss.drop_last().update(i, v)).add(
                    ss[i].to_multiset(),
                ).count(c) == runs_multiset(ss.drop_last().update(i, v)).count(c)
                    + ss[i].to_multiset().count(c));
                assert(runs_multiset(ss.drop_last()).add(v.to_multiset()).count(c)
                    == runs_multiset(ss.drop_last()).count(c) + v.to_multiset().count(c));
            }
        }
    );
}

/// Piles holding the same cards in the same order hold the same multiset.
proof fn lemma_piles_multiset_congruence(a: Seq<Seq<CardState>>, b: Seq<Seq<CardState>>)
    requires
        a.len() == b.len(),
        forall|p: int| 0 <= p < a.len() ==> pile_cards(#[trigger] a[p]) == pile_cards(b[p]),
    ensures
        piles_multiset(a) =~= piles_multiset(b),
    decreases a.len(),
{
    if a.len() > 0 {
        assert(pile_cards(a.last()) == pile_cards(b[a.len() - 1]));
        assert forall|p: int|
            0 <= p < a.len() - 1 implies pile_cards(#[trigger] a.drop_last()[p]) == pile_cards(
            b.drop_last()[p],
        ) by {
            assert(a.drop_last()[p] == a[p]);
            assert(b.drop_last()[p] == b[p]);
        }
        lemma_piles_multiset_congruence(a.drop_last(), b.drop_last());
    }
}

/// A row of empty piles holds no cards.
proof fn lemma_piles_multiset_empty(ss: Seq<Seq<CardState>>)
    requires
        forall|p: int| 0 <= p < ss.len() ==> (#[trigger] ss[p]).len() == 0,
    ensures
        piles_multiset(ss) =~= Multiset::<Card>::empty(),
    decreases ss.len(),
{
    broadcast use vstd::multiset::group_multiset_axioms, vstd::seq_lib::group_to_multiset_ensures;

    if ss.len() > 0 {
        lemma_piles_multiset_empty(ss.drop_last());
        assert(pile_cards(ss.last()).len() == 0);
        lemma_to_multiset_of_empty(pile_cards(ss.last()));
    }
}

/// A row of empty foundation runs holds no cards.
proof fn lemma_runs_multiset_empty(ss: Seq<Seq<Card>>)
    requires
        forall|p: int| 0 <= p < ss.len() ==> (#[trigger] ss[p]).len() == 0,
    ensures
        runs_multiset(ss) =~= Multiset::<Card>::empty(),
    decreases ss.len(),
{
    broadcast use vstd::multiset::group_multiset_axioms;

    if ss.len() > 0 {
        lemma_runs_multiset_empty(ss.drop_last());
        lemma_to_multiset_of_empty(ss.last());
    }
}

/// An empty sequence converts to the empty multiset.
proof fn lemma_to_multiset_of_empty<T>(s: Seq<T>)
    requires
        s.len() == 0,
    ensures
        s.to_multiset() =~= Multiset::<T>::empty(),
{
    broadcast use vstd::multiset::group_multiset_axioms, vstd::seq_lib::group_to_multiset_ensures;

    assert forall|x: T| s.to_multiset().count(x) == 0 by {
        assert(!s.contains(x));
    }
}

/// A non-empty sequence holds its front part's cards plus its last card.
proof fn lemma_pop_multiset<T>(s: Seq<T>)
    requires
        s.len() > 0,
    ensures
        s.to_multiset() == s.drop_last().to_multiset().insert(s.last()),
{
    assert(s.drop_last().push(s.last()) =~= s);
    vstd::seq_lib::to_multiset_build(s.drop_last(), s.last());
}

/// The first foundation from `k` upward that accepts `card`, if any.
pub open spec fn first_accepting_from(fs: Seq<Foundation>, card: Card, k: int) -> Option<int>
    decreases fs.len() - k,
{
    if k < 0 || k >= fs.len() {
        None
    } else if fs[k].spec_can_add(card) {
        Some(k)
    } else {
        first_accepting_from(fs, card, k + 1)
    }
}

/// The first foundation, in the fixed hearts-diamonds-spades-clubs
/// order, that accepts `card`, if any.
pub open spec fn first_accepting(fs: Seq<Foundation>, card: Card) -> Option<int> {
    first_accepting_from(fs, card, 0)
}

proof fn lemma_first_accepting_found(fs: Seq<Foundation>, card: Card, i: int, k: int)
    requires
        0 <= i <= k < fs.len(),
        fs[k].spec_can_add(card),
        forall|m: int| i <= m < k ==> !(#[trigger] fs[m]).spec_can_add(card),
    ensures
        first_accepting_from(fs, card, i) == Some(k),
    decreases k - i,
{
    if i < k {
        lemma_first_accepting_found(fs, card, i + 1, k);
    }
}

proof fn lemma_first_accepting_none(fs: Seq<Foundation>, card: Card, i: int)
    requires
        0 <= i,
        forall|m: int| i <= m < fs.len() ==> !(#[trigger] fs[m]).spec_can_add(card),
    ensures
        first_accepting_from(fs, card, i) is None,
    decreases fs.len() - i,
{
    if i < fs.len() {
        lemma_first_accepting_none(fs, card, i + 1);
    }
}

/// Where the deal for pile `i` starts among the 28 dealt cards: the
/// piles before it received 1, 2, ... `i` cards.
pub open spec fn pile_deal_start(i: int) -> int {
    if i <= 0 {
        0
    } else if i == 1 {
        1
    } else if i == 2 {
        3
    } else if i == 3 {
        6
    } else if i == 4 {
        10
    } else if i == 5 {
        15
    } else if i == 6 {
        21
    } else {
        28
    }
}

pub struct Game {
    pub foundations: Vec<Foundation>,
    pub stock: Stock,
    pub waste: Waste,
    pub tableau: Tableau,
    pub turn: u16,
}

impl Game {
    /// The card sequences of the four foundations.
    pub open spec fn fviews(self) -> Seq<Seq<Card>> {
        Seq::new(self.foundations@.len() as nat, |k: int| self.foundations@[k].cards@)
    }

    /// The number of cards on the table: the full deck is partitioned
    /// among stock, waste, tableau and foundations at all times.
    pub open spec fn total_cards(self) -> int {
        self.stock.cards@.len() + self.waste.cards@.len() + seq_total(self.tableau.pviews())
            + seq_total(self.fviews())
    }

    /// Well-formedness: four foundations in the fixed suit order, each an
    /// ascending same-suit run; seven tableau piles; 52 cards in play.
    pub open spec fn wf(self) -> bool {
        &&& self.foundations@.len() == 4
        &&& forall|k: int| 0 <= k < 4 ==> (#[trigger] self.foundations@[k]).suit
            == foundation_suit(k)
        &&& forall|k: int| 0 <= k < 4 ==> (#[trigger] self.foundations@[k]).wf()
        &&& self.tableau.wf()
        &&& forall|p: int| 0 <= p < 7 ==> pile_wf(#[trigger] self.tableau.pviews()[p])
        &&& self.total_cards() == 52
    }

    /// Every card in play: the same multiset is partitioned among stock,
    /// waste, tableau and foundations through the whole game.
    pub open spec fn all_cards(self) -> Multiset<Card> {
        self.stock.cards@.to_multiset().add(self.waste.cards@.to_multiset()).add(
            piles_multiset(self.tableau.pviews()),
        ).add(runs_multiset(self.fviews()))
    }

    /// Two games that agree on everything the player can observe: turn
    /// count and the contents of every container.
    pub open spec fn same_state(a: Game, b: Game) -> bool {
        &&& b.turn == a.turn
        &&& b.stock.cards@ == a.stock.cards@
        &&& b.waste.cards@ == a.waste.cards@
        &&& b.foundations@.len() == a.foundations@.len()
        &&& forall|k: int|
            0 <= k < a.foundations@.len() ==> (#[trigger] b.foundations@[k]).suit
                == a.foundations@[k].suit && b.foundations@[k].cards@ == a.foundations@[k].cards@
        &&& b.tableau.pviews() == a.tableau.pviews()
    }

    /// Deals a game from the given deck order without shuffling: pile `i`
    /// receives `i + 1` cards from the deck's end with only its top card
    /// face-up, and the 24 remaining cards form the stock.
    pub fn with_deck(deck: Vec<Card>) -> (g: Game)
        requires
            deck@.len() == 52,
        ensures
            g.wf(),
            g.all_cards() == deck@.to_multiset(),
            g.turn == 0,
            g.stock.cards@ == deck@.take(24),
            g.waste.cards@.len() == 0,
            forall|k: int| 0 <= k < 4 ==> (#[trigger] g.foundations@[k]).cards@.len() == 0,
            forall|i: int| 0 <= i < 7 ==> (#[trigger] g.tableau.pviews()[i]).len() == i + 1,
            forall|i: int, j: int|
                0 <= i < 7 && 0 <= j <= i ==> (#[trigger] g.tableau.pviews()[i][j]).card
                    == deck@[51 - pile_deal_start(i) - j] && g.tableau.pviews()[i][j].spec_is_visible()
                    == (j == i),
    {
        let ghost deck0 = deck@;
        let mut cards = deck;
        let mut tableau = Tableau::new();
        proof {
            broadcast use vstd::multiset::group_multiset_axioms;

            lemma_piles_multiset_empty(tableau.pviews());
            assert_multisets_equal!(
                cards@.to_multiset().add(piles_multiset(tableau.pviews())),
                deck0.to_multiset(),
            );
        }
        let mut i: u8 = 0;
        while i < 7
            invariant
                tableau.wf(),
                i <= 7,
                deck0.len() == 52,
                cards@ == deck0.take(52 - pile_deal_start(i as int)),
                cards@.to_multiset().add(piles_multiset(tableau.pviews()))
                    == deck0.to_multiset(),
                forall|p: int| 0 <= p < i ==> (#[trigger] tableau.pviews()[p]).len() == p + 1,
                forall|p: int, j: int|
                    0 <= p < i && 0 <= j <= p ==> (#[trigger] tableau.pviews()[p][j]).card
                        == deck0[51 - pile_deal_start(p) - j] && !tableau.pviews()[p][j].spec_is_visible(),
                forall|p: int| i <= p < 7 ==> (#[trigger] tableau.pviews()[p]).len() == 0,
            decreases 7 - i,
        {
            let ghost start = pile_deal_start(i as int);
            let mut j: u8 = 0;
            while j <= i
                invariant
                    tableau.wf(),
                    i < 7,
                    j <= i + 1,
                    deck0.len() == 52,
                    start == pile_deal_start(i as int),
                    cards@ == deck0.take(52 - start - j as int),
                    cards@.to_multiset().add(piles_multiset(tableau.pviews()))
                        == deck0.to_multiset(),
                    forall|p: int| 0 <= p < i ==> (#[trigger] tableau.pviews()[p]).len() == p + 1,
                    forall|p: int, m: int|
                        0 <= p < i && 0 <= m <= p ==> (#[trigger] tableau.pviews()[p][m]).card
                            == deck0[51 - pile_deal_start(p) - m] && !tableau.pviews()[p][m].spec_is_visible(),
                    tableau.pviews()[i as int].len() == j,
                    forall|m: int|
                        0 <= m < j ==> (#[trigger] tableau.pviews()[i as int][m]).card == deck0[51
                            - start - m] && !tableau.pviews()[i as int][m].spec_is_visible(),
                    forall|p: int| i < p < 7 ==> (#[trigger] tableau.pviews()[p]).len() == 0,
                decreases i + 1 - j,
            {
                let ghost cards0 = cards@;
                let ghost pv0 = tableau.pviews();
                let card = cards.pop().unwrap();
                tableau.add_card(i, card);
                j += 1;
                proof {
                    broadcast use vstd::multiset::group_multiset_axioms;

                    assert(cards@ =~= deck0.take(52 - start - j as int));
                    let np = tableau.pviews()[i as int];
                    assert(cards0 =~= cards@.push(card));
                    vstd::seq_lib::to_multiset_build(cards@, card);
                    assert(pile_cards(np) =~= pile_cards(pv0[i as int]).push(card));
                    vstd::seq_lib::to_multiset_build(pile_cards(pv0[i as int]), card);
                    lemma_piles_multiset_update(pv0, i as int, np);
                    assert(tableau.pviews() =~= pv0.update(i as int, np));
                    assert_multisets_equal!(
                        cards@.to_multiset().add(piles_multiset(tableau.pviews())),
                        deck0.to_multiset(),
                        c => {
                            assert(cards0.to_multiset().count(c) == cards@.to_multiset().insert(
                                card,
                            ).count(c));
                            assert(pile_cards(np).to_multiset().count(c) == pile_cards(
                                pv0[i as int],
                            ).to_multiset().insert(card).count(c));
                            assert(piles_multiset(pv0.update(i as int, np)).add(
                                pile_cards(pv0[i as int]).to_multiset(),
                            ).count(c) == piles_multiset(pv0.update(i as int, np)).count(c)
                                + pile_cards(pv0[i as int]).to_multiset().count(c));
                            assert(piles_multiset(pv0).add(pile_cards(np).to_multiset()).count(c)
                                == piles_multiset(pv0).count(c) + pile_cards(
                                np,
                            ).to_multiset().count(c));
                            assert(cards0.to_multiset().add(piles_multiset(pv0)).count(c)
                                == cards0.to_multiset().count(c) + piles_multiset(pv0).count(c));
                        }
                    );
                }
            }
            i += 1;
        }
        let ghost dealt = tableau.pviews();
        tableau.flip_all();
        let mut foundations: Vec<Foundation> = Vec::new();
        foundations.push(Foundation::new(Suit::Heart));
        foundations.push(Foundation::new(Suit::Diamond));
        foundations.push(Foundation::new(Suit::Spade));
        foundations.push(Foundation::new(Suit::Club));
        let stock = Stock::new(cards);
        let waste = Waste::new();
        let g = Game { foundations, stock, waste, tableau, turn: 0 };
        proof {
            broadcast use vstd::multiset::group_multiset_axioms;

            lemma_seq_total7(g.tableau.pviews());
            lemma_seq_total4(g.fviews());
            assert(g.stock.cards@ =~= deck0.take(24));
            assert forall|p2: int|
                0 <= p2 < 7 implies pile_cards(#[trigger] g.tableau.pviews()[p2]) == pile_cards(
                dealt[p2],
            ) by {
                assert(g.tableau.pviews()[p2] == flip_top_seq(dealt[p2]));
                assert(pile_cards(flip_top_seq(dealt[p2])) =~= pile_cards(dealt[p2]));
            }
            lemma_piles_multiset_congruence(g.tableau.pviews(), dealt);
            lemma_runs_multiset_empty(g.fviews());
            lemma_to_multiset_of_empty(g.waste.cards@);
            assert_multisets_equal!(
                g.all_cards(),
                deck0.to_multiset(),
                c => {
                    assert(g.stock.cards@.to_multiset().add(piles_multiset(dealt)).count(c)
                        == deck0.to_multiset().count(c));
                    assert(g.stock.cards@.to_multiset().add(piles_multiset(dealt)).count(c)
                        == g.stock.cards@.to_multiset().count(c) + piles_multiset(dealt).count(c));
                }
            );
            assert forall|p: int| 0 <= p < 7 implies pile_wf(
                #[trigger] g.tableau.pviews()[p],
            ) by {
                let s = g.tableau.pviews()[p];
                assert(s == flip_top_seq(dealt[p]));
                assert forall|i: int|
                    0 <= i < s.len() - 1 implies !(#[trigger] s[i]).spec_is_visible() by {
                    assert(s[i] == dealt[p][i]);
                }
                lemma_top_only_wf(s);
            }
        }
        g
    }

    /// Deals a fresh game from a uniformly shuffled deck: 28 cards across
    /// the seven piles with only each pile's top card face-up, 24 cards
    /// in the stock, waste and foundations empty, turn zero.
    pub fn new() -> (g: Game)
        ensures
            g.wf(),
            g.all_cards() == full_deck_seq().to_multiset(),
            g.turn == 0,
            g.stock.cards@.len() == 24,
            g.waste.cards@.len() == 0,
            forall|k: int| 0 <= k < 4 ==> (#[trigger] g.foundations@[k]).cards@.len() == 0,
            forall|i: int| 0 <= i < 7 ==> (#[trigger] g.tableau.pviews()[i]).len() == i + 1,
            forall|i: int, j: int|
                0 <= i < 7 && 0 <= j <= i ==> (#[trigger] g.tableau.pviews()[i][j]).spec_is_visible()
                    == (j == i),
    {
        let mut cards = full_deck();
        shuffle_cards(&mut cards);
        Game::with_deck(cards)
    }

    /// The game is won exactly when all four foundations are full.
    pub open spec fn spec_victory(self) -> bool {
        &&& self.foundations@[HEART_FD as int].spec_is_full()
        &&& self.foundations@[DIAMOND_FD as int].spec_is_full()
        &&& self.foundations@[SPADE_FD as int].spec_is_full()
        &&& self.foundations@[CLUB_FD as int].spec_is_full()
    }

    pub fn victory(&self) -> (r: bool)
        requires
            self.foundations@.len() == 4,
        ensures
            r == self.spec_victory(),
    {
        self.foundations[HEART_FD as usize].is_full() && self.foundations[DIAMOND_FD
            as usize].is_full() && self.foundations[SPADE_FD as usize].is_full()
            && self.foundations[CLUB_FD as usize].is_full()
    }

    /// Draws one card from the stock onto the waste, first flipping the
    /// waste back over when the stock is out; fails only when both are
    /// empty, in which case nothing changes.
    pub fn draw_from_stock(&mut self) -> (r: bool)
        requires
            old(self).wf(),
            old(self).turn < 65535,
        ensures
            final(self).wf(),
            final(self).all_cards() == old(self).all_cards(),
            r == !(old(self).stock.cards@.len() == 0 && old(self).waste.cards@.len() == 0),
            !r ==> Self::same_state(*old(self), *final(self)),
            old(self).stock.cards@.len() > 0 ==> ({
                &&& final(self).stock.cards@ == old(self).stock.cards@.drop_last()
                &&& final(self).waste.cards@ == old(self).waste.cards@.push(
                    old(self).stock.cards@.last(),
                )
                &&& final(self).turn == old(self).turn + 1
                &&& final(self).foundations@ == old(self).foundations@
                &&& final(self).tableau == old(self).tableau
            }),
            old(self).stock.cards@.len() == 0 && old(self).waste.cards@.len() > 0 ==> ({
                &&& final(self).stock.cards@ == old(self).waste.cards@.reverse().drop_last()
                &&& final(self).waste.cards@ == seq![old(self).waste.cards@[0]]
                &&& final(self).turn == old(self).turn + 1
                &&& final(self).foundations@ == old(self).foundations@
                &&& final(self).tableau == old(self).tableau
            }),
    {
        if self.stock.is_empty() {
            self.stock.refresh(self.waste.get_all());
            self.waste.clear();
        }
        let opt = self.stock.take(1);
        match opt {
            Some(taken) => {
                proof {
                    if old(self).stock.cards@.len() == 0 {
                        assert(self.stock.cards@ =~= old(self).waste.cards@.reverse().drop_last());
                    } else {
                        assert(self.stock.cards@ =~= old(self).stock.cards@.drop_last());
                    }
                }
                self.waste.put(taken);
                self.turn = self.turn + 1;
                proof {
                    broadcast use vstd::multiset::group_multiset_axioms;

                    if old(self).stock.cards@.len() == 0 {
                        assert(self.waste.cards@ =~= seq![old(self).waste.cards@[0]]);
                        let w = old(self).waste.cards@;
                        w.lemma_reverse_to_multiset();
                        lemma_pop_multiset(w.reverse());
                        assert(w.reverse().last() == w[0]);
                        assert(seq![w[0]] =~= Seq::<Card>::empty().push(w[0]));
                        vstd::seq_lib::to_multiset_build(Seq::<Card>::empty(), w[0]);
                        lemma_to_multiset_of_empty(Seq::<Card>::empty());
                        lemma_to_multiset_of_empty(old(self).stock.cards@);
                        assert_multisets_equal!(
                            self.all_cards(),
                            old(self).all_cards(),
                            c => {
                                assert(w.reverse().to_multiset().count(c)
                                    == self.stock.cards@.to_multiset().insert(w[0]).count(c));
                                assert(self.waste.cards@.to_multiset().count(c)
                                    == Seq::<Card>::empty().to_multiset().insert(w[0]).count(c));
                            }
                        );
                    } else {
                        assert(self.waste.cards@ =~= old(self).waste.cards@.push(
                            old(self).stock.cards@.last(),
                        ));
                        lemma_pop_multiset(old(self).stock.cards@);
                        vstd::seq_lib::to_multiset_build(
                            old(self).waste.cards@,
                            old(self).stock.cards@.last(),
                        );
                        assert_multisets_equal!(
                            self.all_cards(),
                            old(self).all_cards(),
                            c => {
                                assert(old(self).stock.cards@.to_multiset().count(c)
                                    == self.stock.cards@.to_multiset().insert(
                                    old(self).stock.cards@.last(),
                                ).count(c));
                                assert(self.waste.cards@.to_multiset().count(c)
                                    == old(self).waste.cards@.to_multiset().insert(
                                    old(self).stock.cards@.last(),
                                ).count(c));
                            }
                        );
                    }
                }
                true
            }
            None => {
                proof {
                    assert(self.stock.cards@ =~= old(self).stock.cards@);
                    assert(self.waste.cards@ =~= old(self).waste.cards@);
                }
                false
            }
        }
    }

    /// Moves the waste's top card to the first foundation that accepts
    /// it, in the fixed hearts-diamonds-spades-clubs order; fails without
    /// change when the waste is empty or no foundation accepts.
    pub fn waste_to_foundation(&mut self) -> (r: bool)
        requires
            old(self).wf(),
            old(self).turn < 65535,
        ensures
            final(self).wf(),
            final(self).all_cards() == old(self).all_cards(),
            !r ==> Self::same_state(*old(self), *final(self)),
            match old(self).waste.spec_top() {
                None => !r,
                Some(t) => match first_accepting(old(self).foundations@, t) {
                    None => !r,
                    Some(k) => r && ({
                        &&& final(self).foundations@.len() == 4
                        &&& forall|m: int|
                            0 <= m < 4 && m != k ==> final(self).foundations@[m] == old(self).foundations@[m]
                        &&& final(self).foundations@[k].suit == old(self).foundations@[k].suit
                        &&& final(self).foundations@[k].cards@ == old(self).foundations@[k].cards@.push(t)
                        &&& final(self).waste.cards@ == old(self).waste.cards@.drop_last()
                        &&& final(self).stock == old(self).stock
                        &&& final(self).tableau == old(self).tableau
                        &&& final(self).turn == old(self).turn + 1
                    }),
                },
            },
    {
        let opt = self.waste.get_top();
        match opt {
            Some(top_card) => {
                let mut k: usize = 0;
                while k < 4
                    invariant
                        old(self).wf(),
                        old(self).turn < 65535,
                        *self == *old(self),
                        k <= 4,
                        Some(top_card) == old(self).waste.spec_top(),
                        forall|m: int|
                            0 <= m < k ==> !(#[trigger] old(self).foundations@[m]).spec_can_add(
                                top_card,
                            ),
                    decreases 4 - k,
                {
                    if self.foundations[k].can_add(&top_card) {
                        let pop_opt = self.waste.take();
                        if let Some(pop) = pop_opt {
                            self.foundations[k].add(pop);
                            self.turn = self.turn + 1;
                            proof {
                                lemma_first_accepting_found(
                                    old(self).foundations@,
                                    top_card,
                                    0,
                                    k as int,
                                );
                                lemma_seq_total_update(
                                    old(self).fviews(),
                                    k as int,
                                    self.foundations@[k as int].cards@,
                                );
                                assert(self.fviews() =~= old(self).fviews().update(
                                    k as int,
                                    self.foundations@[k as int].cards@,
                                ));
                                broadcast use vstd::multiset::group_multiset_axioms;

                                lemma_pop_multiset(old(self).waste.cards@);
                                vstd::seq_lib::to_multiset_build(
                                    old(self).fviews()[k as int],
                                    top_card,
                                );
                                lemma_runs_multiset_update(
                                    old(self).fviews(),
                                    k as int,
                                    self.foundations@[k as int].cards@,
                                );
                                assert(self.foundations@[k as int].cards@ =~= old(
                                    self,
                                ).fviews()[k as int].push(top_card));
                                assert_multisets_equal!(
                                    self.all_cards(),
                                    old(self).all_cards(),
                                    c => {
                                        assert(runs_multiset(old(self).fviews().update(
                                            k as int,
                                            self.foundations@[k as int].cards@,
                                        )).add(old(self).fviews()[k as int].to_multiset()).count(c)
                                            == runs_multiset(old(self).fviews().update(
                                            k as int,
                                            self.foundations@[k as int].cards@,
                                        )).count(c) + old(
                                            self,
                                        ).fviews()[k as int].to_multiset().count(c));
                                        assert(runs_multiset(old(self).fviews()).add(
                                            self.foundations@[k as int].cards@.to_multiset(),
                                        ).count(c) == runs_multiset(old(self).fviews()).count(c)
                                            + self.foundations@[k as int].cards@.to_multiset().count(c));
                                        assert(self.foundations@[k as int].cards@.to_multiset().count(c)
                                            == old(self).fviews()[k as int].to_multiset().insert(
                                            top_card,
                                        ).count(c));
                                        assert(old(self).waste.cards@.to_multiset().count(c)
                                            == self.waste.cards@.to_multiset().insert(
                                            top_card,
                                        ).count(c));
                                    }
                                );
                            }
                            return true;
                        }
                    }
                    k += 1;
                }
                proof {
                    lemma_first_accepting_none(old(self).foundations@, top_card, 0);
                }
                false
            }
            None => false,
        }
    }

    /// Moves the waste's top card onto tableau pile `pile_num` (numbered
    /// 1 to 7) when that pile accepts it; fails without change otherwise.
    pub fn waste_to_pile(&mut self, pile_num: u8) -> (r: bool)
        requires
            old(self).wf(),
            old(self).turn < 65535,
            1 <= pile_num <= 7,
        ensures
            final(self).wf(),
            final(self).all_cards() == old(self).all_cards(),
            !r ==> Self::same_state(*old(self), *final(self)),
            match old(self).waste.spec_top() {
                None => !r,
                Some(t) => {
                    let p = pile_num - 1;
                    if old(self).tableau.piles@[p].spec_can_add(t) {
                        r && ({
                            &&& final(self).waste.cards@ == old(self).waste.cards@.drop_last()
                            &&& final(self).tableau.pviews() == old(self).tableau.pviews().update(
                                p,
                                old(self).tableau.pviews()[p].push(
                                    (CardState { card: t, face_up: true }),
                                ),
                            )
                            &&& final(self).stock == old(self).stock
                            &&& final(self).foundations@ == old(self).foundations@
                            &&& final(self).turn == old(self).turn + 1
                        })
                    } else {
                        !r
                    }
                },
            },
    {
        let pile_idx = (pile_num - 1) as usize;
        let opt = self.waste.get_top();
        if let Some(top_card) = opt {
            let can = self.tableau.piles[pile_idx].can_add(&top_card);
            if can {
                if let Some(popped_card) = self.waste.take() {
                    self.tableau.piles[pile_idx].add_card(popped_card);
                    self.turn = self.turn + 1;
                    proof {
                        lemma_seq_total_update(
                            old(self).tableau.pviews(),
                            pile_idx as int,
                            self.tableau.pviews()[pile_idx as int],
                        );
                        assert(self.tableau.pviews() =~= old(self).tableau.pviews().update(
                            pile_idx as int,
                            old(self).tableau.pviews()[pile_idx as int].push(
                                (CardState { card: top_card, face_up: true }),
                            ),
                        ));
                        lemma_push_wf(old(self).tableau.pviews()[pile_idx as int], top_card);
                        assert forall|p: int|
                            0 <= p < 7 implies pile_wf(
                            #[trigger] self.tableau.pviews()[p],
                        ) by {
                            if p != pile_idx as int {
                                assert(self.tableau.pviews()[p] == old(self).tableau.pviews()[p]);
                            }
                        }
                        broadcast use vstd::multiset::group_multiset_axioms;

                        let op = old(self).tableau.pviews()[pile_idx as int];
                        let np = self.tableau.pviews()[pile_idx as int];
                        lemma_pop_multiset(old(self).waste.cards@);
                        assert(pile_cards(np) =~= pile_cards(op).push(top_card));
                        vstd::seq_lib::to_multiset_build(pile_cards(op), top_card);
                        lemma_piles_multiset_update(
                            old(self).tableau.pviews(),
                            pile_idx as int,
                            np,
                        );
                        assert_multisets_equal!(
                            self.all_cards(),
                            old(self).all_cards(),
                            c => {
                                assert(piles_multiset(old(self).tableau.pviews().update(
                                    pile_idx as int,
                                    np,
                                )).add(pile_cards(op).to_multiset()).count(c)
                                    == piles_multiset(old(self).tableau.pviews().update(
                                    pile_idx as int,
                                    np,
                                )).count(c) + pile_cards(op).to_multiset().count(c));
                                assert(piles_multiset(old(self).tableau.pviews()).add(
                                    pile_cards(np).to_multiset(),
                                ).count(c) == piles_multiset(old(self).tableau.pviews()).count(c)
                                    + pile_cards(np).to_multiset().count(c));
                                assert(pile_cards(np).to_multiset().count(c) == pile_cards(
                                    op,
                                ).to_multiset().insert(top_card).count(c));
                                assert(old(self).waste.cards@.to_multiset().count(c)
                                    == self.waste.cards@.to_multiset().insert(top_card).count(c));
                            }
                        );
                    }
                    return true;
                }
            }
        }
        false
    }

    /// Moves the top card of foundation `foundation_index` onto tableau
    /// pile `pile_index` (numbered 1 to 7) when that pile accepts it;
    /// fails without change otherwise.
    pub fn foundation_to_pile(&mut self, foundation_index: u8, pile_index: u8) -> (r: bool)
        requires
            old(self).wf(),
            old(self).turn < 65535,
            foundation_index < 4,
            1 <= pile_index <= 7,
        ensures
            final(self).wf(),
            final(self).all_cards() == old(self).all_cards(),
            !r ==> Self::same_state(*old(self), *final(self)),
            match old(self).foundations@[foundation_index as int].spec_top() {
                None => !r,
                Some(t) => {
                    let p = pile_index - 1;
                    if old(self).tableau.piles@[p].spec_can_add(t) {
                        r && ({
                            &&& final(self).foundations@.len() == 4
                            &&& forall|m: int|
                                0 <= m < 4 && m != foundation_index as int ==> final(self).foundations@[m] == old(self).foundations@[m]
                            &&& final(self).foundations@[foundation_index as int].suit == old(self).foundations@[foundation_index as int].suit
                            &&& final(self).foundations@[foundation_index as int].cards@ == old(self).foundations@[foundation_index as int].cards@.drop_last()
                            &&& final(self).tableau.pviews() == old(self).tableau.pviews().update(
                                p,
                                old(self).tableau.pviews()[p].push(
                                    (CardState { card: t, face_up: true }),
                                ),
                            )
                            &&& final(self).stock == old(self).stock
                            &&& final(self).waste.cards@ == old(self).waste.cards@
                            &&& final(self).turn == old(self).turn + 1
                        })
                    } else {
                        !r
                    }
                },
            },
    {
        let pile_idx = (pile_index - 1) as usize;
        let opt = self.foundations[foundation_index as usize].get_top();
        if let Some(top_card) = opt {
            let can = self.tableau.piles[pile_idx].can_add(&top_card);
            if can {
                if let Some(popped_card) = self.foundations[foundation_index as usize].take() {
                    self.tableau.piles[pile_idx].add_card(popped_card);
                    self.turn = self.turn + 1;
                    proof {
                        lemma_seq_total_update(
                            old(self).fviews(),
                            foundation_index as int,
                            self.foundations@[foundation_index as int].cards@,
                        );
                        assert(self.fviews() =~= old(self).fviews().update(
                            foundation_index as int,
                            self.foundations@[foundation_index as int].cards@,
                        ));
                        lemma_seq_total_update(
                            old(self).tableau.pviews(),
                            pile_idx as int,
                            self.tableau.pviews()[pile_idx as int],
                        );
                        assert(self.tableau.pviews() =~= old(self).tableau.pviews().update(
                            pile_idx as int,
                            old(self).tableau.pviews()[pile_idx as int].push(
                                (CardState { card: top_card, face_up: true }),
                            ),
                        ));
                        lemma_push_wf(old(self).tableau.pviews()[pile_idx as int], top_card);
                        assert forall|p: int|
                            0 <= p < 7 implies pile_wf(
                            #[trigger] self.tableau.pviews()[p],
                        ) by {
                            if p != pile_idx as int {
                                assert(self.tableau.pviews()[p] == old(self).tableau.pviews()[p]);
                            }
                        }
                        broadcast use vstd::multiset::group_multiset_axioms;

                        let fi = foundation_index as int;
                        let op = old(self).tableau.pviews()[pile_idx as int];
                        let np = self.tableau.pviews()[pile_idx as int];
                        lemma_pop_multiset(old(self).fviews()[fi]);
                        lemma_runs_multiset_update(
                            old(self).fviews(),
                            fi,
                            self.foundations@[fi].cards@,
                        );
                        assert(pile_cards(np) =~= pile_cards(op).push(top_card));
                        vstd::seq_lib::to_multiset_build(pile_cards(op), top_card);
                        lemma_piles_multiset_update(
                            old(self).tableau.pviews(),
                            pile_idx as int,
                            np,
                        );
                        assert_multisets_equal!(
                            self.all_cards(),
                            old(self).all_cards(),
                            c => {
                                assert(runs_multiset(old(self).fviews().update(
                                    fi,
                                    self.foundations@[fi].cards@,
                                )).add(old(self).fviews()[fi].to_multiset()).count(c)
                                    == runs_multiset(old(self).fviews().update(
                                    fi,
                                    self.foundations@[fi].cards@,
                                )).count(c) + old(self).fviews()[fi].to_multiset().count(c));
                                assert(runs_multiset(old(self).fviews()).add(
                                    self.foundations@[fi].cards@.to_multiset(),
                                ).count(c) == runs_multiset(old(self).fviews()).count(c)
                                    + self.foundations@[fi].cards@.to_multiset().count(c));
                                assert(old(self).fviews()[fi].to_multiset().count(c)
                                    == self.foundations@[fi].cards@.to_multiset().insert(
                                    top_card,
                                ).count(c));
                                assert(piles_multiset(old(self).tableau.pviews().update(
                                    pile_idx as int,
                                    np,
                                )).add(pile_cards(op).to_multiset()).count(c)
                                    == piles_multiset(old(self).tableau.pviews().update(
                                    pile_idx as int,
                                    np,
                                )).count(c) + pile_cards(op).to_multiset().count(c));
                                assert(piles_multiset(old(self).tableau.pviews()).add(
                                    pile_cards(np).to_multiset(),
                                ).count(c) == piles_multiset(old(self).tableau.pviews()).count(c)
                                    + pile_cards(np).to_multiset().count(c));
                                assert(pile_cards(np).to_multiset().count(c) == pile_cards(
                                    op,
                                ).to_multiset().insert(top_card).count(c));
                            }
                        );
                    }
                    return true;
                }
            }
        }
        false
    }

    /// Moves the top card of tableau pile `pile_num` (numbered 1 to 7) to
    /// the first foundation that accepts it, in the fixed order; fails
    /// without change when the pile's top is unavailable or refused.
    pub fn pile_to_foundation(&mut self, pile_num: u8) -> (r: bool)
        requires
            old(self).wf(),
            old(self).turn < 65535,
            1 <= pile_num <= 7,
        ensures
            final(self).wf(),
            final(self).all_cards() == old(self).all_cards(),
            !r ==> Self::same_state(*old(self), *final(self)),
            match old(self).tableau.piles@[pile_num - 1].spec_top() {
                None => !r,
                Some(t) => match first_accepting(old(self).foundations@, t) {
                    None => !r,
                    Some(k) => r && ({
                        let p = pile_num - 1;
                        &&& final(self).foundations@.len() == 4
                        &&& forall|m: int|
                            0 <= m < 4 && m != k ==> final(self).foundations@[m] == old(self).foundations@[m]
                        &&& final(self).foundations@[k].suit == old(self).foundations@[k].suit
                        &&& final(self).foundations@[k].cards@ == old(self).foundations@[k].cards@.push(t)
                        &&& final(self).tableau.pviews() == old(self).tableau.pviews().update(
                            p,
                            flip_top_seq(old(self).tableau.pviews()[p].drop_last()),
                        )
                        &&& final(self).stock == old(self).stock
                        &&& final(self).waste.cards@ == old(self).waste.cards@
                        &&& final(self).turn == old(self).turn + 1
                    }),
                },
            },
    {
        let pile_idx = pile_num - 1;
        let opt = self.tableau.get_top(pile_idx);
        match opt {
            Some(top_card) => {
                let mut k: usize = 0;
                while k < 4
                    invariant
                        old(self).wf(),
                        old(self).turn < 65535,
                        *self == *old(self),
                        k <= 4,
                        1 <= pile_num <= 7,
                        pile_idx == pile_num - 1,
                        Some(top_card) == old(self).tableau.piles@[pile_num - 1].spec_top(),
                        forall|m: int|
                            0 <= m < k ==> !(#[trigger] old(self).foundations@[m]).spec_can_add(
                                top_card,
                            ),
                    decreases 4 - k,
                {
                    if self.foundations[k].can_add(&top_card) {
                        if let Some(pop) = self.tableau.take(pile_idx) {
                            self.foundations[k].add(pop);
                            self.turn = self.turn + 1;
                            proof {
                                lemma_first_accepting_found(
                                    old(self).foundations@,
                                    top_card,
                                    0,
                                    k as int,
                                );
                                lemma_seq_total_update(
                                    old(self).fviews(),
                                    k as int,
                                    self.foundations@[k as int].cards@,
                                );
                                assert(self.fviews() =~= old(self).fviews().update(
                                    k as int,
                                    self.foundations@[k as int].cards@,
                                ));
                                lemma_seq_total_update(
                                    old(self).tableau.pviews(),
                                    pile_idx as int,
                                    self.tableau.pviews()[pile_idx as int],
                                );
                                assert(self.tableau.pviews() =~= old(self).tableau.pviews().update(
                                    pile_idx as int,
                                    flip_top_seq(
                                        old(self).tableau.pviews()[pile_idx as int].drop_last(),
                                    ),
                                ));
                                let sp = old(self).tableau.pviews()[pile_idx as int];
                                lemma_rest_wf(sp, sp.len() - 1);
                                assert(sp.take(sp.len() - 1) =~= sp.drop_last());
                                assert forall|p: int|
                                    0 <= p < 7 implies pile_wf(
                                    #[trigger] self.tableau.pviews()[p],
                                ) by {
                                    if p != pile_idx as int {
                                        assert(self.tableau.pviews()[p] == old(
                                            self,
                                        ).tableau.pviews()[p]);
                                    }
                                }
                                broadcast use vstd::multiset::group_multiset_axioms;

                                let np = self.tableau.pviews()[pile_idx as int];
                                assert(pile_cards(np) =~= pile_cards(sp.drop_last()));
                                assert(pile_cards(sp) =~= pile_cards(sp.drop_last()).push(
                                    top_card,
                                ));
                                vstd::seq_lib::to_multiset_build(
                                    pile_cards(sp.drop_last()),
                                    top_card,
                                );
                                lemma_piles_multiset_update(
                                    old(self).tableau.pviews(),
                                    pile_idx as int,
                                    np,
                                );
                                vstd::seq_lib::to_multiset_build(
                                    old(self).fviews()[k as int],
                                    top_card,
                                );
                                lemma_runs_multiset_update(
                                    old(self).fviews(),
                                    k as int,
                                    self.foundations@[k as int].cards@,
                                );
                                assert(self.foundations@[k as int].cards@ =~= old(
                                    self,
                                ).fviews()[k as int].push(top_card));
                                assert_multisets_equal!(
                                    self.all_cards(),
                                    old(self).all_cards(),
                                    c => {
                                        assert(piles_multiset(old(self).tableau.pviews().update(
                                            pile_idx as int,
                                            np,
                                        )).add(pile_cards(sp).to_multiset()).count(c)
                                            == piles_multiset(old(self).tableau.pviews().update(
                                            pile_idx as int,
                                            np,
                                        )).count(c) + pile_cards(sp).to_multiset().count(c));
                                        assert(piles_multiset(old(self).tableau.pviews()).add(
                                            pile_cards(np).to_multiset(),
                                        ).count(c) == piles_multiset(
                                            old(self).tableau.pviews(),
                                        ).count(c) + pile_cards(np).to_multiset().count(c));
                                        assert(pile_cards(sp).to_multiset().count(c)
                                            == pile_cards(sp.drop_last()).to_multiset().insert(
                                            top_card,
                                        ).count(c));
                                        assert(runs_multiset(old(self).fviews().update(
                                            k as int,
                                            self.foundations@[k as int].cards@,
                                        )).add(old(self).fviews()[k as int].to_multiset()).count(c)
                                            == runs_multiset(old(self).fviews().update(
                                            k as int,
                                            self.foundations@[k as int].cards@,
                                        )).count(c) + old(
                                            self,
                                        ).fviews()[k as int].to_multiset().count(c));
                                        assert(runs_multiset(old(self).fviews()).add(
                                            self.foundations@[k as int].cards@.to_multiset(),
                                        ).count(c) == runs_multiset(old(self).fviews()).count(c)
                                            + self.foundations@[k as int].cards@.to_multiset().count(c));
                                        assert(self.foundations@[k as int].cards@.to_multiset().count(c)
                                            == old(self).fviews()[k as int].to_multiset().insert(
                                            top_card,
                                        ).count(c));
                                    }
                                );
                            }
                            return true;
                        }
                    }
                    k += 1;
                }
                proof {
                    lemma_first_accepting_none(old(self).foundations@, top_card, 0);
                }
                false
            }
            None => false,
        }
    }

    /// Moves a run from pile `src_pile_num` to pile `dest_pile_num` (both
    /// numbered 1 to 7) by the tableau's cut rules. An invalid move never
    /// mutates: on failure every container and the turn counter are left
    /// exactly as they were.
    pub fn pile_to_pile(&mut self, src_pile_num: u8, dest_pile_num: u8) -> (r: bool)
        requires
            old(self).wf(),
            old(self).turn < 65535,
            1 <= src_pile_num <= 7,
            1 <= dest_pile_num <= 7,
        ensures
            final(self).wf(),
            final(self).all_cards() == old(self).all_cards(),
            match spec_do_move(
                old(self).tableau.pviews(),
                src_pile_num - 1,
                dest_pile_num - 1,
            ) {
                None => !r && Self::same_state(*old(self), *final(self)),
                Some(ps) => r && ({
                    &&& final(self).tableau.pviews() == ps
                    &&& final(self).stock == old(self).stock
                    &&& final(self).waste.cards@ == old(self).waste.cards@
                    &&& final(self).foundations@ == old(self).foundations@
                    &&& final(self).turn == old(self).turn + 1
                }),
            },
    {
        let src_idx = src_pile_num - 1;
        let dest_idx = dest_pile_num - 1;
        let moved = self.tableau.do_move(src_idx, dest_idx);
        match moved {
            Ok(_) => {
                self.turn = self.turn + 1;
                proof {
                    let ps0 = old(self).tableau.pviews();
                    let src = src_idx as int;
                    let dest = dest_idx as int;
                    if src == dest {
                        // A well-formed pile never yields a cut onto itself,
                        // so a successful move has two distinct piles.
                        if ps0[dest].len() > 0 && ps0[dest].last().spec_is_visible() {
                            lemma_no_self_cut(ps0[dest]);
                        }
                        assert(false);
                    }
                    let j = if ps0[dest].len() == 0 {
                        lemma_cut_index(ps0[src], king_pred());
                        king_cut_index(ps0[src])->Some_0
                    } else {
                        lemma_cut_index(ps0[src], pile_pred(ps0[dest].last().card));
                        pile_cut_index(ps0[src], ps0[dest].last().card)->Some_0
                    };
                    lemma_apply_cut_total(ps0, src, dest, j);
                    let seg = ps0[src].subrange(j, ps0[src].len() as int);
                    lemma_rest_wf(ps0[src], j);
                    lemma_subrange_wf(ps0[src], j);
                    lemma_append_wf(ps0[dest], seg);
                    assert forall|p: int|
                        0 <= p < 7 implies pile_wf(#[trigger] self.tableau.pviews()[p]) by {
                        if p == src {
                            assert(self.tableau.pviews()[p] == flip_top_seq(ps0[src].take(j)));
                        } else if p == dest {
                            assert(self.tableau.pviews()[p] == ps0[dest] + seg);
                        } else {
                            assert(self.tableau.pviews()[p] == ps0[p]);
                        }
                    }
                    broadcast use vstd::multiset::group_multiset_axioms;

                    let rest = flip_top_seq(ps0[src].take(j));
                    let mid = ps0.update(src, rest);
                    assert(ps0[src] =~= ps0[src].take(j) + seg);
                    assert(pile_cards(ps0[src].take(j) + seg) =~= pile_cards(ps0[src].take(j))
                        + pile_cards(seg));
                    vstd::seq_lib::lemma_multiset_commutative(
                        pile_cards(ps0[src].take(j)),
                        pile_cards(seg),
                    );
                    assert(pile_cards(rest) =~= pile_cards(ps0[src].take(j)));
                    assert(mid[dest] == ps0[dest]);
                    assert(pile_cards(ps0[dest] + seg) =~= pile_cards(ps0[dest])
                        + pile_cards(seg));
                    vstd::seq_lib::lemma_multiset_commutative(
                        pile_cards(ps0[dest]),
                        pile_cards(seg),
                    );
                    lemma_piles_multiset_update(ps0, src, rest);
                    lemma_piles_multiset_update(mid, dest, mid[dest] + seg);
                    assert(self.tableau.pviews() == mid.update(dest, mid[dest] + seg));
                    assert_multisets_equal!(
                        self.all_cards(),
                        old(self).all_cards(),
                        c => {
                            assert(piles_multiset(ps0.update(src, rest)).add(
                                pile_cards(ps0[src]).to_multiset(),
                            ).count(c) == piles_multiset(ps0.update(src, rest)).count(c)
                                + pile_cards(ps0[src]).to_multiset().count(c));
                            assert(piles_multiset(ps0).add(pile_cards(rest).to_multiset()).count(c)
                                == piles_multiset(ps0).count(c) + pile_cards(
                                rest,
                            ).to_multiset().count(c));
                            assert(piles_multiset(mid.update(dest, mid[dest] + seg)).add(
                                pile_cards(mid[dest]).to_multiset(),
                            ).count(c) == piles_multiset(mid.update(dest, mid[dest] + seg)).count(c)
                                + pile_cards(mid[dest]).to_multiset().count(c));
                            assert(piles_multiset(mid).add(
                                pile_cards(mid[dest] + seg).to_multiset(),
                            ).count(c) == piles_multiset(mid).count(c) + pile_cards(
                                mid[dest] + seg,
                            ).to_multiset().count(c));
                            assert(pile_cards(ps0[src].take(j)).to_multiset().add(
                                pile_cards(seg).to_multiset(),
                            ).count(c) == pile_cards(ps0[src].take(j)).to_multiset().count(c)
                                + pile_cards(seg).to_multiset().count(c));
                            assert(pile_cards(ps0[dest]).to_multiset().add(
                                pile_cards(seg).to_multiset(),
                            ).count(c) == pile_cards(ps0[dest]).to_multiset().count(c)
                                + pile_cards(seg).to_multiset().count(c));
                        }
                    );
                }
                true
            }
            Err(_) => false,
        }
    }

    /// The rendering of the whole table: a separator, the status line,
    /// the command legend, the stock, waste and foundations, then the
    /// tableau.
    pub open spec fn spec_display(self) -> Seq<char> {
        "-----------------------------------------------------\n"@ + "Turn: "@ + spec_decimal(
            self.turn as int,
        ) + "   Stock: "@ + spec_decimal(self.stock.cards@.len() as int) + "   Waste: "@
            + spec_decimal(self.waste.cards@.len() as int) + "\n"@
            + "    n      k            h      d      s      c\n"@ + "  "@
            + self.stock.spec_display() + "  "@ + self.waste.spec_display() + "        "@
            + self.foundations@[HEART_FD as int].spec_display() + "  "@
            + self.foundations@[DIAMOND_FD as int].spec_display() + "  "@
            + self.foundations@[SPADE_FD as int].spec_display() + "  "@
            + self.foundations@[CLUB_FD as int].spec_display() + "\n"@ + "\n"@
            + self.tableau.spec_display()
    }

    pub fn display(&self) -> (s: String)
        requires
            self.wf(),
        ensures
            s@ == self.spec_display(),
    {
        proof {
            assert forall|i: int| 0 <= i < 7 implies self.tableau.pviews()[i].len() <= 255 by {
                lemma_seq_total_elem(self.tableau.pviews(), i);
                lemma_seq_total_nonneg(self.fviews());
            }
        }
        let mut s = String::from_str("-----------------------------------------------------\n");
        s.append("Turn: ");
        push_decimal(&mut s, self.turn as u64);
        s.append("   Stock: ");
        push_decimal(&mut s, self.stock.size() as u64);
        s.append("   Waste: ");
        push_decimal(&mut s, self.waste.size() as u64);
        s.append("\n");
        s.append("    n      k            h      d      s      c\n");
        s.append("  ");
        let d_stock = self.stock.display();
        s.append(d_stock.as_str());
        s.append("  ");
        let d_waste = self.waste.display();
        s.append(d_waste.as_str());
        s.append("        ");
        let d_f0 = self.foundations[HEART_FD as usize].display();
        s.append(d_f0.as_str());
        s.append("  ");
        let d_f1 = self.foundations[DIAMOND_FD as usize].display();
        s.append(d_f1.as_str());
        s.append("  ");
        let d_f2 = self.foundations[SPADE_FD as usize].display();
        s.append(d_f2.as_str());
        s.append("  ");
        let d_f3 = self.foundations[CLUB_FD as usize].display();
        s.append(d_f3.as_str());
        s.append("\n");
        s.append("\n");
        let d_tab = self.tableau.display();
        s.append(d_tab.as_str());
        proof {
            assert(s@ =~= self.spec_display());
        }
        s
    }
}

proof fn lemma_apply_cut_total(ps: Seq<Seq<CardState>>, src: int, dest: int, j: int)
    requires
        0 <= src < ps.len(),
        0 <= dest < ps.len(),
        0 <= j <= ps[src].len(),
    ensures
        seq_total(apply_cut(ps, src, dest, j)) == seq_total(ps),
{
    let seg = ps[src].subrange(j, ps[src].len() as int);
    let rest = flip_top_seq(ps[src].take(j));
    let mid = ps.update(src, rest);
    assert(rest.len() == j);
    lemma_seq_total_update(ps, src, rest);
    lemma_seq_total_update(mid, dest, mid[dest] + seg);
}

/// Relies on rand's `SliceRandom::shuffle` with the thread-local
/// generator: it permutes the slice in place by element swaps, so the
/// result holds the same cards as a multiset, in some new order.
#[verifier::external_body]
fn shuffle_cards(cards: &mut Vec<Card>)
    ensures
        final(cards)@.len() == old(cards)@.len(),
        final(cards)@.to_multiset() == old(cards)@.to_multiset(),
{
    cards.shuffle(&mut rand::rng());
}

/// A game whose four foundations each hold their complete thirteen-card
/// run is won.
pub proof fn lemma_victory_when_complete(g: Game)
    requires
        g.wf(),
        forall|k: int| 0 <= k < 4 ==> (#[trigger] g.foundations@[k]).cards@.len() == 13,
    ensures
        g.spec_victory(),
{
    assert forall|k: int| 0 <= k < 4 implies (#[trigger] g.foundations@[k]).spec_is_full() by {
        let f = g.foundations@[k];
        assert(f.cards@[12].value.spec_rank() == 13);
        assert(f.cards@.last() == f.cards@[12]);
    }
}

/// A game with any foundation short of its king is not yet won.
pub proof fn lemma_no_victory_without_king(g: Game, k: int)
    requires
        g.wf(),
        0 <= k < 4,
        g.foundations@[k].cards@.len() < 13,
    ensures
        !g.spec_victory(),
{
    let f = g.foundations@[k];
    if f.cards@.len() > 0 {
        let n = f.cards@.len() as int;
        assert(f.cards@[n - 1].value.spec_rank() == n);
        assert(f.cards@.last() == f.cards@[n - 1]);
    }
}

} // verus!
