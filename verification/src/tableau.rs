//! The tableau: the seven playing piles and the cut-and-move algorithm
//! for transferring a run from one pile to another.

use vstd::prelude::*;
use vstd::string::StringExecFns;

use crate::card::{Card, CardState};
use crate::pile::{
    flip_top_seq, king_cut_index, king_pred, lemma_cut_index, pile_cut_index, pile_pred, Pile,
};

verus! {

/// The rendering of one card slot of a pile row.
pub open spec fn row_token(s: Seq<CardState>, row: int) -> Seq<char> {
    if row >= s.len() {
        crate::card::DISPLAY_BLANK@
    } else {
        s[row].spec_display()
    }
}

/// The tallest pile's height.
pub open spec fn spec_max_rows(ps: Seq<Seq<CardState>>) -> int
    decreases ps.len(),
{
    if ps.len() == 0 {
        0
    } else {
        let m = spec_max_rows(ps.drop_last());
        if ps.last().len() > m {
            ps.last().len() as int
        } else {
            m
        }
    }
}

/// The piles after a cut at index `j` of pile `src` is appended to pile
/// `dest`: the remainder's new top is turned face-up, and the segment
/// keeps its order. `src` and `dest` may coincide.
pub open spec fn apply_cut(ps: Seq<Seq<CardState>>, src: int, dest: int, j: int) -> Seq<
    Seq<CardState>,
> {
    let seg = ps[src].subrange(j, ps[src].len() as int);
    let rest = flip_top_seq(ps[src].take(j));
    let mid = ps.update(src, rest);
    mid.update(dest, mid[dest] + seg)
}

/// What a pile-to-pile move does: onto an empty pile, cut at the topmost
/// face-up king; onto a face-up top card, cut at the topmost face-up
/// card that may sit on it; otherwise, and when no cut is found, fail.
pub open spec fn spec_do_move(ps: Seq<Seq<CardState>>, src: int, dest: int) -> Option<
    Seq<Seq<CardState>>,
> {
    if ps[dest].len() == 0 {
        match king_cut_index(ps[src]) {
            Some(j) => Some(apply_cut(ps, src, dest, j)),
            None => None,
        }
    } else if ps[dest].last().spec_is_visible() {
        match pile_cut_index(ps[src], ps[dest].last().card) {
            Some(j) => Some(apply_cut(ps, src, dest, j)),
            None => None,
        }
    } else {
        None
    }
}

pub struct Tableau {
    pub piles: Vec<Pile>,
}

impl Tableau {
    /// The tableau always holds exactly seven piles.
    pub open spec fn wf(self) -> bool {
        self.piles@.len() == 7
    }

    /// The card sequences of the seven piles.
    pub open spec fn pviews(self) -> Seq<Seq<CardState>> {
        Seq::new(self.piles@.len() as nat, |i: int| self.piles@[i].cards@)
    }

    pub fn new() -> (t: Tableau)
        ensures
            t.wf(),
            forall|i: int| 0 <= i < 7 ==> t.pviews()[i].len() == 0,
    {
        let mut piles: Vec<Pile> = Vec::new();
        let mut k: usize = 0;
        while k < 7
            invariant
                piles@.len() == k,
                k <= 7,
                forall|i: int| 0 <= i < k ==> (#[trigger] piles@[i]).cards@.len() == 0,
            decreases 7 - k,
        {
            piles.push(Pile::new());
            k += 1;
        }
        Tableau { piles }
    }

    /// Performs the cut-based move from pile `src_idx` to pile `dest_idx`.
    /// Succeeds exactly when a non-empty cut is found; on failure no pile
    /// changes.
    pub fn do_move(&mut self, src_idx: u8, dest_idx: u8) -> (r: Result<(), ()>)
        requires
            old(self).wf(),
            src_idx < 7,
            dest_idx < 7,
        ensures
            final(self).wf(),
            match spec_do_move(old(self).pviews(), src_idx as int, dest_idx as int) {
                None => r is Err && final(self).pviews() == old(self).pviews(),
                Some(ps) => r is Ok && final(self).pviews() == ps,
            },
    {
        let src = src_idx as usize;
        let dest = dest_idx as usize;
        let ghost ps0 = old(self).pviews();
        if self.piles[dest].is_empty() {
            let mut cut_vec: Vec<CardState> = Vec::new();
            self.piles[src].cut_king(&mut cut_vec);
            proof {
                lemma_cut_index(ps0[src as int], king_pred());
            }
            if cut_vec.len() > 0 {
                self.piles[dest].add_cut(&mut cut_vec);
                proof {
                    let j = king_cut_index(ps0[src as int])->Some_0;
                    assert(self.pviews() =~~= apply_cut(ps0, src as int, dest as int, j));
                }
                Ok(())
            } else {
                proof {
                    assert(self.pviews() =~~= ps0);
                }
                Err(())
            }
        } else {
            let top = self.piles[dest].get_top();
            match top {
                Some(top_card) => {
                    let mut cut_vec: Vec<CardState> = Vec::new();
                    self.piles[src].cut_pile(&top_card, &mut cut_vec);
                    proof {
                        lemma_cut_index(ps0[src as int], pile_pred(top_card));
                    }
                    if cut_vec.len() > 0 {
                        self.piles[dest].add_cut(&mut cut_vec);
                        proof {
                            let j = pile_cut_index(ps0[src as int], top_card)->Some_0;
                            assert(self.pviews() =~~= apply_cut(ps0, src as int, dest as int, j));
                        }
                        Ok(())
                    } else {
                        proof {
                            assert(self.pviews() =~~= ps0);
                        }
                        Err(())
                    }
                }
                None => {
                    proof {
                        assert(self.pviews() =~~= ps0);
                    }
                    Err(())
                }
            }
        }
    }

    /// Pops the top card of pile `index`, turning the next card face-up.
    pub fn take(&mut self, index: u8) -> (r: Option<Card>)
        requires
            old(self).wf(),
            index < 7,
        ensures
            final(self).wf(),
            forall|i: int|
                0 <= i < 7 && i != index as int ==> final(self).pviews()[i] == old(self).pviews()[i],
            old(self).pviews()[index as int].len() == 0 ==> r is None && final(self).pviews()[index as int] == old(self).pviews()[index as int],
            old(self).pviews()[index as int].len() > 0 ==> r == Some(
                old(self).pviews()[index as int].last().card,
            ) && final(self).pviews()[index as int] == flip_top_seq(
                old(self).pviews()[index as int].drop_last(),
            ),
    {
        self.piles[index as usize].take()
    }

    /// The playable top card of pile `index`.
    pub fn get_top(&self, index: u8) -> (r: Option<Card>)
        requires
            self.wf(),
            index < 7,
        ensures
            r == self.piles@[index as int].spec_top(),
    {
        self.piles[index as usize].get_top()
    }

    /// Deals a card face-down onto pile `index`.
    pub fn add_card(&mut self, index: u8, card: Card)
        requires
            old(self).wf(),
            index < 7,
        ensures
            final(self).wf(),
            forall|i: int|
                0 <= i < 7 && i != index as int ==> final(self).pviews()[i] == old(self).pviews()[i],
            final(self).pviews()[index as int] == old(self).pviews()[index as int].push(
                (CardState { card: card, face_up: false }),
            ),
    {
        self.piles[index as usize].populate(card)
    }

    /// Turns the top card of every pile face-up.
    pub fn flip_all(&mut self)
        requires
            old(self).wf(),
        ensures
            final(self).wf(),
            forall|i: int|
                0 <= i < 7 ==> final(self).pviews()[i] == flip_top_seq(old(self).pviews()[i]),
    {
        let mut k: usize = 0;
        while k < 7
            invariant
                self.piles@.len() == 7,
                k <= 7,
                forall|i: int|
                    0 <= i < k ==> (#[trigger] self.piles@[i]).cards@ == flip_top_seq(
                        old(self).piles@[i].cards@,
                    ),
                forall|i: int| k <= i < 7 ==> self.piles@[i] == old(self).piles@[i],
            decreases 7 - k,
        {
            self.piles[k].flip_top();
            k += 1;
        }
    }

    fn max_rows(&self) -> (r: u8)
        requires
            self.wf(),
            forall|i: int| 0 <= i < 7 ==> self.pviews()[i].len() <= 255,
        ensures
            r as int == spec_max_rows(self.pviews()),
    {
        proof {
            assert(self.pviews().take(0) =~= Seq::<Seq<CardState>>::empty());
        }
        let mut max_rows: u8 = 0;
        let mut k: usize = 0;
        while k < 7
            invariant
                self.wf(),
                forall|i: int| 0 <= i < 7 ==> self.pviews()[i].len() <= 255,
                k <= 7,
                max_rows as int == spec_max_rows(self.pviews().take(k as int)),
            decreases 7 - k,
        {
            proof {
                assert(self.pviews()[k as int].len() <= 255);
                assert(self.pviews()[k as int] == self.piles@[k as int].cards@);
            }
            let n = self.piles[k].len();
            if n > max_rows {
                max_rows = n;
            }
            proof {
                assert(self.pviews().take(k + 1).drop_last() =~= self.pviews().take(k as int));
                assert(self.pviews().take(k + 1).last() == self.pviews()[k as int]);
            }
            k += 1;
        }
        proof {
            assert(self.pviews().take(7) =~= self.pviews());
        }
        max_rows
    }

    /// One rendered row of the tableau: the seven piles' tokens at height
    /// `row`, two spaces around each, and a line break.
    pub open spec fn spec_row_display(ps: Seq<Seq<CardState>>, row: int) -> Seq<char> {
        "  "@ + row_token(ps[0], row) + "  "@ + row_token(ps[1], row) + "  "@ + row_token(
            ps[2],
            row,
        ) + "  "@ + row_token(ps[3], row) + "  "@ + row_token(ps[4], row) + "  "@ + row_token(
            ps[5],
            row,
        ) + "  "@ + row_token(ps[6], row) + "  \n"@
    }

    /// The rendered rows up to height `n`, topmost pile positions last.
    pub open spec fn spec_rows_display(ps: Seq<Seq<CardState>>, n: int) -> Seq<char>
        decreases n,
    {
        if n <= 0 {
            Seq::<char>::empty()
        } else {
            Self::spec_rows_display(ps, n - 1) + Self::spec_row_display(ps, n - 1)
        }
    }

    /// The rendering of the whole tableau: the numbered header line, then
    /// one line per row up to the tallest pile.
    pub open spec fn spec_display(self) -> Seq<char> {
        "||__1__||__2__||__3__||__4__||__5__||__6__||__7__||\n"@ + Self::spec_rows_display(
            self.pviews(),
            spec_max_rows(self.pviews()),
        )
    }

    #[verifier::rlimit(50)]
    fn row_line(&self, row: u8) -> (s: String)
        requires
            self.wf(),
        ensures
            s@ == Self::spec_row_display(self.pviews(), row as int),
    {
        let mut s = String::from_str("  ");
        let t0 = self.piles[0].display_row(row);
        s.append(t0.as_str());
        s.append("  ");
        let t1 = self.piles[1].display_row(row);
        s.append(t1.as_str());
        s.append("  ");
        let t2 = self.piles[2].display_row(row);
        s.append(t2.as_str());
        s.append("  ");
        let t3 = self.piles[3].display_row(row);
        s.append(t3.as_str());
        s.append("  ");
        let t4 = self.piles[4].display_row(row);
        s.append(t4.as_str());
        s.append("  ");
        let t5 = self.piles[5].display_row(row);
        s.append(t5.as_str());
        s.append("  ");
        let t6 = self.piles[6].display_row(row);
        s.append(t6.as_str());
        s.append("  \n");
        proof {
            assert(s@ =~= Self::spec_row_display(self.pviews(), row as int));
        }
        s
    }

    pub fn display(&self) -> (s: String)
        requires
            self.wf(),
            forall|i: int| 0 <= i < 7 ==> self.pviews()[i].len() <= 255,
        ensures
            s@ == self.spec_display(),
    {
        let rows: u8 = self.max_rows();
        let mut s = String::from_str("||__1__||__2__||__3__||__4__||__5__||__6__||__7__||\n");
        let ghost header = s@;
        let mut row: u8 = 0;
        while row < rows
            invariant
                self.wf(),
                row <= rows,
                s@ == header + Self::spec_rows_display(self.pviews(), row as int),
            decreases rows - row,
        {
            let line = self.row_line(row);
            s.append(line.as_str());
            proof {
                assert(s@ =~= header + Self::spec_rows_display(self.pviews(), row + 1));
            }
            row += 1;
        }
        s
    }
}

} // verus!
