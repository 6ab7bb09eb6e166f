//! The logup interaction-column generator and the constraint-evaluator
//! relation accumulator: the two sinks the chip writes its fractions into.
//!
//! The generator collects, per checked slot, one column of fractions
//! `numerator / (challenge - value)`, one fraction per row; a column must be
//! opened, written in row order, and finalized exactly once. The claimed sum
//! of everything written is the quantity the surrounding proof system checks
//! against the multiplicity-weighted reference table.

use crate::field::Fp;
use vstd::prelude::*;

verus! {

/// Value view of one written fraction: (numerator, denominator).
pub open spec fn frac_view(p: (Fp, Fp)) -> (int, int) {
    (p.0.val(), p.1.val())
}

/// The batched fraction generator for interaction columns.
pub struct LogupTraceGenerator {
    num_rows: usize,
    cols: Vec<Vec<(Fp, Fp)>>,
    cur: Vec<(Fp, Fp)>,
    open: bool,
}

impl LogupTraceGenerator {
    /// The finalized interaction columns, as fraction values.
    pub closed spec fn cols_view(self) -> Seq<Seq<(int, int)>> {
        self.cols@.map_values(|c: Vec<(Fp, Fp)>| c@.map_values(|p: (Fp, Fp)| frac_view(p)))
    }

    /// The open column under construction, as fraction values.
    pub closed spec fn cur_view(self) -> Seq<(int, int)> {
        self.cur@.map_values(|p: (Fp, Fp)| frac_view(p))
    }

    /// Whether a column is open.
    pub closed spec fn is_open(self) -> bool {
        self.open
    }

    /// The height every column must reach.
    pub closed spec fn num_rows_spec(self) -> int {
        self.num_rows as int
    }

    pub closed spec fn wf(self) -> bool {
        &&& forall|j: int|
            0 <= j < self.cols@.len() ==> (#[trigger] self.cols@[j]@).len() == self.num_rows as int
        &&& forall|j: int, k: int|
            0 <= j < self.cols@.len() && 0 <= k < self.cols@[j]@.len() ==> (
            #[trigger] self.cols@[j]@[k]).0.wf() && self.cols@[j]@[k].1.wf()
        &&& forall|k: int|
            0 <= k < self.cur@.len() ==> (#[trigger] self.cur@[k]).0.wf() && self.cur@[k].1.wf()
        &&& (!self.open ==> self.cur@.len() == 0)
        &&& self.cur@.len() <= self.num_rows as int
    }

    /// Every stored fraction holds reduced field values.
    pub proof fn lemma_view_wf(self)
        requires
            self.wf(),
        ensures
            forall|j: int|
                0 <= j < self.cols_view().len() ==> (#[trigger] self.cols_view()[j]).len()
                    == self.num_rows_spec(),
            forall|j: int, k: int|
                0 <= j < self.cols_view().len() && 0 <= k < self.cols_view()[j].len() ==> 0 <= (
                #[trigger] self.cols_view()[j][k]).0 < crate::field::P as int && 0
                    <= self.cols_view()[j][k].1 < crate::field::P as int,
    {
        assert forall|j: int, k: int|
            0 <= j < self.cols_view().len() && 0 <= k
                < self.cols_view()[j].len() implies 0 <= (#[trigger] self.cols_view()[j][k]).0
            < crate::field::P as int && 0 <= self.cols_view()[j][k].1 < crate::field::P as int by {
            self.cols@[j]@[k].0.lemma_range();
            self.cols@[j]@[k].1.lemma_range();
        }
    }

    /// A fresh generator with no columns.
    pub fn new(num_rows: usize) -> (r: LogupTraceGenerator)
        ensures
            r.wf(),
            r.cols_view() == Seq::<Seq<(int, int)>>::empty(),
            !r.is_open(),
            r.num_rows_spec() == num_rows as int,
    {
        let r = LogupTraceGenerator { num_rows, cols: Vec::new(), cur: Vec::new(), open: false };
        proof {
            assert(r.cols_view() =~= Seq::<Seq<(int, int)>>::empty());
        }
        r
    }

    /// Opens the next interaction column.
    pub fn new_col(&mut self)
        requires
            old(self).wf(),
            !old(self).is_open(),
        ensures
            final(self).wf(),
            final(self).is_open(),
            final(self).cur_view() == Seq::<(int, int)>::empty(),
            final(self).cols_view() == old(self).cols_view(),
            final(self).num_rows_spec() == old(self).num_rows_spec(),
    {
        self.open = true;
        proof {
            assert(self.cur_view() =~= Seq::<(int, int)>::empty());
        }
    }

    /// Writes the fraction of row `row` into the open column; rows are
    /// written in ascending order with no gaps.
    pub fn write_frac(&mut self, row: usize, numerator: Fp, denominator: Fp)
        requires
            old(self).wf(),
            old(self).is_open(),
            old(self).cur_view().len() == row as int,
            (row as int) < old(self).num_rows_spec(),
            numerator.wf(),
            denominator.wf(),
        ensures
            final(self).wf(),
            final(self).is_open(),
            final(self).cur_view() == old(self).cur_view().push(
                (numerator.val(), denominator.val()),
            ),
            final(self).cols_view() == old(self).cols_view(),
            final(self).num_rows_spec() == old(self).num_rows_spec(),
    {
        self.cur.push((numerator, denominator));
        proof {
            assert(self.cur_view() =~= old(self).cur_view().push(
                (numerator.val(), denominator.val()),
            ));
        }
    }

    /// Closes the open column, which must be full; it joins the finalized
    /// columns and cannot be written again.
    pub fn finalize_col(&mut self)
        requires
            old(self).wf(),
            old(self).is_open(),
            old(self).cur_view().len() == old(self).num_rows_spec(),
        ensures
            final(self).wf(),
            !final(self).is_open(),
            final(self).cols_view() == old(self).cols_view().push(old(self).cur_view()),
            final(self).num_rows_spec() == old(self).num_rows_spec(),
    {
        let mut done: Vec<(Fp, Fp)> = Vec::new();
        core::mem::swap(&mut done, &mut self.cur);
        self.cols.push(done);
        self.open = false;
        proof {
            assert(self.cols_view() =~= old(self).cols_view().push(old(self).cur_view()));
        }
    }

    /// Number of finalized columns.
    pub fn col_count(&self) -> (n: usize)
        ensures
            n as int == self.cols_view().len(),
    {
        self.cols.len()
    }

    /// Reads one finalized fraction.
    pub fn frac_at(&self, j: usize, k: usize) -> (p: (Fp, Fp))
        requires
            self.wf(),
            (j as int) < self.cols_view().len(),
            (k as int) < self.num_rows_spec(),
        ensures
            p.0.wf(),
            p.1.wf(),
            frac_view(p) == self.cols_view()[j as int][k as int],
    {
        self.cols[j][k]
    }

    /// Height of every finalized column.
    pub fn num_rows(&self) -> (n: usize)
        ensures
            n as int == self.num_rows_spec(),
    {
        self.num_rows
    }
}

/// The relation accumulator of the constraint evaluator: collects, for one
/// generic row, the (numerator, checked value) contributions the chip
/// registers for the multiset-equality relation.
pub struct ConstraintEvaluator {
    entries: Vec<(Fp, Fp)>,
}

impl ConstraintEvaluator {
    /// The registered contributions, as (numerator, value) pairs.
    pub closed spec fn entries_view(self) -> Seq<(int, int)> {
        self.entries@.map_values(|p: (Fp, Fp)| frac_view(p))
    }

    pub closed spec fn wf(self) -> bool {
        forall|k: int|
            0 <= k < self.entries@.len() ==> (#[trigger] self.entries@[k]).0.wf()
                && self.entries@[k].1.wf()
    }

    /// An evaluator with no contributions yet.
    pub fn new() -> (r: ConstraintEvaluator)
        ensures
            r.wf(),
            r.entries_view() == Seq::<(int, int)>::empty(),
    {
        let r = ConstraintEvaluator { entries: Vec::new() };
        proof {
            assert(r.entries_view() =~= Seq::<(int, int)>::empty());
        }
        r
    }

    /// Registers one relation contribution.
    pub fn add_to_relation(&mut self, numerator: Fp, value: Fp)
        requires
            old(self).wf(),
            numerator.wf(),
            value.wf(),
        ensures
            final(self).wf(),
            final(self).entries_view() == old(self).entries_view().push(
                (numerator.val(), value.val()),
            ),
    {
        self.entries.push((numerator, value));
        proof {
            assert(self.entries_view() =~= old(self).entries_view().push(
                (numerator.val(), value.val()),
            ));
        }
    }

    /// Reads one contribution.
    pub fn entry_at(&self, k: usize) -> (p: (Fp, Fp))
        requires
            self.wf(),
            (k as int) < self.entries_view().len(),
        ensures
            p.0.wf(),
            p.1.wf(),
            frac_view(p) == self.entries_view()[k as int],
    {
        self.entries[k]
    }

    /// Number of contributions.
    pub fn entry_count(&self) -> (n: usize)
        ensures
            n as int == self.entries_view().len(),
    {
        self.entries.len()
    }
}

} // verus!
