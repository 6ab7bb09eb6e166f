//! Occurrence counting: how many checked (row, column, limb) slots of a trace
//! hold a given byte value. This is the mathematical yardstick for the
//! multiplicity table — after a full fill pass the table must hold exactly
//! these counts.

use crate::columns::{CheckedUnit, Column};
use crate::trace::{FinalizedTraces, TracesBuilder};
use crate::virtual_column::{type_u_of_builder, type_u_of_finalized};
use vstd::prelude::*;

verus! {

/// How many in-range cells with a live numerator hold value `v`: one per
/// position whose numerator is nonzero and whose cell equals `v`.
pub open spec fn count_in(cells: Seq<int>, nums: Seq<int>, v: int) -> int
    recommends
        cells.len() == nums.len(),
    decreases cells.len(),
{
    if cells.len() == 0 {
        0
    } else {
        count_in(cells.drop_last(), nums.drop_last(), v) + if nums.last() != 0 && cells.last()
            == v {
            1int
        } else {
            0int
        }
    }
}

/// The column of cells a checked unit reads from a builder, row by row.
pub open spec fn unit_cells_b(t: TracesBuilder, u: CheckedUnit) -> Seq<int> {
    Seq::new(t.num_rows_spec() as nat, |r: int| t.cell(u.col, u.limb as int, r))
}

/// The numerators a checked unit contributes from a builder: the constant 1,
/// or the derived predicate where the unit is conditional.
pub open spec fn unit_nums_b(t: TracesBuilder, u: CheckedUnit) -> Seq<int> {
    Seq::new(
        t.num_rows_spec() as nat,
        |r: int|
            if u.conditional {
                type_u_of_builder(t, r)
            } else {
                1
            },
    )
}

/// The column of cells a checked unit reads from a finalized trace.
pub open spec fn unit_cells_f(f: FinalizedTraces, u: CheckedUnit) -> Seq<int> {
    Seq::new(f.num_rows_spec() as nat, |r: int| f.cell(u.col, u.limb as int, r))
}

/// The numerators a checked unit contributes from a finalized trace.
pub open spec fn unit_nums_f(f: FinalizedTraces, u: CheckedUnit) -> Seq<int> {
    Seq::new(
        f.num_rows_spec() as nat,
        |r: int|
            if u.conditional {
                type_u_of_finalized(f, r)
            } else {
                1
            },
    )
}

/// Total occurrences of byte value `v` over a list of checked units.
pub open spec fn total_count_b(t: TracesBuilder, units: Seq<CheckedUnit>, v: int) -> int
    decreases units.len(),
{
    if units.len() == 0 {
        0
    } else {
        total_count_b(t, units.drop_last(), v) + count_in(
            unit_cells_b(t, units.last()),
            unit_nums_b(t, units.last()),
            v,
        )
    }
}

/// Every checked cell with a live numerator is a byte value.
pub open spec fn all_checked_in_range_b(t: TracesBuilder, units: Seq<CheckedUnit>) -> bool {
    forall|i: int, r: int|
        #![trigger unit_cells_b(t, units[i])[r]]
        0 <= i < units.len() && 0 <= r < t.num_rows_spec() && unit_nums_b(t, units[i])[r] != 0
            ==> 0 <= unit_cells_b(t, units[i])[r] < 256
}

/// Total occurrences of byte value `v` over a list of checked units, read
/// from the finalized trace.
pub open spec fn total_count_f(f: FinalizedTraces, units: Seq<CheckedUnit>, v: int) -> int
    decreases units.len(),
{
    if units.len() == 0 {
        0
    } else {
        total_count_f(f, units.drop_last(), v) + count_in(
            unit_cells_f(f, units.last()),
            unit_nums_f(f, units.last()),
            v,
        )
    }
}

/// Every checked cell of the finalized trace with a live numerator is a byte
/// value.
pub open spec fn all_checked_in_range_f(f: FinalizedTraces, units: Seq<CheckedUnit>) -> bool {
    forall|i: int, r: int|
        #![trigger unit_cells_f(f, units[i])[r]]
        0 <= i < units.len() && 0 <= r < f.num_rows_spec() && unit_nums_f(f, units[i])[r] != 0
            ==> 0 <= unit_cells_f(f, units[i])[r] < 256
}

/// Every numerator of the finalized trace is 0 or 1: the derived predicate
/// is boolean on the trace.
pub open spec fn nums_boolean_f(f: FinalizedTraces, units: Seq<CheckedUnit>) -> bool {
    forall|i: int, r: int|
        #![trigger unit_nums_f(f, units[i])[r]]
        0 <= i < units.len() && 0 <= r < f.num_rows_spec() ==> unit_nums_f(f, units[i])[r] == 0
            || unit_nums_f(f, units[i])[r] == 1
}

/// A finalized trace that holds the builder's cells yields the same per-unit
/// cell and numerator columns.
pub proof fn lemma_unit_seqs_agree(t: TracesBuilder, f: FinalizedTraces, u: CheckedUnit)
    requires
        t.num_rows_spec() >= 0,
        f.num_rows_spec() == t.num_rows_spec(),
        0 <= u.limb < u.col.limbs_spec(),
        forall|c: Column, l: int, row: int|
            0 <= l < c.limbs_spec() && 0 <= row < t.num_rows_spec() ==> f.cell(c, l, row)
                == t.cell(c, l, row),
    ensures
        unit_cells_f(f, u) == unit_cells_b(t, u),
        unit_nums_f(f, u) == unit_nums_b(t, u),
{
    assert forall|r: int|
        0 <= r < unit_cells_f(f, u).len() implies #[trigger] unit_cells_f(f, u)[r]
        == unit_cells_b(t, u)[r] by {
        assert(f.cell(u.col, u.limb as int, r) == t.cell(u.col, u.limb as int, r));
    }
    assert(unit_cells_f(f, u) =~= unit_cells_b(t, u));
    assert forall|r: int|
        0 <= r < unit_nums_f(f, u).len() implies #[trigger] unit_nums_f(f, u)[r] == unit_nums_b(
            t,
            u,
        )[r] by {
        assert(Column::IsLui.limbs_spec() == 1);
        assert(Column::IsAuipc.limbs_spec() == 1);
        assert(f.cell(Column::IsLui, 0, r) == t.cell(Column::IsLui, 0, r));
        assert(f.cell(Column::IsAuipc, 0, r) == t.cell(Column::IsAuipc, 0, r));
    }
    assert(unit_nums_f(f, u) =~= unit_nums_b(t, u));
}

/// A finalized trace that holds the builder's cells yields the same total
/// occurrence counts.
pub proof fn lemma_counts_agree(
    t: TracesBuilder,
    f: FinalizedTraces,
    units: Seq<CheckedUnit>,
    v: int,
)
    requires
        t.num_rows_spec() >= 0,
        f.num_rows_spec() == t.num_rows_spec(),
        forall|i: int| 0 <= i < units.len() ==> crate::columns::unit_wf(#[trigger] units[i]),
        forall|c: Column, l: int, row: int|
            0 <= l < c.limbs_spec() && 0 <= row < t.num_rows_spec() ==> f.cell(c, l, row)
                == t.cell(c, l, row),
    ensures
        total_count_f(f, units, v) == total_count_b(t, units, v),
    decreases units.len(),
{
    if units.len() > 0 {
        lemma_counts_agree(t, f, units.drop_last(), v);
        assert(crate::columns::unit_wf(units[units.len() - 1]));
        lemma_unit_seqs_agree(t, f, units.last());
    }
}

/// Number of rows whose numerator is live.
pub open spec fn live_count(nums: Seq<int>) -> int
    decreases nums.len(),
{
    if nums.len() == 0 {
        0
    } else {
        live_count(nums.drop_last()) + if nums.last() != 0 {
            1int
        } else {
            0int
        }
    }
}

/// Sum of the occurrence counts of all values below `k`.
pub open spec fn counts_total(cells: Seq<int>, nums: Seq<int>, k: int) -> int
    decreases k,
{
    if k <= 0 {
        0
    } else {
        counts_total(cells, nums, k - 1) + count_in(cells, nums, k - 1)
    }
}

/// Appending one position raises the total by one exactly when the position
/// is live and its cell lies below `k`.
pub proof fn lemma_counts_total_step(cells: Seq<int>, nums: Seq<int>, k: int)
    requires
        cells.len() == nums.len(),
        cells.len() > 0,
    ensures
        counts_total(cells, nums, k) == counts_total(cells.drop_last(), nums.drop_last(), k) + if (
        nums.last() != 0 && 0 <= cells.last() < k) {
            1int
        } else {
            0int
        },
    decreases k,
{
    if k > 0 {
        lemma_counts_total_step(cells, nums, k - 1);
    }
}

/// When every live cell is a byte value, the total of all 256 occurrence
/// counts is the number of live positions.
pub proof fn lemma_counts_total_is_live(cells: Seq<int>, nums: Seq<int>)
    requires
        cells.len() == nums.len(),
        forall|r: int|
            0 <= r < cells.len() && nums[r] != 0 ==> 0 <= #[trigger] cells[r] < 256,
    ensures
        counts_total(cells, nums, 256) == live_count(nums),
    decreases cells.len(),
{
    if cells.len() == 0 {
        lemma_counts_total_empty(cells, nums, 256);
    } else {
        assert forall|r: int|
            0 <= r < cells.drop_last().len() && nums.drop_last()[r] != 0 implies 0
            <= #[trigger] cells.drop_last()[r] < 256 by {
            assert(cells.drop_last()[r] == cells[r]);
        }
        lemma_counts_total_is_live(cells.drop_last(), nums.drop_last());
        lemma_counts_total_step(cells, nums, 256);
        if nums.last() != 0 {
            assert(0 <= cells[cells.len() - 1] < 256);
        }
    }
}

/// The total of counts over an empty position list is zero.
pub proof fn lemma_counts_total_empty(cells: Seq<int>, nums: Seq<int>, k: int)
    requires
        cells.len() == 0,
    ensures
        counts_total(cells, nums, k) == 0,
    decreases k,
{
    if k > 0 {
        lemma_counts_total_empty(cells, nums, k - 1);
    }
}

/// Sum of the first `k` entries of a count table.
pub open spec fn table_total(m: Seq<int>, k: int) -> int
    decreases k,
{
    if k <= 0 {
        0
    } else {
        table_total(m, k - 1) + m[k - 1]
    }
}

/// Table totals add pointwise.
pub proof fn lemma_table_total_pointwise(m: Seq<int>, m1: Seq<int>, m2: Seq<int>, k: int)
    requires
        forall|v: int| 0 <= v < k ==> m[v] == m1[v] + m2[v],
    ensures
        table_total(m, k) == table_total(m1, k) + table_total(m2, k),
    decreases k,
{
    if k > 0 {
        lemma_table_total_pointwise(m, m1, m2, k - 1);
    }
}

/// The live rows a list of units contributes: the height for every
/// unconditional unit, the number of predicate-true rows for a conditional
/// one.
pub open spec fn expected_total_f(f: FinalizedTraces, units: Seq<CheckedUnit>) -> int
    decreases units.len(),
{
    if units.len() == 0 {
        0
    } else {
        expected_total_f(f, units.drop_last()) + live_count(unit_nums_f(f, units.last()))
    }
}

/// Multiplicity accounting, summed: when every checked cell is in range, the
/// grand total of all 256 occurrence counts equals the number of live
/// checked positions.
pub proof fn lemma_total_counts_accounting(f: FinalizedTraces, units: Seq<CheckedUnit>)
    requires
        f.num_rows_spec() >= 0,
        all_checked_in_range_f(f, units),
    ensures
        table_total(Seq::new(256, |v: int| total_count_f(f, units, v)), 256) == expected_total_f(
            f,
            units,
        ),
    decreases units.len(),
{
    let mfull = Seq::new(256, |v: int| total_count_f(f, units, v));
    if units.len() == 0 {
        lemma_table_total_zero(mfull, 256);
    } else {
        let upre = units.drop_last();
        let u = units.last();
        let ilast = units.len() - 1;
        assert forall|i: int, r: int|
            0 <= i < upre.len() && 0 <= r < f.num_rows_spec() && unit_nums_f(f, upre[i])[r]
                != 0 implies 0 <= #[trigger] unit_cells_f(f, upre[i])[r] < 256 by {
            assert(upre[i] == units[i]);
            assert(unit_cells_f(f, units[i])[r] == unit_cells_f(f, upre[i])[r]);
        }
        lemma_total_counts_accounting(f, upre);
        let mpre = Seq::new(256, |v: int| total_count_f(f, upre, v));
        let cells = unit_cells_f(f, u);
        let nums = unit_nums_f(f, u);
        let munit = Seq::new(256, |v: int| count_in(cells, nums, v));
        lemma_table_total_pointwise(mfull, mpre, munit, 256);
        assert forall|r: int| 0 <= r < cells.len() && nums[r] != 0 implies 0 <= #[trigger] cells[r]
            < 256 by {
            assert(unit_cells_f(f, units[ilast])[r] == cells[r]);
        }
        lemma_counts_total_is_live(cells, nums);
        lemma_table_total_counts(cells, nums, munit, 256);
    }
}

/// A zero table totals to zero.
pub proof fn lemma_table_total_zero(m: Seq<int>, k: int)
    requires
        forall|v: int| 0 <= v < k ==> m[v] == 0,
    ensures
        table_total(m, k) == 0,
    decreases k,
{
    if k > 0 {
        lemma_table_total_zero(m, k - 1);
    }
}

/// A table built from per-value counts totals to the counts' total.
pub proof fn lemma_table_total_counts(cells: Seq<int>, nums: Seq<int>, m: Seq<int>, k: int)
    requires
        forall|v: int| 0 <= v < k ==> m[v] == count_in(cells, nums, v),
    ensures
        table_total(m, k) == counts_total(cells, nums, k),
    decreases k,
{
    if k > 0 {
        lemma_table_total_counts(cells, nums, m, k - 1);
    }
}

/// The predicate column of a finalized trace, row by row.
pub open spec fn type_u_nums(f: FinalizedTraces) -> Seq<int> {
    Seq::new(f.num_rows_spec() as nat, |r: int| crate::virtual_column::type_u_of_finalized(f, r))
}

/// An unconditional unit's numerators are all one; a conditional unit's are
/// the predicate column.
pub proof fn lemma_unit_nums_shape(f: FinalizedTraces, u: CheckedUnit)
    ensures
        !u.conditional ==> unit_nums_f(f, u) == Seq::new(f.num_rows_spec() as nat, |r: int| 1int),
        u.conditional ==> unit_nums_f(f, u) == type_u_nums(f),
{
    if u.conditional {
        assert(unit_nums_f(f, u) =~= type_u_nums(f));
    } else {
        assert(unit_nums_f(f, u) =~= Seq::new(f.num_rows_spec() as nat, |r: int| 1int));
    }
}

/// All-one numerators are live on every row.
pub proof fn lemma_live_count_ones(n: int)
    requires
        n >= 0,
    ensures
        live_count(Seq::new(n as nat, |r: int| 1int)) == n,
    decreases n,
{
    if n > 0 {
        lemma_live_count_ones(n - 1);
        assert(Seq::new(n as nat, |r: int| 1int).drop_last() =~= Seq::new(
            (n - 1) as nat,
            |r: int| 1int,
        ));
    }
}

/// Expected live totals add over concatenation.
pub proof fn lemma_expected_concat(f: FinalizedTraces, a: Seq<CheckedUnit>, b: Seq<CheckedUnit>)
    ensures
        expected_total_f(f, a + b) == expected_total_f(f, a) + expected_total_f(f, b),
    decreases b.len(),
{
    if b.len() == 0 {
        assert(a + b =~= a);
    } else {
        assert((a + b).drop_last() =~= a + b.drop_last());
        assert((a + b).last() == b.last());
        lemma_expected_concat(f, a, b.drop_last());
    }
}

/// A single unit's expected live total.
pub proof fn lemma_expected_singleton(f: FinalizedTraces, u: CheckedUnit)
    ensures
        expected_total_f(f, seq![u]) == live_count(unit_nums_f(f, u)),
{
    assert(seq![u].drop_last() =~= Seq::<CheckedUnit>::empty());
    assert(seq![u].last() == u);
    assert(expected_total_f(f, Seq::<CheckedUnit>::empty()) == 0);
}

/// Word columns contribute four live rows-worth per column.
pub proof fn lemma_expected_word_units(f: FinalizedTraces, cols: Seq<Column>)
    requires
        f.num_rows_spec() >= 0,
    ensures
        expected_total_f(f, crate::columns::word_units(cols)) == 4 * cols.len()
            * f.num_rows_spec(),
    decreases cols.len(),
{
    let n = f.num_rows_spec();
    if cols.len() == 0 {
        assert(4 * cols.len() * n == 0) by (nonlinear_arith)
            requires
                cols.len() == 0,
        ;
    } else {
        lemma_expected_word_units(f, cols.drop_last());
        let c = cols.last();
        let u0 = CheckedUnit { col: c, limb: 0, conditional: false };
        let u1 = CheckedUnit { col: c, limb: 1, conditional: false };
        let u2 = CheckedUnit { col: c, limb: 2, conditional: false };
        let u3 = CheckedUnit { col: c, limb: 3, conditional: false };
        let quad = seq![u0, u1, u2, u3];
        assert(crate::columns::word_units(cols) =~= crate::columns::word_units(cols.drop_last())
            + quad);
        lemma_expected_concat(f, crate::columns::word_units(cols.drop_last()), quad);
        assert(quad =~= seq![u0] + seq![u1] + seq![u2] + seq![u3]);
        lemma_expected_concat(f, seq![u0] + seq![u1] + seq![u2], seq![u3]);
        lemma_expected_concat(f, seq![u0] + seq![u1], seq![u2]);
        lemma_expected_concat(f, seq![u0], seq![u1]);
        lemma_expected_singleton(f, u0);
        lemma_expected_singleton(f, u1);
        lemma_expected_singleton(f, u2);
        lemma_expected_singleton(f, u3);
        lemma_unit_nums_shape(f, u0);
        lemma_unit_nums_shape(f, u1);
        lemma_unit_nums_shape(f, u2);
        lemma_unit_nums_shape(f, u3);
        lemma_live_count_ones(n);
        assert(expected_total_f(f, quad) == 4 * n);
        assert(expected_total_f(f, crate::columns::word_units(cols)) == 4 * (cols.len() - 1) * n
            + 4 * n);
        assert(4 * cols.len() * n == 4 * (cols.len() - 1) * n + 4 * n) by (nonlinear_arith);
    }
}

/// Single-limb columns contribute one live total per column: the height when
/// unconditional, the predicate-true row count when conditional.
pub proof fn lemma_expected_byte_units(f: FinalizedTraces, cols: Seq<Column>, conditional: bool)
    requires
        f.num_rows_spec() >= 0,
    ensures
        expected_total_f(f, crate::columns::byte_units(cols, conditional)) == cols.len() * (
        if conditional {
            live_count(type_u_nums(f))
        } else {
            f.num_rows_spec()
        }),
    decreases cols.len(),
{
    let n = f.num_rows_spec();
    let per = if conditional {
        live_count(type_u_nums(f))
    } else {
        n
    };
    if cols.len() == 0 {
    } else {
        lemma_expected_byte_units(f, cols.drop_last(), conditional);
        let c = cols.last();
        let u = CheckedUnit { col: c, limb: 0, conditional };
        let one = seq![u];
        lemma_expected_concat(f, crate::columns::byte_units(cols.drop_last(), conditional), one);
        lemma_expected_singleton(f, u);
        lemma_unit_nums_shape(f, u);
        lemma_live_count_ones(n);
        assert(expected_total_f(f, one) == per);
        assert(cols.len() * per == (cols.len() - 1) * per + per) by (nonlinear_arith);
    }
}

/// Multiplicity accounting for the chip's configuration: with every checked
/// cell in range, the grand total of all multiplicities is
/// `rows * 124` word-limb occurrences plus `rows * 9` byte occurrences plus
/// `2 * predicate-true rows` conditional occurrences.
pub proof fn lemma_multiplicity_total(f: FinalizedTraces)
    requires
        f.num_rows_spec() >= 0,
        all_checked_in_range_f(f, crate::columns::checked_units_spec()),
    ensures
        table_total(
            Seq::new(
                256,
                |v: int| total_count_f(f, crate::columns::checked_units_spec(), v),
            ),
            256,
        ) == 124 * f.num_rows_spec() + 9 * f.num_rows_spec() + 2 * live_count(type_u_nums(f)),
{
    let n = f.num_rows_spec();
    lemma_total_counts_accounting(f, crate::columns::checked_units_spec());
    let wu = crate::columns::word_units(crate::columns::word_columns());
    let bu = crate::columns::byte_units(crate::columns::byte_columns(), false);
    let cu = crate::columns::byte_units(crate::columns::type_u_columns(), true);
    lemma_expected_concat(f, wu + bu, cu);
    lemma_expected_concat(f, wu, bu);
    lemma_expected_word_units(f, crate::columns::word_columns());
    lemma_expected_byte_units(f, crate::columns::byte_columns(), false);
    lemma_expected_byte_units(f, crate::columns::type_u_columns(), true);
}

/// A count never exceeds the number of positions counted.
pub proof fn lemma_count_in_bound(cells: Seq<int>, nums: Seq<int>, v: int)
    ensures
        0 <= count_in(cells, nums, v) <= cells.len(),
    decreases cells.len(),
{
    if cells.len() > 0 {
        lemma_count_in_bound(cells.drop_last(), nums.drop_last(), v);
    }
}

/// A total count never exceeds units times rows.
pub proof fn lemma_total_count_bound(t: TracesBuilder, units: Seq<CheckedUnit>, v: int)
    requires
        t.wf(),
    ensures
        0 <= total_count_b(t, units, v) <= units.len() * t.num_rows_spec(),
    decreases units.len(),
{
    t.lemma_wf_facts();
    if units.len() == 0 {
    } else {
        let k = units.len() - 1;
        let n = t.num_rows_spec();
        lemma_total_count_bound(t, units.drop_last(), v);
        lemma_count_in_bound(unit_cells_b(t, units.last()), unit_nums_b(t, units.last()), v);
        assert(k * n + n == units.len() * n) by (nonlinear_arith)
            requires
                k == units.len() - 1,
        ;
        assert(k * n >= 0) by (nonlinear_arith)
            requires
                k >= 0,
                n >= 0,
        ;
    }
}

/// Extending the unit prefix by one adds that unit's own count.
pub proof fn lemma_total_count_step(t: TracesBuilder, units: Seq<CheckedUnit>, i: int, v: int)
    requires
        0 <= i < units.len(),
    ensures
        total_count_b(t, units.take(i + 1), v) == total_count_b(t, units.take(i), v) + count_in(
            unit_cells_b(t, units[i]),
            unit_nums_b(t, units[i]),
            v,
        ),
{
    assert(units.take(i + 1).drop_last() =~= units.take(i));
    assert(units.take(i + 1).last() == units[i]);
}

/// Extending the row prefix by one adds at most that row's occurrence.
pub proof fn lemma_count_in_step(cells: Seq<int>, nums: Seq<int>, r: int, v: int)
    requires
        cells.len() == nums.len(),
        0 <= r < cells.len(),
    ensures
        count_in(cells.take(r + 1), nums.take(r + 1), v) == count_in(
            cells.take(r),
            nums.take(r),
            v,
        ) + if nums[r] != 0 && cells[r] == v {
            1int
        } else {
            0int
        },
{
    assert(cells.take(r + 1).drop_last() =~= cells.take(r));
    assert(nums.take(r + 1).drop_last() =~= nums.take(r));
    assert(cells.take(r + 1).last() == cells[r]);
    assert(nums.take(r + 1).last() == nums[r]);
}

/// A full take is the sequence itself, stated once for counting.
pub proof fn lemma_count_in_full(cells: Seq<int>, nums: Seq<int>, v: int)
    requires
        cells.len() == nums.len(),
    ensures
        count_in(cells.take(cells.len() as int), nums.take(nums.len() as int), v) == count_in(
            cells,
            nums,
            v,
        ),
{
    assert(cells.take(cells.len() as int) =~= cells);
    assert(nums.take(nums.len() as int) =~= nums);
}

} // verus!
