//! The algebra of the lookup argument: specification-level sums of logup
//! fractions, the multiplicity-weighted reference-table sum, and the
//! reordering lemmas that tie the two together — the heart of the
//! completeness and soundness statements.

use crate::columns::CheckedUnit;
use crate::counting::{
    all_checked_in_range_f, count_in, nums_boolean_f, total_count_f, unit_cells_f, unit_nums_f,
};
use crate::field::{add_f, finv, is_unit, mul_f, sub_f, Fp, P};
use crate::logup::LogupTraceGenerator;
use crate::trace::FinalizedTraces;
use vstd::arithmetic::div_mod::{
    lemma_add_mod_noop, lemma_add_mod_noop_right, lemma_mul_mod_noop_left, lemma_small_mod,
};
use vstd::arithmetic::mul::lemma_mul_is_distributive_add_other_way;
use vstd::prelude::*;

verus! {

/// One logup term: `numerator * (challenge - value)^{-1}`, meaningful when
/// the denominator is a unit.
pub open spec fn frac_term(num: int, den: int) -> int {
    mul_f(num, finv(den))
}

/// Sum of one interaction column's terms.
pub open spec fn col_sum(col: Seq<(int, int)>) -> int
    decreases col.len(),
{
    if col.len() == 0 {
        0
    } else {
        add_f(col_sum(col.drop_last()), frac_term(col.last().0, col.last().1))
    }
}

/// Sum of all interaction columns' terms: the claimed sum of the argument.
pub open spec fn cols_sum(cols: Seq<Seq<(int, int)>>) -> int
    decreases cols.len(),
{
    if cols.len() == 0 {
        0
    } else {
        add_f(cols_sum(cols.drop_last()), col_sum(cols.last()))
    }
}

/// Every denominator of a column is a unit.
pub open spec fn col_units(col: Seq<(int, int)>) -> bool {
    forall|k: int| 0 <= k < col.len() ==> is_unit((#[trigger] col[k]).1)
}

/// Every denominator of every column is a unit.
pub open spec fn all_units(cols: Seq<Seq<(int, int)>>) -> bool {
    forall|j: int| 0 <= j < cols.len() ==> col_units(#[trigger] cols[j])
}

/// The reference-table sum over values below `k`: each byte value `v`
/// contributes its multiplicity times `1 / (challenge - v)`.
pub open spec fn table_sum(m: Seq<int>, z: int, k: int) -> int
    decreases k,
{
    if k <= 0 {
        0
    } else {
        add_f(table_sum(m, z, k - 1), mul_f(m[k - 1], finv(sub_f(z, k - 1))))
    }
}

/// The fraction column one checked unit contributes: numerator over
/// `challenge - cell`, row by row.
pub open spec fn unit_col_fracs(cells: Seq<int>, nums: Seq<int>, z: int) -> Seq<(int, int)> {
    Seq::new(cells.len(), |r: int| (nums[r], sub_f(z, cells[r])))
}

/// Every interaction column the chip emits, in unit order.
pub open spec fn interaction_cols_spec(
    f: FinalizedTraces,
    units: Seq<CheckedUnit>,
    z: int,
) -> Seq<Seq<(int, int)>> {
    Seq::new(
        units.len(),
        |i: int| unit_col_fracs(unit_cells_f(f, units[i]), unit_nums_f(f, units[i]), z),
    )
}

/// Every relation contribution the chip registers for one row, in unit
/// order: (numerator, checked value).
pub open spec fn constraint_entries_spec(
    f: FinalizedTraces,
    units: Seq<CheckedUnit>,
    row: int,
) -> Seq<(int, int)> {
    Seq::new(
        units.len(),
        |i: int| (unit_nums_f(f, units[i])[row], unit_cells_f(f, units[i])[row]),
    )
}

/// The constraint contributions mirror the interaction columns exactly: at
/// every row, column `i`'s fraction is the registered numerator over
/// `challenge - value` for the registered value.
pub proof fn lemma_constraints_mirror_interaction(
    f: FinalizedTraces,
    units: Seq<CheckedUnit>,
    z: int,
    row: int,
)
    requires
        0 <= row < f.num_rows_spec(),
    ensures
        interaction_cols_spec(f, units, z).len() == constraint_entries_spec(f, units, row).len(),
        forall|i: int|
            0 <= i < units.len() ==> #[trigger] interaction_cols_spec(f, units, z)[i][row] == (
            constraint_entries_spec(f, units, row)[i].0,
            sub_f(z, constraint_entries_spec(f, units, row)[i].1),
        ),
{
}

/// Associativity of reduced addition.
pub proof fn lemma_add_f_assoc(a: int, b: int, c: int)
    ensures
        add_f(add_f(a, b), c) == add_f(a, add_f(b, c)),
{
    let p = P as int;
    assert(add_f(add_f(a, b), c) == (a + b + c) % p) by {
        lemma_mul_mod_noop_left(a + b, 1, p);
        lemma_add_mod_noop(a + b, c, p);
        assert(((a + b) % p + c % p) % p == ((a + b) % p + c) % p) by {
            lemma_add_mod_noop_right((a + b) % p, c, p);
        };
    };
    assert(add_f(a, add_f(b, c)) == (a + b + c) % p) by {
        lemma_add_mod_noop_right(a, b + c, p);
    };
}

/// Multiplying by an extra unit count distributes over reduced addition.
pub proof fn lemma_mul_f_succ(m: int, x: int)
    ensures
        mul_f(m + 1, x) == add_f(mul_f(m, x), x % (P as int)),
{
    let p = P as int;
    lemma_mul_is_distributive_add_other_way(x, m, 1);
    assert((m + 1) * x == m * x + x);
    lemma_add_mod_noop(m * x, x, p);
    lemma_add_mod_noop_right((m * x) % p, x, p);
}

/// A zero-weighted table sum is zero.
pub proof fn lemma_table_sum_zero(m: Seq<int>, z: int, k: int)
    requires
        forall|v: int| 0 <= v < k ==> m[v] == 0,
    ensures
        table_sum(m, z, k) == 0,
    decreases k,
{
    if k > 0 {
        lemma_table_sum_zero(m, z, k - 1);
        assert(mul_f(0, finv(sub_f(z, k - 1))) == 0) by {
            assert(0int * finv(sub_f(z, k - 1)) == 0);
        };
        assert(add_f(0, 0) == 0);
    }
}

/// Bumping one multiplicity by one adds exactly that value's term to the
/// table sum.
pub proof fn lemma_table_sum_bump(m: Seq<int>, z: int, j: int, k: int)
    requires
        0 <= j < 256,
        m.len() == 256,
        k <= 256,
        is_unit(sub_f(z, j)),
    ensures
        table_sum(m.update(j, m[j] + 1), z, k) == if k <= j {
            table_sum(m, z, k)
        } else {
            add_f(table_sum(m, z, k), finv(sub_f(z, j)))
        },
    decreases k,
{
    let p = P as int;
    let m2 = m.update(j, m[j] + 1);
    let f = finv(sub_f(z, j));
    if k <= 0 {
    } else if k - 1 < j {
        lemma_table_sum_bump(m, z, j, k - 1);
    } else if k - 1 == j {
        lemma_table_sum_bump(m, z, j, k - 1);
        crate::field::lemma_finv_of_bounds(sub_f(z, j));
        lemma_mul_f_succ(m[j], f);
        lemma_small_mod(f as nat, P as nat);
        lemma_add_f_assoc(table_sum(m, z, k - 1), mul_f(m[j], f), f);
    } else {
        lemma_table_sum_bump(m, z, j, k - 1);
        let s = table_sum(m, z, k - 1);
        let term = mul_f(m[k - 1], finv(sub_f(z, k - 1)));
        assert(m2[k - 1] == m[k - 1]);
        lemma_add_f_assoc(s, f, term);
        lemma_add_f_assoc(s, term, f);
        assert(add_f(f, term) == add_f(term, f));
    }
}

/// Reordering one column: summing a unit's fractions row by row adds, value
/// by value, each in-range occurrence's term to a running table sum.
pub proof fn lemma_unit_reorder(cells: Seq<int>, nums: Seq<int>, z: int, m0: Seq<int>)
    requires
        cells.len() == nums.len(),
        m0.len() == 256,
        forall|r: int| 0 <= r < nums.len() ==> nums[r] == 0 || nums[r] == 1,
        forall|r: int| 0 <= r < cells.len() && nums[r] != 0 ==> 0 <= #[trigger] cells[r] < 256,
        forall|v: int| 0 <= v < 256 ==> is_unit(sub_f(z, v)),
    ensures
        table_sum(Seq::new(256, |v: int| m0[v] + count_in(cells, nums, v)), z, 256) == add_f(
            table_sum(m0, z, 256),
            col_sum(unit_col_fracs(cells, nums, z)),
        ),
    decreases cells.len(),
{
    let p = P as int;
    let fracs = unit_col_fracs(cells, nums, z);
    let mfull = Seq::new(256, |v: int| m0[v] + count_in(cells, nums, v));
    if cells.len() == 0 {
        assert(mfull =~= m0);
        assert(col_sum(fracs) == 0);
        lemma_table_sum_in_range(m0, z, 256);
        lemma_small_mod(table_sum(m0, z, 256) as nat, P as nat);
    } else {
        let cpre = cells.drop_last();
        let npre = nums.drop_last();
        let r = cells.len() - 1;
        lemma_unit_reorder(cpre, npre, z, m0);
        let mpre = Seq::new(256, |v: int| m0[v] + count_in(cpre, npre, v));
        let fpre = unit_col_fracs(cpre, npre, z);
        assert(fracs.drop_last() =~= fpre);
        assert(fracs.last() == (nums[r], sub_f(z, cells[r])));
        if nums[r] == 0 {
            assert(mfull =~= mpre);
            assert(frac_term(0, sub_f(z, cells[r])) == 0) by {
                assert(0int * finv(sub_f(z, cells[r])) == 0);
            };
            lemma_col_sum_in_range(fpre);
            assert(col_sum(fracs) == add_f(col_sum(fpre), 0));
            lemma_small_mod(col_sum(fpre) as nat, P as nat);
            assert(col_sum(fracs) == col_sum(fpre));
        } else {
            let w = cells[r];
            assert(0 <= w < 256);
            let fw = finv(sub_f(z, w));
            assert(mfull =~= mpre.update(w, mpre[w] + 1));
            lemma_table_sum_bump(mpre, z, w, 256);
            crate::field::lemma_finv_of_bounds(sub_f(z, w));
            assert(frac_term(1, sub_f(z, w)) == fw) by {
                assert(1int * fw == fw);
                lemma_small_mod(fw as nat, P as nat);
            };
            lemma_add_f_assoc(table_sum(m0, z, 256), col_sum(fpre), fw);
        }
    }
}

/// Reordering the whole interaction trace: the claimed sum over every
/// checked unit's fraction column equals the reference-table sum weighted by
/// the exact occurrence counts, provided every checked cell is in range and
/// the predicate is boolean.
pub proof fn lemma_interaction_reorder(f: FinalizedTraces, units: Seq<CheckedUnit>, z: int)
    requires
        nums_boolean_f(f, units),
        all_checked_in_range_f(f, units),
        f.num_rows_spec() >= 0,
        forall|v: int| 0 <= v < 256 ==> is_unit(sub_f(z, v)),
    ensures
        cols_sum(interaction_cols_spec(f, units, z)) == table_sum(
            Seq::new(256, |v: int| total_count_f(f, units, v)),
            z,
            256,
        ),
    decreases units.len(),
{
    let cols = interaction_cols_spec(f, units, z);
    let mfull = Seq::new(256, |v: int| total_count_f(f, units, v));
    if units.len() == 0 {
        lemma_table_sum_zero(mfull, z, 256);
    } else {
        let upre = units.drop_last();
        let u = units.last();
        let i0 = units.len() - 1;
        lemma_interaction_reorder(f, upre, z);
        let mpre = Seq::new(256, |v: int| total_count_f(f, upre, v));
        let cells = unit_cells_f(f, u);
        let nums = unit_nums_f(f, u);
        assert forall|r: int| 0 <= r < nums.len() implies nums[r] == 0 || nums[r] == 1 by {
            assert(unit_nums_f(f, units[i0])[r] == nums[r]);
        }
        assert forall|r: int| 0 <= r < cells.len() && nums[r] != 0 implies 0 <= #[trigger] cells[r]
            < 256 by {
            assert(unit_cells_f(f, units[i0])[r] == cells[r]);
        }
        lemma_unit_reorder(cells, nums, z, mpre);
        assert(mfull =~= Seq::new(256, |v: int| mpre[v] + count_in(cells, nums, v)));
        assert(cols.drop_last() =~= interaction_cols_spec(f, upre, z));
        assert(cols.last() == unit_col_fracs(cells, nums, z));
    }
}

/// Completeness of the argument: when every checked cell is a byte value,
/// the predicate is boolean, and the multiplicity table holds the exact
/// occurrence counts, the claimed sum of the interaction columns cancels the
/// reference-table sum — their difference is the zero field element.
pub proof fn lemma_completeness(f: FinalizedTraces, m: Seq<int>, z: int)
    requires
        f.num_rows_spec() >= 0,
        nums_boolean_f(f, crate::columns::checked_units_spec()),
        all_checked_in_range_f(f, crate::columns::checked_units_spec()),
        m.len() == 256,
        forall|v: int|
            0 <= v < 256 ==> m[v] == total_count_f(f, crate::columns::checked_units_spec(), v),
        forall|v: int| 0 <= v < 256 ==> is_unit(sub_f(z, v)),
    ensures
        sub_f(
            cols_sum(interaction_cols_spec(f, crate::columns::checked_units_spec(), z)),
            table_sum(m, z, 256),
        ) == 0,
{
    lemma_interaction_reorder(f, crate::columns::checked_units_spec(), z);
    assert(m =~= Seq::new(
        256,
        |v: int| total_count_f(f, crate::columns::checked_units_spec(), v),
    ));
}

/// Computes the claimed sum of every finalized interaction column:
/// `sum of numerator / (challenge - value)` over all written fractions.
/// It succeeds whenever every denominator is a unit; `None` names a column
/// holding a non-invertible denominator.
#[verifier::loop_isolation(false)]
pub fn interaction_claimed_sum(gen: &LogupTraceGenerator) -> (r: Option<Fp>)
    requires
        gen.wf(),
    ensures
        all_units(gen.cols_view()) ==> r is Some,
        r matches Some(s) ==> s.wf() && s.val() == cols_sum(gen.cols_view()) && all_units(
            gen.cols_view(),
        ),
{
    proof {
        gen.lemma_view_wf();
    }
    let ghost cols = gen.cols_view();
    let ncols = gen.col_count();
    let nrows = gen.num_rows();
    let mut acc = Fp::zero();
    let mut j: usize = 0;
    while j < ncols
        invariant
            j <= ncols,
            acc.wf(),
            acc.val() == cols_sum(cols.take(j as int)),
            forall|j2: int| 0 <= j2 < j ==> col_units(#[trigger] cols[j2]),
        decreases ncols - j,
    {
        let ghost colj = cols[j as int];
        proof {
            lemma_cols_sum_in_range(cols.take(j as int));
            lemma_small_mod(cols_sum(cols.take(j as int)) as nat, P as nat);
            assert(colj.take(0) =~= Seq::<(int, int)>::empty());
        }
        let mut k: usize = 0;
        while k < nrows
            invariant
                k <= nrows,
                j < ncols,
                acc.wf(),
                acc.val() == add_f(cols_sum(cols.take(j as int)), col_sum(colj.take(k as int))),
                forall|k2: int| 0 <= k2 < k ==> is_unit((#[trigger] colj[k2]).1),
            decreases nrows - k,
        {
            let p = gen.frac_at(j, k);
            let y = match p.1.inv() {
                Some(y) => y,
                None => {
                    proof {
                        assert(!is_unit(colj[k as int].1));
                        assert(!col_units(cols[j as int]));
                        assert(!all_units(cols));
                    }
                    return None;
                },
            };
            proof {
                crate::field::lemma_finv_of(p.1.val(), y.val());
            }
            let term = p.0.mul(y);
            proof {
                assert(colj[k as int] == (p.0.val(), p.1.val()));
                assert(term.val() == frac_term(colj[k as int].0, colj[k as int].1));
                assert(colj.take(k as int + 1).drop_last() =~= colj.take(k as int));
                lemma_add_f_assoc(
                    cols_sum(cols.take(j as int)),
                    col_sum(colj.take(k as int)),
                    term.val(),
                );
            }
            acc = acc.add(term);
            k = k + 1;
        }
        proof {
            assert(colj.take(nrows as int) =~= colj);
            assert(cols.take(j as int + 1).drop_last() =~= cols.take(j as int));
            assert(cols.take(j as int + 1).last() == colj);
        }
        j = j + 1;
    }
    proof {
        assert(cols.take(ncols as int) =~= cols);
    }
    Some(acc)
}

/// Computes the reference-table claimed sum: each byte value's multiplicity
/// over `challenge - value`. It succeeds whenever `challenge - v` is a unit
/// for every byte value `v`; `None` names a non-invertible denominator.
#[verifier::loop_isolation(false)]
pub fn table_claimed_sum(multiplicities: &Vec<u32>, z: Fp) -> (r: Option<Fp>)
    requires
        z.wf(),
        multiplicities@.len() == 256,
        forall|v: int| 0 <= v < 256 ==> (#[trigger] multiplicities@[v]) < P,
    ensures
        (forall|v: int| 0 <= v < 256 ==> is_unit(sub_f(z.val(), v))) ==> r is Some,
        r matches Some(s) ==> s.wf() && s.val() == table_sum(
            Seq::new(256, |v: int| multiplicities@[v] as int),
            z.val(),
            256,
        ) && forall|v: int| 0 <= v < 256 ==> is_unit(sub_f(z.val(), v)),
{
    let ghost mm = Seq::new(256, |v: int| multiplicities@[v] as int);
    let mut acc = Fp::zero();
    let mut v: usize = 0;
    while v < 256
        invariant
            v <= 256,
            acc.wf(),
            acc.val() == table_sum(mm, z.val(), v as int),
            forall|v2: int| 0 <= v2 < v ==> is_unit(sub_f(z.val(), v2)),
        decreases 256 - v,
    {
        let den = z.sub(Fp::new(v as u32));
        let y = match den.inv() {
            Some(y) => y,
            None => {
                proof {
                    assert(!is_unit(sub_f(z.val(), v as int)));
                }
                return None;
            },
        };
        proof {
            crate::field::lemma_finv_of(den.val(), y.val());
        }
        let count = Fp::new(multiplicities[v]);
        let term = count.mul(y);
        proof {
            assert(term.val() == mul_f(mm[v as int], finv(sub_f(z.val(), v as int))));
        }
        acc = acc.add(term);
        v = v + 1;
    }
    Some(acc)
}

/// The claimed-sum check of the argument: the interaction claimed sum minus
/// the multiplicity-weighted reference-table sum. Zero exactly when the
/// checked multiset matches the table; the surrounding proof system accepts
/// only a zero difference. It succeeds whenever every denominator on both
/// sides is a unit.
pub fn claimed_sum_difference(
    gen: &LogupTraceGenerator,
    multiplicities: &Vec<u32>,
    z: Fp,
) -> (r: Option<Fp>)
    requires
        gen.wf(),
        z.wf(),
        multiplicities@.len() == 256,
        forall|v: int| 0 <= v < 256 ==> (#[trigger] multiplicities@[v]) < P,
    ensures
        all_units(gen.cols_view()) && (forall|v: int|
            0 <= v < 256 ==> is_unit(sub_f(z.val(), v))) ==> r is Some,
        r matches Some(d) ==> d.wf() && d.val() == sub_f(
            cols_sum(gen.cols_view()),
            table_sum(Seq::new(256, |v: int| multiplicities@[v] as int), z.val(), 256),
        ) && all_units(gen.cols_view()) && forall|v: int|
            0 <= v < 256 ==> is_unit(sub_f(z.val(), v)),
{
    let a = match interaction_claimed_sum(gen) {
        Some(a) => a,
        None => {
            return None;
        },
    };
    let b = match table_claimed_sum(multiplicities, z) {
        Some(b) => b,
        None => {
            return None;
        },
    };
    Some(a.sub(b))
}

/// When every checked cell is a byte value and `challenge - v` is a unit
/// for every byte value, every denominator the chip emits is a unit — so
/// the claimed-sum computation is owed a result. The in-range hypothesis
/// here covers every cell of every checked unit, live numerator or not,
/// since a dead row still contributes its denominator.
pub proof fn lemma_interaction_cols_units(f: FinalizedTraces, units: Seq<CheckedUnit>, z: int)
    requires
        f.num_rows_spec() >= 0,
        forall|i: int, r: int|
            #![trigger unit_cells_f(f, units[i])[r]]
            0 <= i < units.len() && 0 <= r < f.num_rows_spec() ==> 0 <= unit_cells_f(
                f,
                units[i],
            )[r] < 256,
        forall|v: int| 0 <= v < 256 ==> is_unit(sub_f(z, v)),
    ensures
        all_units(interaction_cols_spec(f, units, z)),
{
    let cols = interaction_cols_spec(f, units, z);
    assert forall|j: int| 0 <= j < cols.len() implies col_units(#[trigger] cols[j]) by {
        let cells = unit_cells_f(f, units[j]);
        let nums = unit_nums_f(f, units[j]);
        assert(cols[j] == unit_col_fracs(cells, nums, z));
        assert forall|k: int| 0 <= k < cols[j].len() implies is_unit(
            (#[trigger] cols[j][k]).1,
        ) by {
            assert(cols[j][k] == (nums[k], sub_f(z, cells[k])));
            assert(0 <= cells[k] < 256);
        }
    }
}

/// Completeness, stated from the filling phase's artifacts: a finalized
/// trace holding the builder's cells, a multiplicity table holding the
/// counts the sweep produced from the builder, every checked cell in range
/// there, and a boolean predicate give a zero claimed-sum difference.
pub proof fn lemma_completeness_of_filled_trace(
    t: crate::trace::TracesBuilder,
    f: FinalizedTraces,
    m: Seq<int>,
    z: int,
)
    requires
        t.num_rows_spec() >= 0,
        f.num_rows_spec() == t.num_rows_spec(),
        forall|c: crate::columns::Column, l: int, row: int|
            0 <= l < c.limbs_spec() && 0 <= row < t.num_rows_spec() ==> f.cell(c, l, row)
                == t.cell(c, l, row),
        nums_boolean_f(f, crate::columns::checked_units_spec()),
        crate::counting::all_checked_in_range_b(t, crate::columns::checked_units_spec()),
        m.len() == 256,
        forall|v: int|
            0 <= v < 256 ==> m[v] == crate::counting::total_count_b(
                t,
                crate::columns::checked_units_spec(),
                v,
            ),
        forall|v: int| 0 <= v < 256 ==> is_unit(sub_f(z, v)),
    ensures
        sub_f(
            cols_sum(interaction_cols_spec(f, crate::columns::checked_units_spec(), z)),
            table_sum(m, z, 256),
        ) == 0,
{
    let units = crate::columns::checked_units_spec();
    crate::columns::lemma_checked_units_wf();
    assert forall|v: int| 0 <= v < 256 implies m[v] == total_count_f(f, units, v) by {
        crate::counting::lemma_counts_agree(t, f, units, v);
    }
    assert forall|i: int, r: int|
        0 <= i < units.len() && 0 <= r < f.num_rows_spec() && unit_nums_f(f, units[i])[r]
            != 0 implies 0 <= #[trigger] unit_cells_f(f, units[i])[r] < 256 by {
        assert(crate::columns::unit_wf(units[i]));
        crate::counting::lemma_unit_seqs_agree(t, f, units[i]);
        assert(crate::counting::unit_cells_b(t, units[i])[r] == unit_cells_f(f, units[i])[r]);
    }
    lemma_completeness(f, m, z);
}

/// Exchanging the last two summands of a reduced sum.
pub proof fn lemma_add_f_swap_right(a: int, b: int, c: int)
    ensures
        add_f(add_f(a, b), c) == add_f(add_f(a, c), b),
{
    lemma_add_f_assoc(a, b, c);
    lemma_add_f_assoc(a, c, b);
    assert(add_f(b, c) == add_f(c, b));
}

/// Cancellation: subtracting one summand of a reduced sum leaves the other.
pub proof fn lemma_add_f_cancel(a: int, b: int)
    requires
        0 <= a < P as int,
        0 <= b < P as int,
    ensures
        sub_f(add_f(a, b), a) == b,
{
    let p = P as int;
    assert((((a + b) % p) - a) % p == ((a + b) - a) % p) by {
        vstd::arithmetic::div_mod::lemma_sub_mod_noop(a + b, a, p);
        lemma_small_mod(a as nat, P as nat);
    };
    lemma_small_mod(b as nat, P as nat);
}

/// Reordering one column that holds a single out-of-range occurrence at row
/// `r0`: the column's sum accounts for every in-range occurrence through the
/// table, plus the stray term of the out-of-range value.
pub proof fn lemma_unit_reorder_one_oor(
    cells: Seq<int>,
    nums: Seq<int>,
    z: int,
    m0: Seq<int>,
    r0: int,
)
    requires
        cells.len() == nums.len(),
        m0.len() == 256,
        0 <= r0 < cells.len(),
        forall|r: int| 0 <= r < nums.len() ==> nums[r] == 0 || nums[r] == 1,
        nums[r0] == 1,
        !(0 <= cells[r0] < 256),
        forall|r: int|
            0 <= r < cells.len() && r != r0 && nums[r] != 0 ==> 0 <= #[trigger] cells[r] < 256,
        forall|v: int| 0 <= v < 256 ==> is_unit(sub_f(z, v)),
        is_unit(sub_f(z, cells[r0])),
    ensures
        add_f(
            table_sum(Seq::new(256, |v: int| m0[v] + count_in(cells, nums, v)), z, 256),
            finv(sub_f(z, cells[r0])),
        ) == add_f(table_sum(m0, z, 256), col_sum(unit_col_fracs(cells, nums, z))),
    decreases cells.len(),
{
    let fracs = unit_col_fracs(cells, nums, z);
    let mfull = Seq::new(256, |v: int| m0[v] + count_in(cells, nums, v));
    let cpre = cells.drop_last();
    let npre = nums.drop_last();
    let fpre = unit_col_fracs(cpre, npre, z);
    let mpre = Seq::new(256, |v: int| m0[v] + count_in(cpre, npre, v));
    let r = cells.len() - 1;
    let w = cells[r0];
    let fw = finv(sub_f(z, w));
    crate::field::lemma_finv_of_bounds(sub_f(z, w));
    assert(fracs.drop_last() =~= fpre);
    assert(fracs.last() == (nums[r], sub_f(z, cells[r])));
    if r0 == r {
        lemma_unit_reorder(cpre, npre, z, m0);
        assert(mfull =~= mpre);
        assert(frac_term(1, sub_f(z, w)) == fw) by {
            assert(1int * fw == fw);
            lemma_small_mod(fw as nat, P as nat);
        };
        lemma_add_f_assoc(table_sum(m0, z, 256), col_sum(fpre), fw);
    } else {
        assert forall|r2: int| 0 <= r2 < npre.len() implies npre[r2] == 0 || npre[r2] == 1 by {
            assert(npre[r2] == nums[r2]);
        }
        lemma_unit_reorder_one_oor(cpre, npre, z, m0, r0);
        if nums[r] == 0 {
            assert(mfull =~= mpre);
            assert(frac_term(0, sub_f(z, cells[r])) == 0) by {
                assert(0int * finv(sub_f(z, cells[r])) == 0);
            };
            lemma_col_sum_in_range(fpre);
            lemma_small_mod(col_sum(fpre) as nat, P as nat);
            assert(col_sum(fracs) == col_sum(fpre));
        } else {
            let wl = cells[r];
            assert(0 <= wl < 256);
            let fwl = finv(sub_f(z, wl));
            crate::field::lemma_finv_of_bounds(sub_f(z, wl));
            assert(mfull =~= mpre.update(wl, mpre[wl] + 1));
            lemma_table_sum_bump(mpre, z, wl, 256);
            assert(frac_term(1, sub_f(z, wl)) == fwl) by {
                assert(1int * fwl == fwl);
                lemma_small_mod(fwl as nat, P as nat);
            };
            // both sides gain the in-range term; rearrange it past the stray
            // term and past the prefix sums
            lemma_add_f_swap_right(table_sum(mpre, z, 256), fwl, fw);
            lemma_add_f_assoc(table_sum(m0, z, 256), col_sum(fpre), fwl);
        }
    }
}

/// Reordering the whole interaction trace with a single out-of-range
/// occurrence at unit `i0`, row `r0`: the claimed sum equals the
/// count-weighted table sum plus the stray value's term.
pub proof fn lemma_interaction_reorder_one_oor(
    f: FinalizedTraces,
    units: Seq<CheckedUnit>,
    z: int,
    i0: int,
    r0: int,
)
    requires
        nums_boolean_f(f, units),
        f.num_rows_spec() >= 0,
        0 <= i0 < units.len(),
        0 <= r0 < f.num_rows_spec(),
        unit_nums_f(f, units[i0])[r0] == 1,
        !(0 <= unit_cells_f(f, units[i0])[r0] < 256),
        forall|i: int, r: int|
            #![trigger unit_cells_f(f, units[i])[r]]
            0 <= i < units.len() && 0 <= r < f.num_rows_spec() && !(i == i0 && r == r0)
                && unit_nums_f(f, units[i])[r] != 0 ==> 0 <= unit_cells_f(f, units[i])[r] < 256,
        forall|v: int| 0 <= v < 256 ==> is_unit(sub_f(z, v)),
        is_unit(sub_f(z, unit_cells_f(f, units[i0])[r0])),
    ensures
        cols_sum(interaction_cols_spec(f, units, z)) == add_f(
            table_sum(Seq::new(256, |v: int| total_count_f(f, units, v)), z, 256),
            finv(sub_f(z, unit_cells_f(f, units[i0])[r0])),
        ),
    decreases units.len(),
{
    let cols = interaction_cols_spec(f, units, z);
    let mfull = Seq::new(256, |v: int| total_count_f(f, units, v));
    let upre = units.drop_last();
    let u = units.last();
    let ilast = units.len() - 1;
    let w = unit_cells_f(f, units[i0])[r0];
    let fw = finv(sub_f(z, w));
    let cells = unit_cells_f(f, u);
    let nums = unit_nums_f(f, u);
    let mpre = Seq::new(256, |v: int| total_count_f(f, upre, v));
    crate::field::lemma_finv_of_bounds(sub_f(z, w));
    assert(cols.drop_last() =~= interaction_cols_spec(f, upre, z));
    assert(cols.last() == unit_col_fracs(cells, nums, z));
    assert forall|r: int| 0 <= r < nums.len() implies nums[r] == 0 || nums[r] == 1 by {
        assert(unit_nums_f(f, units[ilast])[r] == nums[r]);
    }
    if i0 == ilast {
        assert forall|i: int, r: int|
            0 <= i < upre.len() && 0 <= r < f.num_rows_spec() && unit_nums_f(f, upre[i])[r]
                != 0 implies 0 <= #[trigger] unit_cells_f(f, upre[i])[r] < 256 by {
            assert(upre[i] == units[i]);
            assert(unit_cells_f(f, units[i])[r] == unit_cells_f(f, upre[i])[r]);
        }
        lemma_interaction_reorder(f, upre, z);
        assert forall|r: int|
            0 <= r < cells.len() && r != r0 && nums[r] != 0 implies 0 <= #[trigger] cells[r]
            < 256 by {
            assert(unit_cells_f(f, units[ilast])[r] == cells[r]);
        }
        lemma_unit_reorder_one_oor(cells, nums, z, mpre, r0);
        assert(mfull =~= Seq::new(256, |v: int| mpre[v] + count_in(cells, nums, v)));
    } else {
        assert forall|i: int, r: int|
            0 <= i < upre.len() && 0 <= r < f.num_rows_spec() && !(i == i0 && r == r0)
                && unit_nums_f(f, upre[i])[r] != 0 implies 0 <= #[trigger] unit_cells_f(
            f,
            upre[i],
        )[r] < 256 by {
            assert(upre[i] == units[i]);
            assert(unit_cells_f(f, units[i])[r] == unit_cells_f(f, upre[i])[r]);
        }
        assert(upre[i0] == units[i0]);
        lemma_interaction_reorder_one_oor(f, upre, z, i0, r0);
        assert forall|r: int| 0 <= r < cells.len() && nums[r] != 0 implies 0 <= #[trigger] cells[r]
            < 256 by {
            assert(unit_cells_f(f, units[ilast])[r] == cells[r]);
        }
        lemma_unit_reorder(cells, nums, z, mpre);
        assert(mfull =~= Seq::new(256, |v: int| mpre[v] + count_in(cells, nums, v)));
        lemma_add_f_swap_right(table_sum(mpre, z, 256), fw, col_sum(unit_col_fracs(cells, nums, z)));
    }
}

/// Soundness on a single violation: when exactly one checked occurrence is
/// out of range (and everything else is as completeness demands), the
/// claimed-sum difference is the stray value's inverse term — a nonzero
/// field element, so the proof's sum check fails.
///
/// The single-occurrence restriction is essential: for a fixed challenge
/// `z`, two strays `w1`, `w2` with `w1 + w2 == 2 * z` contribute
/// `1/(z - w1) + 1/(z - w2) == 0`, so a claim over every trace with at
/// least one stray would be false. A random challenge makes such
/// cancellations vanishingly rare; that probabilistic step belongs to the
/// surrounding proof system, not to this algebra.
pub proof fn lemma_soundness_single_violation(
    f: FinalizedTraces,
    m: Seq<int>,
    z: int,
    i0: int,
    r0: int,
)
    requires
        f.num_rows_spec() >= 0,
        nums_boolean_f(f, crate::columns::checked_units_spec()),
        0 <= i0 < crate::columns::checked_units_spec().len(),
        0 <= r0 < f.num_rows_spec(),
        unit_nums_f(f, crate::columns::checked_units_spec()[i0])[r0] == 1,
        !(0 <= unit_cells_f(f, crate::columns::checked_units_spec()[i0])[r0] < 256),
        forall|i: int, r: int|
            #![trigger unit_cells_f(f, crate::columns::checked_units_spec()[i])[r]]
            0 <= i < crate::columns::checked_units_spec().len() && 0 <= r < f.num_rows_spec() && !(
            i == i0 && r == r0) && unit_nums_f(f, crate::columns::checked_units_spec()[i])[r] != 0
                ==> 0 <= unit_cells_f(f, crate::columns::checked_units_spec()[i])[r] < 256,
        m.len() == 256,
        forall|v: int|
            0 <= v < 256 ==> m[v] == total_count_f(f, crate::columns::checked_units_spec(), v),
        forall|v: int| 0 <= v < 256 ==> is_unit(sub_f(z, v)),
        is_unit(sub_f(z, unit_cells_f(f, crate::columns::checked_units_spec()[i0])[r0])),
    ensures
        sub_f(
            cols_sum(interaction_cols_spec(f, crate::columns::checked_units_spec(), z)),
            table_sum(m, z, 256),
        ) == finv(sub_f(z, unit_cells_f(f, crate::columns::checked_units_spec()[i0])[r0])),
        sub_f(
            cols_sum(interaction_cols_spec(f, crate::columns::checked_units_spec(), z)),
            table_sum(m, z, 256),
        ) != 0,
{
    let units = crate::columns::checked_units_spec();
    let w = unit_cells_f(f, units[i0])[r0];
    let fw = finv(sub_f(z, w));
    lemma_interaction_reorder_one_oor(f, units, z, i0, r0);
    assert(m =~= Seq::new(256, |v: int| total_count_f(f, units, v)));
    crate::field::lemma_finv_of_bounds(sub_f(z, w));
    lemma_table_sum_in_range(m, z, 256);
    lemma_add_f_cancel(table_sum(m, z, 256), fw);
    assert(fw != 0) by {
        if fw == 0 {
            assert(sub_f(z, w) * 0 == 0);
        }
    };
}

/// Table sums are reduced representatives.
pub proof fn lemma_table_sum_in_range(m: Seq<int>, z: int, k: int)
    ensures
        0 <= table_sum(m, z, k) < P as int,
    decreases k,
{
    if k > 0 {
        lemma_table_sum_in_range(m, z, k - 1);
    } else {
    }
}

/// Column sums are reduced representatives.
pub proof fn lemma_col_sum_in_range(col: Seq<(int, int)>)
    ensures
        0 <= col_sum(col) < P as int,
    decreases col.len(),
{
    if col.len() > 0 {
        lemma_col_sum_in_range(col.drop_last());
    }
}

/// Claimed sums are reduced representatives.
pub proof fn lemma_cols_sum_in_range(cols: Seq<Seq<(int, int)>>)
    ensures
        0 <= cols_sum(cols) < P as int,
    decreases cols.len(),
{
    if cols.len() > 0 {
        lemma_cols_sum_in_range(cols.drop_last());
    }
}

} // verus!
