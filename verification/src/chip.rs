//! The range-check chip: the pipeline hooks the chip-composition driver
//! invokes once per proving session — challenge drawing, main-trace filling,
//! interaction-trace filling and constraint emission.
//!
//! The chip must sit at the end of the chip composition: other chips may
//! still be writing checked cells on any row during the filling pass, so the
//! fill hook is a no-op until it observes the last row index, and only then
//! sweeps the whole trace into the multiplicity table.

use crate::columns::{checked_units, checked_units_spec, lemma_checked_units_wf, unit_wf, Column};
use crate::counting::{
    all_checked_in_range_b, lemma_count_in_bound, lemma_count_in_full, lemma_count_in_step,
    lemma_total_count_bound, lemma_total_count_step, total_count_b, unit_cells_b, unit_cells_f,
    unit_nums_b, unit_nums_f,
};
use crate::field::P;
use crate::logup::{ConstraintEvaluator, LogupTraceGenerator};
use crate::lookups::{channel_next, AllLookupElements, Channel, Range256LookupElements};
use crate::multiplicity::{MultiplicityTable, TABLE_SIZE};
use crate::sums::{constraint_entries_spec, interaction_cols_spec};
use crate::trace::{FinalizedTraces, TracesBuilder, N_LANES};
use crate::virtual_column::IsTypeU;
use vstd::arithmetic::mul::lemma_mul_inequality;
use vstd::prelude::*;

verus! {

/// Per-session scratch state shared between filling calls: the multiplicity
/// table, and the validation-mode toggle. With the toggle on, an out-of-range
/// checked value is reported at once; with it off, the value is skipped and
/// the proof's claimed sum silently breaks instead.
pub struct SideNote {
    range256: MultiplicityTable,
    strict: bool,
}

impl SideNote {
    pub closed spec fn wf(self) -> bool {
        self.range256.wf()
    }

    /// The multiplicity recorded so far for byte value `v`.
    pub closed spec fn count(self, v: int) -> int {
        self.range256.count(v)
    }

    /// Whether out-of-range values fail fast.
    pub closed spec fn strict_spec(self) -> bool {
        self.strict
    }

    /// Fresh session state with zeroed multiplicities.
    pub fn new(strict: bool) -> (r: SideNote)
        ensures
            r.wf(),
            r.strict_spec() == strict,
            forall|v: int| 0 <= v < TABLE_SIZE ==> r.count(v) == 0,
    {
        SideNote { range256: MultiplicityTable::new(), strict }
    }

    /// The validation-mode toggle.
    pub fn strict(&self) -> (r: bool)
        ensures
            r == self.strict_spec(),
    {
        self.strict
    }

    /// Reads one multiplicity counter.
    pub fn multiplicity(&self, value: u32) -> (r: u32)
        requires
            self.wf(),
            value < TABLE_SIZE,
        ensures
            r as int == self.count(value as int),
    {
        self.range256.get(value)
    }

    /// Read-only snapshot of the multiplicity table.
    pub fn finalize_multiplicities(&self) -> (r: Vec<u32>)
        requires
            self.wf(),
        ensures
            r@.len() == TABLE_SIZE,
            forall|v: int| 0 <= v < TABLE_SIZE ==> r@[v] as int == self.count(v),
    {
        self.range256.finalize()
    }
}

/// An out-of-range checked cell, reported in strict mode: the slot it sits in
/// and the offending value.
#[derive(Clone, Copy, Debug, PartialEq, Eq, Structural)]
pub struct RangeViolation {
    pub col: Column,
    pub limb: usize,
    pub row: usize,
    pub value: u32,
}

/// The report names a genuinely checked slot whose cell is out of range and
/// whose numerator is live on that row.
pub open spec fn is_violation_witness(t: TracesBuilder, rv: RangeViolation) -> bool {
    exists|i: int|
        0 <= i < checked_units_spec().len() && (#[trigger] checked_units_spec()[i]).col == rv.col
            && checked_units_spec()[i].limb == rv.limb && 0 <= rv.row < t.num_rows_spec()
            && unit_nums_b(t, checked_units_spec()[i])[rv.row as int] != 0 && t.cell(
            rv.col,
            rv.limb as int,
            rv.row as int,
        ) == rv.value as int && rv.value >= 256
}

/// Scans every checked slot for an out-of-range cell; finds one exactly when
/// one exists.
#[verifier::loop_isolation(false)]
pub fn first_range_violation(traces: &TracesBuilder) -> (r: Option<RangeViolation>)
    requires
        traces.wf(),
    ensures
        r is None <==> all_checked_in_range_b(*traces, checked_units_spec()),
        r matches Some(rv) ==> is_violation_witness(*traces, rv),
{
    let units = checked_units();
    proof {
        lemma_checked_units_wf();
    }
    let n = traces.num_rows();
    let mut i: usize = 0;
    while i < units.len()
        invariant
            traces.wf(),
            units@ == checked_units_spec(),
            i <= units@.len(),
            n as int == traces.num_rows_spec(),
            forall|i2: int, r2: int|
                #![trigger unit_cells_b(*traces, units@[i2])[r2]]
                0 <= i2 < i && 0 <= r2 < traces.num_rows_spec() && unit_nums_b(
                    *traces,
                    units@[i2],
                )[r2] != 0 ==> 0 <= unit_cells_b(*traces, units@[i2])[r2] < 256,
        decreases units@.len() - i,
    {
        let u = units[i];
        proof {
            assert(unit_wf(units@[i as int]));
        }
        let mut row: usize = 0;
        while row < n
            invariant
                traces.wf(),
                units@ == checked_units_spec(),
                i < units@.len(),
                u == units@[i as int],
                unit_wf(u),
                row <= n,
                n as int == traces.num_rows_spec(),
                forall|r2: int|
                    #![trigger unit_cells_b(*traces, u)[r2]]
                    0 <= r2 < row && unit_nums_b(*traces, u)[r2] != 0 ==> 0 <= unit_cells_b(
                        *traces,
                        u,
                    )[r2] < 256,
            decreases n - row,
        {
            let live = if u.conditional {
                let tu = IsTypeU::read_from_traces_builder(traces, row);
                tu.value() != 0
            } else {
                true
            };
            if live {
                let w = traces.cell_value(u.col, u.limb, row);
                if w >= 256 {
                    let rv = RangeViolation { col: u.col, limb: u.limb, row, value: w };
                    proof {
                        assert(unit_nums_b(*traces, units@[i as int])[row as int] != 0);
                        assert(is_violation_witness(*traces, rv));
                        assert(unit_cells_b(*traces, units@[i as int])[row as int] >= 256);
                        assert(!all_checked_in_range_b(*traces, checked_units_spec()));
                    }
                    return Some(rv);
                }
            }
            row = row + 1;
        }
        proof {
            assert forall|i2: int, r2: int|
                0 <= i2 < i + 1 && 0 <= r2 < traces.num_rows_spec() && unit_nums_b(
                    *traces,
                    units@[i2],
                )[r2] != 0 implies 0 <= #[trigger] unit_cells_b(*traces, units@[i2])[r2]
                < 256 by {
                if i2 == i {
                    assert(unit_cells_b(*traces, u)[r2] == unit_cells_b(*traces, units@[i2])[r2]);
                }
            }
        }
        i = i + 1;
    }
    None
}

/// The chip itself: stateless configuration; all session state lives in the
/// side note, the trace tables and the registry.
pub struct Range256Chip;

impl Range256Chip {
    /// Samples the chip's challenge tuple from the transcript and registers
    /// it for the later phases. Must run exactly once per session, before
    /// interaction-trace generation; the registry rules a second run out.
    pub fn draw_lookup_elements(all_elements: &mut AllLookupElements, channel: &mut Channel)
        requires
            old(all_elements).wf(),
            !old(all_elements).has_range256(),
            old(channel).wf(),
        ensures
            final(all_elements).wf(),
            final(all_elements).has_range256(),
            final(all_elements).range256_spec().wf(),
            final(all_elements).range256_spec().challenge() == channel_next(
                old(channel).state_spec(),
            ),
            final(channel).wf(),
            final(channel).state_spec() == channel_next(old(channel).state_spec()),
    {
        let e = Range256LookupElements::draw(channel);
        all_elements.insert(e);
    }

    /// The main-trace filling hook, called once per row in ascending order.
    ///
    /// Every call but the last is a no-op: other chips may still be writing
    /// checked cells above or below the current row. On the call where
    /// `row_idx + 1` equals the row count, the chip sweeps the whole trace:
    /// for every checked slot whose numerator is live on a row, it increments
    /// the multiplicity of the cell's value. An out-of-range cell is reported
    /// at once in strict mode and skipped otherwise, leaving the claimed sum
    /// to break downstream.
    #[verifier::loop_isolation(false)]
    pub fn fill_main_trace(
        traces: &mut TracesBuilder,
        row_idx: usize,
        side_note: &mut SideNote,
    ) -> (r: Result<(), RangeViolation>)
        requires
            old(traces).wf(),
            old(side_note).wf(),
            row_idx < old(traces).num_rows_spec(),
            forall|v: int|
                0 <= v < TABLE_SIZE ==> old(side_note).count(v) + checked_units_spec().len() * old(
                    traces,
                ).num_rows_spec() < P as int,
        ensures
            *final(traces) == *old(traces),
            final(side_note).wf(),
            final(side_note).strict_spec() == old(side_note).strict_spec(),
            row_idx + 1 < old(traces).num_rows_spec() ==> r is Ok && *final(side_note) == *old(
                side_note,
            ),
            r is Err <==> (row_idx + 1 == old(traces).num_rows_spec()
                && old(side_note).strict_spec() && !all_checked_in_range_b(
                *old(traces),
                checked_units_spec(),
            )),
            r matches Err(rv) ==> is_violation_witness(*old(traces), rv) && *final(side_note)
                == *old(side_note),
            r is Ok && row_idx + 1 == old(traces).num_rows_spec() ==> forall|v: int|
                0 <= v < TABLE_SIZE ==> final(side_note).count(v) == old(side_note).count(v)
                    + total_count_b(*old(traces), checked_units_spec(), v),
    {
        let n = traces.num_rows();
        if row_idx + 1 < n {
            return Ok(());
        }
        if side_note.strict() {
            match first_range_violation(traces) {
                Some(rv) => {
                    return Err(rv);
                },
                None => {},
            }
        }
        let units = checked_units();
        proof {
            lemma_checked_units_wf();
            traces.lemma_wf_facts();
        }
        let ghost t = *traces;
        let mut i: usize = 0;
        while i < units.len()
            invariant
                traces.wf(),
                *traces == t,
                side_note.wf(),
                side_note.strict_spec() == old(side_note).strict_spec(),
                units@ == checked_units_spec(),
                i <= units@.len(),
                n as int == t.num_rows_spec(),
                forall|v: int|
                    0 <= v < TABLE_SIZE ==> old(side_note).count(v) + units@.len()
                        * t.num_rows_spec() < P as int,
                forall|v: int|
                    0 <= v < TABLE_SIZE ==> #[trigger] side_note.count(v) == old(side_note).count(
                        v,
                    ) + total_count_b(t, units@.take(i as int), v),
            decreases units@.len() - i,
        {
            let u = units[i];
            proof {
                assert(unit_wf(units@[i as int]));
            }
            let ghost cells = unit_cells_b(t, u);
            let ghost nums = unit_nums_b(t, u);
            let mut row: usize = 0;
            while row < n
                invariant
                    traces.wf(),
                    *traces == t,
                    side_note.wf(),
                    side_note.strict_spec() == old(side_note).strict_spec(),
                    units@ == checked_units_spec(),
                    i < units@.len(),
                    u == units@[i as int],
                    unit_wf(u),
                    cells == unit_cells_b(t, u),
                    nums == unit_nums_b(t, u),
                    row <= n,
                    n as int == t.num_rows_spec(),
                    forall|v: int|
                        0 <= v < TABLE_SIZE ==> old(side_note).count(v) + units@.len()
                            * t.num_rows_spec() < P as int,
                    forall|v: int|
                        0 <= v < TABLE_SIZE ==> #[trigger] side_note.count(v) == old(
                            side_note,
                        ).count(v) + total_count_b(t, units@.take(i as int), v) + crate::counting::count_in(
                            cells.take(row as int),
                            nums.take(row as int),
                            v,
                        ),
                decreases n - row,
            {
                let ghost pre_note = *side_note;
                let live = if u.conditional {
                    let tu = IsTypeU::read_from_traces_builder(traces, row);
                    tu.value() != 0
                } else {
                    true
                };
                if live {
                    let w = traces.cell_value(u.col, u.limb, row);
                    if w < 256 {
                        proof {
                            lemma_total_count_bound(t, units@.take(i as int), w as int);
                            lemma_count_in_bound(
                                cells.take(row as int),
                                nums.take(row as int),
                                w as int,
                            );
                            lemma_mul_inequality(
                                i as int + 1,
                                units@.len() as int,
                                t.num_rows_spec(),
                            );
                            assert((i as int + 1) * t.num_rows_spec() == (i as int)
                                * t.num_rows_spec() + t.num_rows_spec()) by (nonlinear_arith);
                            assert((units@.take(i as int)).len() == i as int);
                            assert(cells.take(row as int).len() == row as int);
                            assert(side_note.count(w as int) == old(side_note).count(w as int)
                                + total_count_b(t, units@.take(i as int), w as int)
                                + crate::counting::count_in(
                                cells.take(row as int),
                                nums.take(row as int),
                                w as int,
                            ));
                            assert(old(side_note).count(w as int) + units@.len()
                                * t.num_rows_spec() < P as int);
                            assert(side_note.count(w as int) < P as int);
                        }
                        side_note.range256.increment(w);
                        proof {
                            assert forall|v: int| 0 <= v < TABLE_SIZE implies #[trigger] side_note.count(
                                v,
                            ) == old(side_note).count(v) + total_count_b(
                                t,
                                units@.take(i as int),
                                v,
                            ) + crate::counting::count_in(
                                cells.take(row as int + 1),
                                nums.take(row as int + 1),
                                v,
                            ) by {
                                lemma_count_in_step(cells, nums, row as int, v);
                                assert(cells[row as int] == t.cell(
                                    u.col,
                                    u.limb as int,
                                    row as int,
                                ));
                                assert(cells[row as int] == w as int);
                                assert(nums[row as int] != 0);
                                if v == w as int {
                                    assert(side_note.count(v) == pre_note.count(v) + 1);
                                } else {
                                    assert(side_note.count(v) == pre_note.count(v));
                                }
                            }
                        }
                    } else {
                        // out of range: in strict mode the pre-scan already
                        // reported it; otherwise the occurrence is skipped
                        // and the claimed-sum check downstream breaks.
                        proof {
                            assert forall|v: int| 0 <= v < TABLE_SIZE implies #[trigger] side_note.count(
                                v,
                            ) == old(side_note).count(v) + total_count_b(
                                t,
                                units@.take(i as int),
                                v,
                            ) + crate::counting::count_in(
                                cells.take(row as int + 1),
                                nums.take(row as int + 1),
                                v,
                            ) by {
                                lemma_count_in_step(cells, nums, row as int, v);
                                assert(cells[row as int] == w as int);
                            }
                        }
                    }
                } else {
                    proof {
                        assert forall|v: int| 0 <= v < TABLE_SIZE implies #[trigger] side_note.count(
                            v,
                        ) == old(side_note).count(v) + total_count_b(t, units@.take(i as int), v)
                            + crate::counting::count_in(
                            cells.take(row as int + 1),
                            nums.take(row as int + 1),
                            v,
                        ) by {
                            lemma_count_in_step(cells, nums, row as int, v);
                            assert(nums[row as int] == 0);
                        }
                    }
                }
                row = row + 1;
            }
            proof {
                assert forall|v: int| 0 <= v < TABLE_SIZE implies #[trigger] side_note.count(v)
                    == old(side_note).count(v) + total_count_b(t, units@.take(i as int + 1), v) by {
                    lemma_count_in_full(cells, nums, v);
                    lemma_total_count_step(t, units@, i as int, v);
                }
            }
            i = i + 1;
        }
        proof {
            assert(units@.take(units@.len() as int) =~= units@);
        }
        Ok(())
    }

    /// The interaction-trace hook, run once after the main trace is
    /// finalized: for every checked unit it emits one interaction column of
    /// fractions, numerator 1 for unconditional units and the evaluated
    /// predicate for conditional ones, denominator `challenge - value`. Rows
    /// are processed in 16-row batches.
    #[verifier::loop_isolation(false)]
    pub fn fill_interaction_trace(
        logup_trace_gen: &mut LogupTraceGenerator,
        original_traces: &FinalizedTraces,
        lookup_element: &AllLookupElements,
    )
        requires
            old(logup_trace_gen).wf(),
            !old(logup_trace_gen).is_open(),
            original_traces.wf(),
            old(logup_trace_gen).num_rows_spec() == original_traces.num_rows_spec(),
            lookup_element.wf(),
            lookup_element.has_range256(),
        ensures
            final(logup_trace_gen).wf(),
            !final(logup_trace_gen).is_open(),
            final(logup_trace_gen).num_rows_spec() == old(logup_trace_gen).num_rows_spec(),
            final(logup_trace_gen).cols_view() == old(logup_trace_gen).cols_view()
                + interaction_cols_spec(
                *original_traces,
                checked_units_spec(),
                lookup_element.range256_spec().challenge(),
            ),
    {
        let lookup = lookup_element.as_range256();
        let ghost z = lookup.challenge();
        let ghost f = *original_traces;
        let units = checked_units();
        proof {
            lemma_checked_units_wf();
            original_traces.lemma_wf_facts();
            vstd::arithmetic::div_mod::lemma_fundamental_div_mod(
                f.num_rows_spec(),
                N_LANES as int,
            );
        }
        let n = original_traces.num_rows();
        let n_vec = n / N_LANES;
        let mut i: usize = 0;
        while i < units.len()
            invariant
                i <= units@.len(),
                logup_trace_gen.wf(),
                !logup_trace_gen.is_open(),
                logup_trace_gen.num_rows_spec() == f.num_rows_spec(),
                logup_trace_gen.cols_view() == old(logup_trace_gen).cols_view()
                    + interaction_cols_spec(f, units@.take(i as int), z),
            decreases units@.len() - i,
        {
            let u = units[i];
            proof {
                assert(unit_wf(units@[i as int]));
            }
            let ghost cells = unit_cells_f(f, u);
            let ghost nums = unit_nums_f(f, u);
            let ghost fracs = crate::sums::unit_col_fracs(cells, nums, z);
            logup_trace_gen.new_col();
            let mut vec_row: usize = 0;
            while vec_row < n_vec
                invariant
                    vec_row <= n_vec,
                    logup_trace_gen.wf(),
                    logup_trace_gen.is_open(),
                    logup_trace_gen.num_rows_spec() == f.num_rows_spec(),
                    logup_trace_gen.cols_view() == old(logup_trace_gen).cols_view()
                        + interaction_cols_spec(f, units@.take(i as int), z),
                    logup_trace_gen.cur_view() == fracs.take(
                        (vec_row as int) * (N_LANES as int),
                    ),
                decreases n_vec - vec_row,
            {
                let mut lane: usize = 0;
                while lane < N_LANES
                    invariant
                        lane <= N_LANES,
                        vec_row < n_vec,
                        logup_trace_gen.wf(),
                        logup_trace_gen.is_open(),
                        logup_trace_gen.num_rows_spec() == f.num_rows_spec(),
                        logup_trace_gen.cols_view() == old(logup_trace_gen).cols_view()
                            + interaction_cols_spec(f, units@.take(i as int), z),
                        logup_trace_gen.cur_view() == fracs.take(
                            (vec_row as int) * (N_LANES as int) + lane as int,
                        ),
                    decreases N_LANES - lane,
                {
                    proof {
                        lemma_mul_inequality(vec_row as int + 1, n_vec as int, N_LANES as int);
                        assert((vec_row as int + 1) * (N_LANES as int) == (vec_row as int) * (
                        N_LANES as int) + N_LANES as int) by (nonlinear_arith);
                        vstd::arithmetic::mul::lemma_mul_nonnegative(
                            vec_row as int,
                            N_LANES as int,
                        );
                    }
                    let row: usize = vec_row * N_LANES + lane;
                    let numerator = if u.conditional {
                        IsTypeU::read_from_finalized_traces(original_traces, vec_row, lane)
                    } else {
                        crate::field::Fp::one()
                    };
                    let cellv = original_traces.cell_value_at_lane(u.col, u.limb, vec_row, lane);
                    let denominator = lookup.combine(crate::field::Fp::new(cellv));
                    logup_trace_gen.write_frac(row, numerator, denominator);
                    proof {
                        assert(fracs[row as int] == (nums[row as int], crate::field::sub_f(
                            z,
                            cells[row as int],
                        )));
                        assert(fracs.take(row as int + 1) =~= fracs.take(row as int).push(
                            fracs[row as int],
                        ));
                    }
                    lane = lane + 1;
                }
                vec_row = vec_row + 1;
            }
            proof {
                assert((n_vec as int) * (N_LANES as int) == f.num_rows_spec());
                assert(fracs.take(f.num_rows_spec()) =~= fracs);
            }
            logup_trace_gen.finalize_col();
            proof {
                assert(interaction_cols_spec(f, units@.take(i as int + 1), z) =~= interaction_cols_spec(
                    f,
                    units@.take(i as int),
                    z,
                ).push(fracs));
                assert(logup_trace_gen.cols_view() =~= old(logup_trace_gen).cols_view()
                    + interaction_cols_spec(f, units@.take(i as int + 1), z));
            }
            i = i + 1;
        }
        proof {
            assert(units@.take(units@.len() as int) =~= units@);
        }
    }

    /// The constraint-emission hook: registers, for the evaluator's row, one
    /// relation contribution per checked unit — numerator 1 (or the evaluated
    /// predicate) and the checked value — mirroring exactly the contributions
    /// of the interaction trace.
    #[verifier::loop_isolation(false)]
    pub fn add_constraints(
        eval: &mut ConstraintEvaluator,
        trace_eval: &FinalizedTraces,
        row: usize,
        lookup_elements: &AllLookupElements,
    )
        requires
            old(eval).wf(),
            trace_eval.wf(),
            (row as int) < trace_eval.num_rows_spec(),
            lookup_elements.wf(),
            lookup_elements.has_range256(),
        ensures
            final(eval).wf(),
            final(eval).entries_view() == old(eval).entries_view() + constraint_entries_spec(
                *trace_eval,
                checked_units_spec(),
                row as int,
            ),
    {
        let ghost f = *trace_eval;
        let units = checked_units();
        proof {
            lemma_checked_units_wf();
        }
        let mut i: usize = 0;
        while i < units.len()
            invariant
                i <= units@.len(),
                eval.wf(),
                eval.entries_view() == old(eval).entries_view() + constraint_entries_spec(
                    f,
                    units@.take(i as int),
                    row as int,
                ).take(i as int),
            decreases units@.len() - i,
        {
            let u = units[i];
            proof {
                assert(unit_wf(units@[i as int]));
            }
            let numerator = if u.conditional {
                IsTypeU::eval(trace_eval, row)
            } else {
                crate::field::Fp::one()
            };
            let value = crate::field::Fp::new(trace_eval.cell_value(u.col, u.limb, row));
            eval.add_to_relation(numerator, value);
            proof {
                assert(constraint_entries_spec(f, units@.take(i as int + 1), row as int).take(
                    i as int + 1,
                ) =~= constraint_entries_spec(f, units@.take(i as int), row as int).take(
                    i as int,
                ).push((numerator.val(), value.val())));
                assert(eval.entries_view() =~= old(eval).entries_view()
                    + constraint_entries_spec(f, units@.take(i as int + 1), row as int).take(
                    i as int + 1,
                ));
            }
            i = i + 1;
        }
        proof {
            assert(units@.take(units@.len() as int) =~= units@);
            assert(constraint_entries_spec(f, units@, row as int).take(units@.len() as int)
                =~= constraint_entries_spec(f, units@, row as int));
        }
    }
}

} // verus!
