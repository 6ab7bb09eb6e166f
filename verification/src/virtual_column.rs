//! The derived U-type predicate: a 0-or-1 field value computed per row from
//! the two U-type opcode flag columns rather than stored as a column of its
//! own. It is recomputed in three places — main-trace filling, interaction
//! generation and constraint evaluation — and all paths share one definition,
//! so they agree by construction.

use crate::columns::Column;
use crate::field::{add_f, Fp};
use crate::trace::{FinalizedTraces, TracesBuilder, N_LANES};
use vstd::prelude::*;

verus! {

/// The derived U-type indicator.
pub struct IsTypeU;

/// The predicate on raw flag values: the sum of the LUI and AUIPC opcode
/// flags, a 0/1 field element on any valid trace.
pub open spec fn is_type_u_of(lui: int, auipc: int) -> int {
    add_f(lui, auipc)
}

/// The predicate of a builder row.
pub open spec fn type_u_of_builder(t: TracesBuilder, row: int) -> int {
    is_type_u_of(t.cell(Column::IsLui, 0, row), t.cell(Column::IsAuipc, 0, row))
}

/// The predicate of a finalized-trace row.
pub open spec fn type_u_of_finalized(f: FinalizedTraces, row: int) -> int {
    is_type_u_of(f.cell(Column::IsLui, 0, row), f.cell(Column::IsAuipc, 0, row))
}

impl IsTypeU {
    /// Scalar path: evaluates the predicate from materialized builder cells
    /// at one row.
    pub fn read_from_traces_builder(t: &TracesBuilder, row: usize) -> (r: Fp)
        requires
            t.wf(),
            row < t.num_rows_spec(),
        ensures
            r.wf(),
            r.val() == type_u_of_builder(*t, row as int),
    {
        proof {
            t.lemma_cell_range(Column::IsLui, 0, row as int);
            t.lemma_cell_range(Column::IsAuipc, 0, row as int);
        }
        let lui = Fp::new(t.cell_value(Column::IsLui, 0, row));
        let auipc = Fp::new(t.cell_value(Column::IsAuipc, 0, row));
        lui.add(auipc)
    }

    /// Batched path: evaluates the predicate from the finalized trace at lane
    /// `lane` of the 16-row batch `vec_row`.
    pub fn read_from_finalized_traces(f: &FinalizedTraces, vec_row: usize, lane: usize) -> (r: Fp)
        requires
            f.wf(),
            lane < N_LANES,
            (vec_row as int) * (N_LANES as int) + (lane as int) < f.num_rows_spec(),
        ensures
            r.wf(),
            r.val() == type_u_of_finalized(
                *f,
                vec_row as int * (N_LANES as int) + lane as int,
            ),
    {
        let lui = Fp::new(f.cell_value_at_lane(Column::IsLui, 0, vec_row, lane));
        let auipc = Fp::new(f.cell_value_at_lane(Column::IsAuipc, 0, vec_row, lane));
        lui.add(auipc)
    }

    /// Constraint path: evaluates the predicate from the finalized trace at
    /// one row, as the constraint evaluator sees it.
    pub fn eval(f: &FinalizedTraces, row: usize) -> (r: Fp)
        requires
            f.wf(),
            row < f.num_rows_spec(),
        ensures
            r.wf(),
            r.val() == type_u_of_finalized(*f, row as int),
    {
        proof {
            f.lemma_cell_range(Column::IsLui, 0, row as int);
            f.lemma_cell_range(Column::IsAuipc, 0, row as int);
        }
        let lui = Fp::new(f.cell_value(Column::IsLui, 0, row));
        let auipc = Fp::new(f.cell_value(Column::IsAuipc, 0, row));
        lui.add(auipc)
    }
}

/// The scalar and batched evaluation paths agree: on a finalized trace that
/// holds the builder's cells, the batched read of lane `lane` of batch
/// `vec_row` equals the scalar read of row `vec_row * 16 + lane`.
pub proof fn lemma_scalar_batched_agree(
    t: TracesBuilder,
    f: FinalizedTraces,
    vec_row: int,
    lane: int,
)
    requires
        0 <= lane < N_LANES as int,
        0 <= vec_row * (N_LANES as int) + lane < t.num_rows_spec(),
        forall|c: Column, l: int, row: int|
            0 <= l < c.limbs_spec() && 0 <= row < t.num_rows_spec() ==> f.cell(c, l, row)
                == t.cell(c, l, row),
    ensures
        type_u_of_finalized(f, vec_row * (N_LANES as int) + lane) == type_u_of_builder(
            t,
            vec_row * (N_LANES as int) + lane,
        ),
{
}

} // verus!
