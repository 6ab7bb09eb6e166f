//! The execution-trace tables: a mutable builder written by the composing
//! chips, and the finalized, read-only form handed to the interaction phase.
//!
//! Cells are base-field representatives (machine words below the modulus).
//! Storage is one vector per (column, limb), indexed by row; the finalized
//! form additionally offers access by 16-row lane batches.

use crate::columns::{Column, NUM_COLUMNS, WORD_SIZE};
use crate::field::P;
use vstd::prelude::*;

verus! {

/// Base-two logarithm of the lane width used by batched access.
pub const LOG_N_LANES: u32 = 4;

/// Rows per batch in the finalized trace.
pub const N_LANES: usize = 16;

/// Smallest supported trace height, as a base-two logarithm.
pub const MIN_LOG_SIZE: u32 = 5;

/// Largest supported trace height, as a base-two logarithm; the cap keeps
/// every multiplicity counter, and its field embedding, far from overflow.
pub const MAX_LOG_SIZE: u32 = 23;

/// The shared mutable trace table filled row by row by the composing chips.
pub struct TracesBuilder {
    log_size: u32,
    num_rows: usize,
    cols: Vec<Vec<Vec<u32>>>,
}

/// Shape and field-boundedness of a column table.
pub(crate) open spec fn table_wf(cols: Seq<Vec<Vec<u32>>>, num_rows: int) -> bool {
    &&& cols.len() == NUM_COLUMNS
    &&& forall|c: Column| (#[trigger] cols[c.index_spec()]@).len() == c.limbs_spec()
    &&& forall|ci: int, l: int|
        0 <= ci < cols.len() && 0 <= l < cols[ci]@.len() ==> (#[trigger] cols[ci]@[l]@).len()
            == num_rows
    &&& forall|ci: int, l: int, r: int|
        0 <= ci < cols.len() && 0 <= l < cols[ci]@.len() && 0 <= r < cols[ci]@[l]@.len()
            ==> (#[trigger] cols[ci]@[l]@[r]) < P
}

impl TracesBuilder {
    /// The trace's height.
    pub closed spec fn num_rows_spec(self) -> int {
        self.num_rows as int
    }

    /// The trace's height, as a base-two logarithm.
    pub closed spec fn log_size_spec(self) -> int {
        self.log_size as int
    }

    /// The builder is well formed: every column has its limb vectors, every
    /// limb vector one reduced cell per row, and the height is a supported
    /// power of two.
    pub closed spec fn wf(self) -> bool {
        &&& table_wf(self.cols@, self.num_rows as int)
        &&& MIN_LOG_SIZE <= self.log_size <= MAX_LOG_SIZE
        &&& self.num_rows == (1usize << self.log_size)
        &&& 32 <= self.num_rows <= 0x80_0000
        &&& self.num_rows % N_LANES == 0
    }

    /// The cell of column `c`, limb `limb`, at row `row`.
    pub closed spec fn cell(self, c: Column, limb: int, row: int) -> int {
        self.cols@[c.index_spec()]@[limb]@[row] as int
    }

    /// Facts every well-formed builder provides.
    pub proof fn lemma_wf_facts(self)
        requires
            self.wf(),
        ensures
            32 <= self.num_rows_spec() <= 0x80_0000,
            self.num_rows_spec() % (N_LANES as int) == 0,
    {
    }

    /// Every cell of a well-formed builder is a reduced representative.
    pub proof fn lemma_cell_range(self, c: Column, limb: int, row: int)
        requires
            self.wf(),
            0 <= limb < c.limbs_spec(),
            0 <= row < self.num_rows_spec(),
        ensures
            0 <= self.cell(c, limb, row) < P as int,
    {
        assert(self.cols@[c.index_spec()]@.len() == c.limbs_spec());
    }

    /// Allocates an all-zero trace of `2^log_size` rows.
    pub fn new(log_size: u32) -> (r: TracesBuilder)
        requires
            MIN_LOG_SIZE <= log_size <= MAX_LOG_SIZE,
        ensures
            r.wf(),
            r.log_size_spec() == log_size,
            r.num_rows_spec() == (1usize << log_size) as int,
            forall|c: Column, l: int, row: int|
                0 <= l < c.limbs_spec() && 0 <= row < r.num_rows_spec() ==> r.cell(c, l, row)
                    == 0,
    {
        let num_rows: usize = 1usize << log_size;
        proof {
            assert(32 <= (1usize << log_size) <= 0x80_0000 && (1usize << log_size) % 16 == 0)
                by (bit_vector)
                requires
                    5 <= log_size <= 23,
            ;
        }
        let mut cols: Vec<Vec<Vec<u32>>> = Vec::new();
        let mut ci: usize = 0;
        while ci < NUM_COLUMNS
            invariant
                ci <= NUM_COLUMNS,
                cols@.len() == ci,
                forall|i: int|
                    0 <= i < ci ==> (#[trigger] cols@[i]).len() == (if i < 31 {
                        WORD_SIZE as int
                    } else {
                        1
                    }),
                forall|i: int, l: int|
                    0 <= i < ci && 0 <= l < cols@[i]@.len() ==> (#[trigger] cols@[i]@[l]).len()
                        == num_rows,
                forall|i: int, l: int, r2: int|
                    0 <= i < ci && 0 <= l < cols@[i]@.len() && 0 <= r2 < num_rows
                        ==> (#[trigger] cols@[i]@[l]@[r2]) == 0,
            decreases NUM_COLUMNS - ci,
        {
            let limbs: usize = if ci < 31 {
                WORD_SIZE
            } else {
                1
            };
            let mut col: Vec<Vec<u32>> = Vec::new();
            let mut l: usize = 0;
            while l < limbs
                invariant
                    l <= limbs,
                    col@.len() == l,
                    forall|j: int| 0 <= j < l ==> (#[trigger] col@[j]@).len() == num_rows,
                    forall|j: int, r2: int|
                        0 <= j < l && 0 <= r2 < num_rows ==> (#[trigger] col@[j]@[r2]) == 0,
                decreases limbs - l,
            {
                let mut rows: Vec<u32> = Vec::new();
                let mut r2: usize = 0;
                while r2 < num_rows
                    invariant
                        r2 <= num_rows,
                        rows@.len() == r2,
                        forall|k: int| 0 <= k < r2 ==> (#[trigger] rows@[k]) == 0,
                    decreases num_rows - r2,
                {
                    rows.push(0);
                    r2 = r2 + 1;
                }
                col.push(rows);
                l = l + 1;
            }
            cols.push(col);
            ci = ci + 1;
        }
        let out = TracesBuilder { log_size, num_rows, cols };
        proof {
            assert forall|c: Column| (#[trigger] out.cols@[c.index_spec()]@).len()
                == c.limbs_spec() by {
                assert(out.cols@[c.index_spec()]@.len() == (if c.index_spec() < 31 {
                    WORD_SIZE as int
                } else {
                    1
                }));
            }
        }
        out
    }

    /// The trace's height.
    pub fn num_rows(&self) -> (n: usize)
        ensures
            n as int == self.num_rows_spec(),
    {
        self.num_rows
    }

    /// The trace's height, as a base-two logarithm.
    pub fn log_size(&self) -> (n: u32)
        ensures
            n as int == self.log_size_spec(),
    {
        self.log_size
    }

    /// Reads one cell.
    pub fn cell_value(&self, c: Column, limb: usize, row: usize) -> (v: u32)
        requires
            self.wf(),
            limb < c.limbs_spec(),
            row < self.num_rows_spec(),
        ensures
            v as int == self.cell(c, limb as int, row as int),
            v < P,
    {
        proof {
            self.lemma_cell_range(c, limb as int, row as int);
            assert(self.cols@[c.index_spec()]@.len() == c.limbs_spec());
        }
        let ci = c.index();
        self.cols[ci][limb][row]
    }

    /// Writes one cell; every other cell is untouched.
    pub fn set_cell(&mut self, c: Column, limb: usize, row: usize, v: u32)
        requires
            old(self).wf(),
            limb < c.limbs_spec(),
            row < old(self).num_rows_spec(),
            v < P,
        ensures
            final(self).wf(),
            final(self).num_rows_spec() == old(self).num_rows_spec(),
            final(self).log_size_spec() == old(self).log_size_spec(),
            final(self).cell(c, limb as int, row as int) == v as int,
            forall|c2: Column, l2: int, r2: int|
                0 <= l2 < c2.limbs_spec() && 0 <= r2 < final(self).num_rows_spec() && !(c2 == c && l2
                    == limb && r2 == row) ==> final(self).cell(c2, l2, r2) == old(self).cell(c2, l2, r2),
    {
        proof {
            lemma_column_index_injective();
            assert(self.cols@[c.index_spec()]@.len() == c.limbs_spec());
        }
        let ci = c.index();
        self.cols[ci][limb][row] = v;
        proof {
            assert forall|c2: Column| (#[trigger] self.cols@[c2.index_spec()]@).len()
                == c2.limbs_spec() by {
                assert(old(self).cols@[c2.index_spec()]@.len() == c2.limbs_spec());
            }
        }
    }

    /// Writes the four byte limbs of a word column at one row.
    pub fn fill_columns_bytes(&mut self, row: usize, bytes: [u8; 4], c: Column)
        requires
            old(self).wf(),
            c.limbs_spec() == WORD_SIZE as int,
            row < old(self).num_rows_spec(),
        ensures
            final(self).wf(),
            final(self).num_rows_spec() == old(self).num_rows_spec(),
            final(self).log_size_spec() == old(self).log_size_spec(),
            forall|l: int| 0 <= l < 4 ==> final(self).cell(c, l, row as int) == bytes[l] as int,
            forall|c2: Column, l2: int, r2: int|
                0 <= l2 < c2.limbs_spec() && 0 <= r2 < final(self).num_rows_spec() && !(c2 == c && r2
                    == row) ==> final(self).cell(c2, l2, r2) == old(self).cell(c2, l2, r2),
    {
        self.set_cell(c, 0, row, bytes[0] as u32);
        self.set_cell(c, 1, row, bytes[1] as u32);
        self.set_cell(c, 2, row, bytes[2] as u32);
        self.set_cell(c, 3, row, bytes[3] as u32);
    }

    /// Writes the four limbs of a word column at one row from arbitrary
    /// reduced field representatives, bypassing byte-width construction.
    pub fn fill_columns_base_field(&mut self, row: usize, vals: [u32; 4], c: Column)
        requires
            old(self).wf(),
            c.limbs_spec() == WORD_SIZE as int,
            row < old(self).num_rows_spec(),
            forall|l: int| 0 <= l < 4 ==> vals[l] < P,
        ensures
            final(self).wf(),
            final(self).num_rows_spec() == old(self).num_rows_spec(),
            final(self).log_size_spec() == old(self).log_size_spec(),
            forall|l: int| 0 <= l < 4 ==> final(self).cell(c, l, row as int) == vals[l] as int,
            forall|c2: Column, l2: int, r2: int|
                0 <= l2 < c2.limbs_spec() && 0 <= r2 < final(self).num_rows_spec() && !(c2 == c && r2
                    == row) ==> final(self).cell(c2, l2, r2) == old(self).cell(c2, l2, r2),
    {
        self.set_cell(c, 0, row, vals[0]);
        self.set_cell(c, 1, row, vals[1]);
        self.set_cell(c, 2, row, vals[2]);
        self.set_cell(c, 3, row, vals[3]);
    }

    /// Writes the single limb of a byte column at one row.
    pub fn fill_column_byte(&mut self, row: usize, b: u8, c: Column)
        requires
            old(self).wf(),
            c.limbs_spec() == 1,
            row < old(self).num_rows_spec(),
        ensures
            final(self).wf(),
            final(self).num_rows_spec() == old(self).num_rows_spec(),
            final(self).log_size_spec() == old(self).log_size_spec(),
            final(self).cell(c, 0, row as int) == b as int,
            forall|c2: Column, l2: int, r2: int|
                0 <= l2 < c2.limbs_spec() && 0 <= r2 < final(self).num_rows_spec() && !(c2 == c && l2 == 0
                    && r2 == row) ==> final(self).cell(c2, l2, r2) == old(self).cell(c2, l2, r2),
    {
        self.set_cell(c, 0, row, b as u32);
    }

    /// Freezes the builder: the finalized trace holds the same cells.
    pub fn finalize(self) -> (r: FinalizedTraces)
        requires
            self.wf(),
        ensures
            r.wf(),
            r.num_rows_spec() == self.num_rows_spec(),
            r.log_size_spec() == self.log_size_spec(),
            forall|c: Column, l: int, row: int|
                0 <= l < c.limbs_spec() && 0 <= row < self.num_rows_spec() ==> r.cell(c, l, row)
                    == self.cell(c, l, row),
    {
        FinalizedTraces { log_size: self.log_size, num_rows: self.num_rows, cols: self.cols }
    }
}

/// Distinct columns occupy distinct positions in the column table.
pub proof fn lemma_column_index_injective()
    ensures
        forall|a: Column, b: Column| a != b ==> a.index_spec() != b.index_spec(),
{
}

/// The finalized, immutable trace, organized for access in 16-row batches.
pub struct FinalizedTraces {
    log_size: u32,
    num_rows: usize,
    cols: Vec<Vec<Vec<u32>>>,
}

impl FinalizedTraces {
    /// The trace's height.
    pub closed spec fn num_rows_spec(self) -> int {
        self.num_rows as int
    }

    /// The trace's height, as a base-two logarithm.
    pub closed spec fn log_size_spec(self) -> int {
        self.log_size as int
    }

    /// Same shape and boundedness as the builder it came from.
    pub closed spec fn wf(self) -> bool {
        &&& table_wf(self.cols@, self.num_rows as int)
        &&& MIN_LOG_SIZE <= self.log_size <= MAX_LOG_SIZE
        &&& self.num_rows == (1usize << self.log_size)
        &&& 32 <= self.num_rows <= 0x80_0000
        &&& self.num_rows % N_LANES == 0
    }

    /// The cell of column `c`, limb `limb`, at row `row`.
    pub closed spec fn cell(self, c: Column, limb: int, row: int) -> int {
        self.cols@[c.index_spec()]@[limb]@[row] as int
    }

    /// Facts every well-formed finalized trace provides.
    pub proof fn lemma_wf_facts(self)
        requires
            self.wf(),
        ensures
            32 <= self.num_rows_spec() <= 0x80_0000,
            self.num_rows_spec() % (N_LANES as int) == 0,
    {
    }

    /// Every cell is a reduced representative.
    pub proof fn lemma_cell_range(self, c: Column, limb: int, row: int)
        requires
            self.wf(),
            0 <= limb < c.limbs_spec(),
            0 <= row < self.num_rows_spec(),
        ensures
            0 <= self.cell(c, limb, row) < P as int,
    {
        assert(self.cols@[c.index_spec()]@.len() == c.limbs_spec());
    }

    /// The trace's height.
    pub fn num_rows(&self) -> (n: usize)
        ensures
            n as int == self.num_rows_spec(),
    {
        self.num_rows
    }

    /// The trace's height, as a base-two logarithm.
    pub fn log_size(&self) -> (n: u32)
        ensures
            n as int == self.log_size_spec(),
    {
        self.log_size
    }

    /// Reads one cell by row.
    pub fn cell_value(&self, c: Column, limb: usize, row: usize) -> (v: u32)
        requires
            self.wf(),
            limb < c.limbs_spec(),
            row < self.num_rows_spec(),
        ensures
            v as int == self.cell(c, limb as int, row as int),
            v < P,
    {
        proof {
            self.lemma_cell_range(c, limb as int, row as int);
            assert(self.cols@[c.index_spec()]@.len() == c.limbs_spec());
        }
        let ci = c.index();
        self.cols[ci][limb][row]
    }

    /// Reads one cell by batch: lane `lane` of the 16-row batch `vec_row`.
    pub fn cell_value_at_lane(&self, c: Column, limb: usize, vec_row: usize, lane: usize) -> (v:
        u32)
        requires
            self.wf(),
            limb < c.limbs_spec(),
            lane < N_LANES,
            (vec_row as int) * (N_LANES as int) + (lane as int) < self.num_rows_spec(),
        ensures
            v as int == self.cell(c, limb as int, vec_row as int * (N_LANES as int) + lane as int),
            v < P,
    {
        proof {
            vstd::arithmetic::mul::lemma_mul_nonnegative(vec_row as int, N_LANES as int);
        }
        let row: usize = vec_row * N_LANES + lane;
        self.cell_value(c, limb, row)
    }
}

} // verus!
