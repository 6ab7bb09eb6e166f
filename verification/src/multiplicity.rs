//! The multiplicity table: one occurrence counter per byte value,
//! process-scoped to a single proving session.

use vstd::prelude::*;

verus! {

/// Number of byte values the table covers.
pub const TABLE_SIZE: usize = 256;

/// A counter per byte value, incremented once per checked limb occurrence.
pub struct MultiplicityTable {
    counts: Vec<u32>,
}

impl MultiplicityTable {
    /// The table holds one counter per byte value.
    pub closed spec fn wf(self) -> bool {
        self.counts@.len() == TABLE_SIZE
    }

    /// The count recorded for byte value `v`.
    pub closed spec fn count(self, v: int) -> int {
        self.counts@[v] as int
    }

    /// Allocates the 256 zero counters of a fresh session.
    pub fn new() -> (r: MultiplicityTable)
        ensures
            r.wf(),
            forall|v: int| 0 <= v < TABLE_SIZE ==> r.count(v) == 0,
    {
        let mut counts: Vec<u32> = Vec::new();
        let mut i: usize = 0;
        while i < TABLE_SIZE
            invariant
                i <= TABLE_SIZE,
                counts@.len() == i,
                forall|v: int| 0 <= v < i ==> counts@[v] == 0,
            decreases TABLE_SIZE - i,
        {
            counts.push(0);
            i = i + 1;
        }
        MultiplicityTable { counts }
    }

    /// Records one checked occurrence of byte value `value`.
    pub fn increment(&mut self, value: u32)
        requires
            old(self).wf(),
            value < TABLE_SIZE,
            old(self).count(value as int) < u32::MAX,
        ensures
            final(self).wf(),
            final(self).count(value as int) == old(self).count(value as int) + 1,
            forall|v: int|
                0 <= v < TABLE_SIZE && v != value ==> final(self).count(v) == old(self).count(v),
    {
        let c = self.counts[value as usize];
        self.counts[value as usize] = c + 1;
    }

    /// Reads one counter.
    pub fn get(&self, value: u32) -> (r: u32)
        requires
            self.wf(),
            value < TABLE_SIZE,
        ensures
            r as int == self.count(value as int),
    {
        self.counts[value as usize]
    }

    /// Read-only snapshot of all 256 counters, for building the
    /// multiplicity-weighted reference column.
    pub fn finalize(&self) -> (r: Vec<u32>)
        requires
            self.wf(),
        ensures
            r@.len() == TABLE_SIZE,
            forall|v: int| 0 <= v < TABLE_SIZE ==> r@[v] as int == self.count(v),
    {
        let mut out: Vec<u32> = Vec::new();
        let mut i: usize = 0;
        while i < TABLE_SIZE
            invariant
                self.wf(),
                i <= TABLE_SIZE,
                out@.len() == i,
                forall|v: int| 0 <= v < i ==> out@[v] as int == self.count(v),
            decreases TABLE_SIZE - i,
        {
            out.push(self.counts[i]);
            i = i + 1;
        }
        out
    }
}

} // verus!
