//! A range-check lookup argument ("logup") for byte values.
//!
//! An execution trace holds named columns whose cells must lie in `[0, 255]`.
//! Rather than one polynomial constraint per cell, the chip proves
//! range-membership for every checked cell at once through a multiset-equality
//! argument: the multiset of checked values is compared against the table of
//! all 256 byte values, weighted by an accumulated multiplicity, via summed
//! fractions `1 / (challenge - value)`.

pub mod chip;
pub mod columns;
pub mod counting;
pub mod field;
pub mod logup;
pub mod lookups;
pub mod multiplicity;
pub mod sums;
pub mod trace;
pub mod virtual_column;
