//! The named trace columns and the chip's static checked-column
//! configuration: which columns are range-checked, and how.
//!
//! Word columns hold one limb per byte of a four-byte word, and every limb is
//! checked; byte columns hold a single checked limb; the two immediate-operand
//! byte columns are checked only on rows where the derived U-type predicate
//! holds. The two opcode-flag columns are not checked themselves: the
//! predicate is computed from them.

use vstd::prelude::*;

verus! {

/// Number of limbs in a machine word.
pub const WORD_SIZE: usize = 4;

/// A named column of the execution trace.
#[derive(Clone, Copy, Debug, PartialEq, Eq, Structural)]
pub enum Column {
    Pc,
    PcNextAux,
    InstrVal,
    PrevCtr,
    ValueA,
    ValueB,
    ValueC,
    Reg1TsPrev,
    Reg2TsPrev,
    Reg3TsPrev,
    Helper1,
    ProgCtrCur,
    ProgCtrPrev,
    FinalPrgMemoryCtr,
    CReg1TsPrev,
    CReg2TsPrev,
    CReg3TsPrev,
    RamBaseAddr,
    Ram1TsPrev,
    Ram2TsPrev,
    Ram3TsPrev,
    Ram4TsPrev,
    Ram1TsPrevAux,
    Ram2TsPrevAux,
    Ram3TsPrevAux,
    Ram4TsPrevAux,
    Rem,
    Qt,
    RemDiff,
    RamInitFinalAddr,
    RamFinalCounter,
    Ram1ValCur,
    Ram2ValCur,
    Ram3ValCur,
    Ram4ValCur,
    Ram1ValPrev,
    Ram2ValPrev,
    Ram3ValPrev,
    Ram4ValPrev,
    RamFinalValue,
    OpC16_23,
    OpC24_31,
    IsLui,
    IsAuipc,
}

/// Number of named columns.
pub const NUM_COLUMNS: usize = 44;

impl Column {
    /// Position of the column in the trace's column table.
    pub open spec fn index_spec(self) -> int {
        match self {
            Column::Pc => 0,
            Column::PcNextAux => 1,
            Column::InstrVal => 2,
            Column::PrevCtr => 3,
            Column::ValueA => 4,
            Column::ValueB => 5,
            Column::ValueC => 6,
            Column::Reg1TsPrev => 7,
            Column::Reg2TsPrev => 8,
            Column::Reg3TsPrev => 9,
            Column::Helper1 => 10,
            Column::ProgCtrCur => 11,
            Column::ProgCtrPrev => 12,
            Column::FinalPrgMemoryCtr => 13,
            Column::CReg1TsPrev => 14,
            Column::CReg2TsPrev => 15,
            Column::CReg3TsPrev => 16,
            Column::RamBaseAddr => 17,
            Column::Ram1TsPrev => 18,
            Column::Ram2TsPrev => 19,
            Column::Ram3TsPrev => 20,
            Column::Ram4TsPrev => 21,
            Column::Ram1TsPrevAux => 22,
            Column::Ram2TsPrevAux => 23,
            Column::Ram3TsPrevAux => 24,
            Column::Ram4TsPrevAux => 25,
            Column::Rem => 26,
            Column::Qt => 27,
            Column::RemDiff => 28,
            Column::RamInitFinalAddr => 29,
            Column::RamFinalCounter => 30,
            Column::Ram1ValCur => 31,
            Column::Ram2ValCur => 32,
            Column::Ram3ValCur => 33,
            Column::Ram4ValCur => 34,
            Column::Ram1ValPrev => 35,
            Column::Ram2ValPrev => 36,
            Column::Ram3ValPrev => 37,
            Column::Ram4ValPrev => 38,
            Column::RamFinalValue => 39,
            Column::OpC16_23 => 40,
            Column::OpC24_31 => 41,
            Column::IsLui => 42,
            Column::IsAuipc => 43,
        }
    }

    /// Number of limbs the column holds per row.
    pub open spec fn limbs_spec(self) -> int {
        if self.index_spec() < 31 {
            WORD_SIZE as int
        } else {
            1
        }
    }

    /// Position of the column in the trace's column table.
    pub fn index(self) -> (i: usize)
        ensures
            i as int == self.index_spec(),
            i < NUM_COLUMNS,
    {
        match self {
            Column::Pc => 0,
            Column::PcNextAux => 1,
            Column::InstrVal => 2,
            Column::PrevCtr => 3,
            Column::ValueA => 4,
            Column::ValueB => 5,
            Column::ValueC => 6,
            Column::Reg1TsPrev => 7,
            Column::Reg2TsPrev => 8,
            Column::Reg3TsPrev => 9,
            Column::Helper1 => 10,
            Column::ProgCtrCur => 11,
            Column::ProgCtrPrev => 12,
            Column::FinalPrgMemoryCtr => 13,
            Column::CReg1TsPrev => 14,
            Column::CReg2TsPrev => 15,
            Column::CReg3TsPrev => 16,
            Column::RamBaseAddr => 17,
            Column::Ram1TsPrev => 18,
            Column::Ram2TsPrev => 19,
            Column::Ram3TsPrev => 20,
            Column::Ram4TsPrev => 21,
            Column::Ram1TsPrevAux => 22,
            Column::Ram2TsPrevAux => 23,
            Column::Ram3TsPrevAux => 24,
            Column::Ram4TsPrevAux => 25,
            Column::Rem => 26,
            Column::Qt => 27,
            Column::RemDiff => 28,
            Column::RamInitFinalAddr => 29,
            Column::RamFinalCounter => 30,
            Column::Ram1ValCur => 31,
            Column::Ram2ValCur => 32,
            Column::Ram3ValCur => 33,
            Column::Ram4ValCur => 34,
            Column::Ram1ValPrev => 35,
            Column::Ram2ValPrev => 36,
            Column::Ram3ValPrev => 37,
            Column::Ram4ValPrev => 38,
            Column::RamFinalValue => 39,
            Column::OpC16_23 => 40,
            Column::OpC24_31 => 41,
            Column::IsLui => 42,
            Column::IsAuipc => 43,
        }
    }

    /// Number of limbs the column holds per row.
    pub fn limbs(self) -> (n: usize)
        ensures
            n as int == self.limbs_spec(),
            1 <= n <= WORD_SIZE,
    {
        if self.index() < 31 {
            WORD_SIZE
        } else {
            1
        }
    }
}

/// The word columns whose every limb is range-checked.
pub open spec fn word_columns() -> Seq<Column> {
    seq![
        Column::Pc,
        Column::PcNextAux,
        Column::InstrVal,
        Column::PrevCtr,
        Column::ValueA,
        Column::ValueB,
        Column::ValueC,
        Column::Reg1TsPrev,
        Column::Reg2TsPrev,
        Column::Reg3TsPrev,
        Column::Helper1,
        Column::ProgCtrCur,
        Column::ProgCtrPrev,
        Column::FinalPrgMemoryCtr,
        Column::CReg1TsPrev,
        Column::CReg2TsPrev,
        Column::CReg3TsPrev,
        Column::RamBaseAddr,
        Column::Ram1TsPrev,
        Column::Ram2TsPrev,
        Column::Ram3TsPrev,
        Column::Ram4TsPrev,
        Column::Ram1TsPrevAux,
        Column::Ram2TsPrevAux,
        Column::Ram3TsPrevAux,
        Column::Ram4TsPrevAux,
        Column::Rem,
        Column::Qt,
        Column::RemDiff,
        Column::RamInitFinalAddr,
        Column::RamFinalCounter,
    ]
}

/// The single-limb columns that are always range-checked.
pub open spec fn byte_columns() -> Seq<Column> {
    seq![
        Column::Ram1ValCur,
        Column::Ram2ValCur,
        Column::Ram3ValCur,
        Column::Ram4ValCur,
        Column::Ram1ValPrev,
        Column::Ram2ValPrev,
        Column::Ram3ValPrev,
        Column::Ram4ValPrev,
        Column::RamFinalValue,
    ]
}

/// The single-limb columns checked only where the U-type predicate holds.
pub open spec fn type_u_columns() -> Seq<Column> {
    seq![Column::OpC16_23, Column::OpC24_31]
}

/// One checked (column, limb) slot, with its conditionality.
#[derive(Clone, Copy, Debug, PartialEq, Eq, Structural)]
pub struct CheckedUnit {
    pub col: Column,
    pub limb: usize,
    pub conditional: bool,
}

/// The checked units contributed by a list of word columns: four limbs each.
pub open spec fn word_units(cols: Seq<Column>) -> Seq<CheckedUnit>
    decreases cols.len(),
{
    if cols.len() == 0 {
        Seq::empty()
    } else {
        word_units(cols.drop_last()) + seq![
            CheckedUnit { col: cols.last(), limb: 0, conditional: false },
            CheckedUnit { col: cols.last(), limb: 1, conditional: false },
            CheckedUnit { col: cols.last(), limb: 2, conditional: false },
            CheckedUnit { col: cols.last(), limb: 3, conditional: false },
        ]
    }
}

/// The checked units contributed by a list of single-limb columns.
pub open spec fn byte_units(cols: Seq<Column>, conditional: bool) -> Seq<CheckedUnit>
    decreases cols.len(),
{
    if cols.len() == 0 {
        Seq::empty()
    } else {
        byte_units(cols.drop_last(), conditional)
            + seq![CheckedUnit { col: cols.last(), limb: 0, conditional }]
    }
}

/// Every checked slot of the trace, in the order the chip walks them: word
/// limbs first, then byte columns, then the conditionally checked columns.
pub open spec fn checked_units_spec() -> Seq<CheckedUnit> {
    word_units(word_columns()) + byte_units(byte_columns(), false) + byte_units(
        type_u_columns(),
        true,
    )
}

/// Every checked unit names a real slot: its limb index lies inside its
/// column, and only the two immediate-operand columns are conditional.
pub open spec fn unit_wf(u: CheckedUnit) -> bool {
    0 <= u.limb < u.col.limbs_spec()
}

pub proof fn lemma_word_units_wf(cols: Seq<Column>)
    requires
        forall|i: int| 0 <= i < cols.len() ==> (#[trigger] cols[i]).limbs_spec() == WORD_SIZE as int,
    ensures
        forall|i: int| 0 <= i < word_units(cols).len() ==> unit_wf(#[trigger] word_units(cols)[i]),
        word_units(cols).len() == 4 * cols.len(),
    decreases cols.len(),
{
    if cols.len() > 0 {
        lemma_word_units_wf(cols.drop_last());
    }
}

pub proof fn lemma_byte_units_wf(cols: Seq<Column>, conditional: bool)
    ensures
        forall|i: int| 0 <= i < byte_units(cols, conditional).len() ==> unit_wf(
            #[trigger] byte_units(cols, conditional)[i],
        ),
        byte_units(cols, conditional).len() == cols.len(),
    decreases cols.len(),
{
    if cols.len() > 0 {
        lemma_byte_units_wf(cols.drop_last(), conditional);
    }
}

/// The full unit list is well formed and has one entry per checked limb.
pub proof fn lemma_checked_units_wf()
    ensures
        forall|i: int| 0 <= i < checked_units_spec().len() ==> unit_wf(
            #[trigger] checked_units_spec()[i],
        ),
        checked_units_spec().len() == 135,
{
    assert forall|i: int| 0 <= i < word_columns().len() implies (
    #[trigger] word_columns()[i]).limbs_spec() == WORD_SIZE as int by {
        assert(word_columns()[i].index_spec() < 31);
    }
    lemma_word_units_wf(word_columns());
    lemma_byte_units_wf(byte_columns(), false);
    lemma_byte_units_wf(type_u_columns(), true);
}

/// The word columns, as the chip's configuration data.
pub fn checked_word_columns() -> (r: Vec<Column>)
    ensures
        r@ == word_columns(),
{
    let r: Vec<Column> = vec![
        Column::Pc,
        Column::PcNextAux,
        Column::InstrVal,
        Column::PrevCtr,
        Column::ValueA,
        Column::ValueB,
        Column::ValueC,
        Column::Reg1TsPrev,
        Column::Reg2TsPrev,
        Column::Reg3TsPrev,
        Column::Helper1,
        Column::ProgCtrCur,
        Column::ProgCtrPrev,
        Column::FinalPrgMemoryCtr,
        Column::CReg1TsPrev,
        Column::CReg2TsPrev,
        Column::CReg3TsPrev,
        Column::RamBaseAddr,
        Column::Ram1TsPrev,
        Column::Ram2TsPrev,
        Column::Ram3TsPrev,
        Column::Ram4TsPrev,
        Column::Ram1TsPrevAux,
        Column::Ram2TsPrevAux,
        Column::Ram3TsPrevAux,
        Column::Ram4TsPrevAux,
        Column::Rem,
        Column::Qt,
        Column::RemDiff,
        Column::RamInitFinalAddr,
        Column::RamFinalCounter,
    ];
    proof {
        assert(r@ =~= word_columns());
    }
    r
}

/// The always-checked byte columns, as the chip's configuration data.
pub fn checked_byte_columns() -> (r: Vec<Column>)
    ensures
        r@ == byte_columns(),
{
    let r: Vec<Column> = vec![
        Column::Ram1ValCur,
        Column::Ram2ValCur,
        Column::Ram3ValCur,
        Column::Ram4ValCur,
        Column::Ram1ValPrev,
        Column::Ram2ValPrev,
        Column::Ram3ValPrev,
        Column::Ram4ValPrev,
        Column::RamFinalValue,
    ];
    proof {
        assert(r@ =~= byte_columns());
    }
    r
}

/// The conditionally checked columns, as the chip's configuration data.
pub fn type_u_checked_columns() -> (r: Vec<Column>)
    ensures
        r@ == type_u_columns(),
{
    let r: Vec<Column> = vec![Column::OpC16_23, Column::OpC24_31];
    proof {
        assert(r@ =~= type_u_columns());
    }
    r
}

/// Builds the full ordered unit list the chip walks during filling,
/// interaction-trace generation and constraint emission.
pub fn checked_units() -> (r: Vec<CheckedUnit>)
    ensures
        r@ == checked_units_spec(),
{
    let words = checked_word_columns();
    let bytes = checked_byte_columns();
    let cond = type_u_checked_columns();
    let mut r: Vec<CheckedUnit> = Vec::new();
    let mut i: usize = 0;
    while i < words.len()
        invariant
            i <= words.len(),
            words@ == word_columns(),
            r@ == word_units(words@.take(i as int)),
        decreases words.len() - i,
    {
        let c = words[i];
        r.push(CheckedUnit { col: c, limb: 0, conditional: false });
        r.push(CheckedUnit { col: c, limb: 1, conditional: false });
        r.push(CheckedUnit { col: c, limb: 2, conditional: false });
        r.push(CheckedUnit { col: c, limb: 3, conditional: false });
        proof {
            assert(words@.take(i + 1).drop_last() =~= words@.take(i as int));
            assert(r@ =~= word_units(words@.take(i + 1)));
        }
        i = i + 1;
    }
    proof {
        assert(words@.take(words@.len() as int) =~= words@);
    }
    let mut j: usize = 0;
    while j < bytes.len()
        invariant
            j <= bytes.len(),
            bytes@ == byte_columns(),
            r@ == word_units(word_columns()) + byte_units(bytes@.take(j as int), false),
        decreases bytes.len() - j,
    {
        r.push(CheckedUnit { col: bytes[j], limb: 0, conditional: false });
        proof {
            assert(bytes@.take(j + 1).drop_last() =~= bytes@.take(j as int));
            assert(r@ =~= word_units(word_columns()) + byte_units(bytes@.take(j + 1), false));
        }
        j = j + 1;
    }
    proof {
        assert(bytes@.take(bytes@.len() as int) =~= bytes@);
    }
    let mut k: usize = 0;
    while k < cond.len()
        invariant
            k <= cond.len(),
            cond@ == type_u_columns(),
            r@ == word_units(word_columns()) + byte_units(byte_columns(), false) + byte_units(
                cond@.take(k as int),
                true,
            ),
        decreases cond.len() - k,
    {
        r.push(CheckedUnit { col: cond[k], limb: 0, conditional: true });
        proof {
            assert(cond@.take(k + 1).drop_last() =~= cond@.take(k as int));
            assert(r@ =~= word_units(word_columns()) + byte_units(byte_columns(), false)
                + byte_units(cond@.take(k + 1), true));
        }
        k = k + 1;
    }
    proof {
        assert(cond@.take(cond@.len() as int) =~= cond@);
    }
    r
}

} // verus!
