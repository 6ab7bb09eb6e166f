use range256::chip::{Range256Chip, SideNote};
use range256::virtual_column::IsTypeU;
use range256::columns::Column;
use range256::field::Fp;
use range256::logup::{ConstraintEvaluator, LogupTraceGenerator};
use range256::lookups::{AllLookupElements, Channel};
use range256::sums::claimed_sum_difference;
use range256::trace::TracesBuilder;

const LOG_SIZE: u32 = 5;

fn word_pattern(row_idx: usize) -> [u8; 4] {
    [
        row_idx as u8,
        (row_idx + 1) as u8,
        (row_idx + 2) as u8,
        (row_idx + 3) as u8,
    ]
}

fn run_claimed_sum(traces: TracesBuilder, side_note: &SideNote, seed: u32) -> Fp {
    let finalized = traces.finalize();
    let mut channel = Channel::new(seed);
    let mut all_elements = AllLookupElements::new();
    Range256Chip::draw_lookup_elements(&mut all_elements, &mut channel);
    let mut gen = LogupTraceGenerator::new(finalized.num_rows());
    Range256Chip::fill_interaction_trace(&mut gen, &finalized, &all_elements);
    let multiplicities = side_note.finalize_multiplicities();
    let z = all_elements.as_range256().challenge_fp();
    claimed_sum_difference(&gen, &multiplicities, z).expect("inverse check failed")
}

#[test]
fn test_range256_chip_success() {
    let mut traces = TracesBuilder::new(LOG_SIZE);
    let mut side_note = SideNote::new(true);
    let rows: usize = traces.num_rows();
    for row_idx in 0..rows {
        let buf: [u8; 4] = word_pattern(row_idx);
        traces.fill_columns_bytes(row_idx, buf, Column::ValueA);
        traces.fill_columns_bytes(row_idx, buf, Column::ValueB);
        traces.fill_columns_bytes(row_idx, buf, Column::ValueC);
        let r = Range256Chip::fill_main_trace(&mut traces, row_idx, &mut side_note);
        assert!(r.is_ok());
    }
    let diff = run_claimed_sum(traces, &side_note, 12345);
    assert_eq!(diff.value(), 0);
}

#[test]
fn test_range256_chip_fail_out_of_range_release() {
    // production-style build: the out-of-range value is not asserted on,
    // the claimed sum silently breaks instead
    let mut traces = TracesBuilder::new(LOG_SIZE);
    let mut side_note = SideNote::new(false);
    let rows: usize = traces.num_rows();
    for row_idx in 0..rows {
        let buf: [u32; 4] = [
            row_idx as u32 + 1,
            row_idx as u32 + 2,
            row_idx as u32 + 3,
            if row_idx == 0 { 256 } else { row_idx as u32 + 4 },
        ];
        traces.fill_columns_base_field(row_idx, buf, Column::ValueB);
        let r = Range256Chip::fill_main_trace(&mut traces, row_idx, &mut side_note);
        assert!(r.is_ok());
    }
    let diff = run_claimed_sum(traces, &side_note, 12345);
    assert_ne!(diff.value(), 0);
}

#[test]
fn test_multiplicity_counts_match_pattern() {
    let mut traces = TracesBuilder::new(LOG_SIZE);
    let mut side_note = SideNote::new(true);
    let rows: usize = traces.num_rows();
    for row_idx in 0..rows {
        let buf: [u8; 4] = word_pattern(row_idx);
        traces.fill_columns_bytes(row_idx, buf, Column::ValueA);
        traces.fill_columns_bytes(row_idx, buf, Column::ValueB);
        traces.fill_columns_bytes(row_idx, buf, Column::ValueC);
        let r = Range256Chip::fill_main_trace(&mut traces, row_idx, &mut side_note);
        assert!(r.is_ok());
    }
    // the three filled word columns contribute (row + limb) values; every
    // other checked column stays zero: 28 word columns * 4 limbs + 9 byte
    // columns = 121 zero limbs per row
    for v in 0..256u32 {
        let mut expected: u32 = 0;
        for row_idx in 0..rows {
            for limb in 0..4usize {
                if (row_idx + limb) as u32 == v {
                    expected += 3;
                }
            }
        }
        if v == 0 {
            expected += (rows as u32) * 121;
        }
        assert_eq!(side_note.multiplicity(v), expected, "value {}", v);
    }
    // grand total: 133 unconditional checked limbs per row, no
    // predicate-true rows
    let mut total: u64 = 0;
    for v in 0..256u32 {
        total += side_note.multiplicity(v) as u64;
    }
    assert_eq!(total, (rows as u64) * 133);
}

#[test]
fn test_fill_is_noop_before_last_row() {
    let mut traces = TracesBuilder::new(LOG_SIZE);
    let mut side_note = SideNote::new(true);
    let rows: usize = traces.num_rows();
    for row_idx in 0..rows {
        let buf: [u8; 4] = word_pattern(row_idx);
        traces.fill_columns_bytes(row_idx, buf, Column::ValueA);
    }
    // every call but the final-row one is a no-op: omitting the final call
    // leaves the table undercounted (here: empty)
    for row_idx in 0..rows - 1 {
        let r = Range256Chip::fill_main_trace(&mut traces, row_idx, &mut side_note);
        assert!(r.is_ok());
    }
    for v in 0..256u32 {
        assert_eq!(side_note.multiplicity(v), 0);
    }
    // the final-row call triggers exactly one full sweep
    let r = Range256Chip::fill_main_trace(&mut traces, rows - 1, &mut side_note);
    assert!(r.is_ok());
    let mut total: u64 = 0;
    for v in 0..256u32 {
        total += side_note.multiplicity(v) as u64;
    }
    assert_eq!(total, (rows as u64) * 133);
}

#[test]
fn test_strict_mode_reports_violation_and_leaves_table() {
    let mut traces = TracesBuilder::new(LOG_SIZE);
    let mut side_note = SideNote::new(true);
    let rows: usize = traces.num_rows();
    traces.fill_columns_base_field(7, [1, 2, 300, 4], Column::ValueC);
    for row_idx in 0..rows - 1 {
        let r = Range256Chip::fill_main_trace(&mut traces, row_idx, &mut side_note);
        assert!(r.is_ok());
    }
    let r = Range256Chip::fill_main_trace(&mut traces, rows - 1, &mut side_note);
    let violation = r.expect_err("out-of-range cell must be reported in strict mode");
    assert_eq!(violation.col, Column::ValueC);
    assert_eq!(violation.limb, 2);
    assert_eq!(violation.row, 7);
    assert_eq!(violation.value, 300);
    for v in 0..256u32 {
        assert_eq!(side_note.multiplicity(v), 0);
    }
}

#[test]
fn test_conditional_columns_counted_on_predicate_rows() {
    let mut traces = TracesBuilder::new(LOG_SIZE);
    let mut side_note = SideNote::new(true);
    let rows: usize = traces.num_rows();
    // rows 3 and 4 are U-type; immediate-operand bytes there must be counted
    traces.fill_column_byte(3, 1, Column::IsLui);
    traces.fill_column_byte(4, 1, Column::IsAuipc);
    traces.fill_column_byte(3, 200, Column::OpC16_23);
    traces.fill_column_byte(3, 201, Column::OpC24_31);
    traces.fill_column_byte(4, 202, Column::OpC16_23);
    traces.fill_column_byte(4, 203, Column::OpC24_31);
    // the same bytes on a non-U-type row must not be counted
    traces.fill_column_byte(9, 200, Column::OpC16_23);
    for row_idx in 0..rows {
        let r = Range256Chip::fill_main_trace(&mut traces, row_idx, &mut side_note);
        assert!(r.is_ok());
    }
    assert_eq!(side_note.multiplicity(200), 1);
    assert_eq!(side_note.multiplicity(201), 1);
    assert_eq!(side_note.multiplicity(202), 1);
    assert_eq!(side_note.multiplicity(203), 1);
    // grand total: 133 unconditional limbs per row plus 2 per U-type row
    let mut total: u64 = 0;
    for v in 0..256u32 {
        total += side_note.multiplicity(v) as u64;
    }
    assert_eq!(total, (rows as u64) * 133 + 2 * 2);
    // the end-to-end sum check still passes: conditional occurrences carry
    // the predicate as numerator on exactly the counted rows
    let diff = run_claimed_sum(traces, &side_note, 98765);
    assert_eq!(diff.value(), 0);
}

#[test]
fn test_predicate_scalar_and_batched_paths_agree() {
    let mut traces = TracesBuilder::new(LOG_SIZE);
    let rows: usize = traces.num_rows();
    for row_idx in 0..rows {
        if row_idx % 3 == 0 {
            traces.fill_column_byte(row_idx, 1, Column::IsLui);
        }
        if row_idx % 5 == 0 {
            traces.fill_column_byte(row_idx, 1, Column::IsAuipc);
        }
    }
    let mut scalar: Vec<u32> = Vec::new();
    for row_idx in 0..rows {
        scalar.push(IsTypeU::read_from_traces_builder(&traces, row_idx).value());
    }
    let finalized = traces.finalize();
    for vec_row in 0..rows / 16 {
        for lane in 0..16usize {
            let batched = IsTypeU::read_from_finalized_traces(&finalized, vec_row, lane);
            assert_eq!(batched.value(), scalar[vec_row * 16 + lane]);
            let eval = IsTypeU::eval(&finalized, vec_row * 16 + lane);
            assert_eq!(eval.value(), scalar[vec_row * 16 + lane]);
        }
    }
}

#[test]
fn test_constraints_mirror_interaction_columns() {
    let mut traces = TracesBuilder::new(LOG_SIZE);
    let mut side_note = SideNote::new(true);
    let rows: usize = traces.num_rows();
    traces.fill_column_byte(2, 1, Column::IsLui);
    traces.fill_column_byte(2, 77, Column::OpC16_23);
    for row_idx in 0..rows {
        let buf: [u8; 4] = word_pattern(row_idx);
        traces.fill_columns_bytes(row_idx, buf, Column::ValueA);
        let r = Range256Chip::fill_main_trace(&mut traces, row_idx, &mut side_note);
        assert!(r.is_ok());
    }
    let finalized = traces.finalize();
    let mut channel = Channel::new(4242);
    let mut all_elements = AllLookupElements::new();
    Range256Chip::draw_lookup_elements(&mut all_elements, &mut channel);
    let mut gen = LogupTraceGenerator::new(finalized.num_rows());
    Range256Chip::fill_interaction_trace(&mut gen, &finalized, &all_elements);
    // one interaction column per checked slot: 31 * 4 + 9 + 2
    assert_eq!(gen.col_count(), 135);
    let lookup = all_elements.as_range256();
    for row in [0usize, 2, 17] {
        let mut eval = ConstraintEvaluator::new();
        Range256Chip::add_constraints(&mut eval, &finalized, row, &all_elements);
        assert_eq!(eval.entry_count(), 135);
        for j in 0..135usize {
            let (num, den) = gen.frac_at(j, row);
            let (cnum, cval) = eval.entry_at(j);
            assert_eq!(num.value(), cnum.value());
            assert_eq!(den.value(), lookup.combine(cval).value());
        }
    }
}

#[test]
fn test_challenge_registry_round_trip() {
    let mut channel_a = Channel::new(777);
    let mut channel_b = Channel::new(777);
    let mut all_elements = AllLookupElements::new();
    Range256Chip::draw_lookup_elements(&mut all_elements, &mut channel_a);
    // the transcript is deterministic, so the registered challenge matches a
    // twin transcript's draw, and later phases read back the same value
    let direct = channel_b.draw();
    assert_eq!(
        all_elements.as_range256().challenge_fp().value(),
        direct.value()
    );
}
