use fence_chip::air::shard_table;
use fence_chip::air::ChipErrorKind;
use fence_chip::air::MachineAir;
use fence_chip::event::FenceEvent;
use fence_chip::fence::recover_events;
use fence_chip::fence::FenceChip;
use fence_chip::fence::FenceCols;
use fence_chip::fence::NUM_FENCE_COLS;
use fence_chip::field::FIELD_ORDER;
use fence_chip::opcode::OpcodeTable;
use fence_chip::record::ExecutionRecord;
use fence_chip::shape::Shape;
use p3_baby_bear::BabyBear;
use p3_field::AbstractField;
use p3_field::PrimeField32;
use p3_matrix::dense::RowMajorMatrix;
use p3_matrix::Matrix;

fn record_of(pcs: &[u32]) -> ExecutionRecord {
    let mut record = ExecutionRecord::default();
    for pc in pcs {
        record.fence_events.push(FenceEvent::new(*pc));
    }
    record
}

fn with_shape(mut record: ExecutionRecord, entries: &[(&str, usize)]) -> ExecutionRecord {
    let mut shape = Shape::new();
    for (chip, log2_rows) in entries {
        shape.insert(chip, *log2_rows);
    }
    record.shape = Some(shape);
    record
}

#[test]
fn test_generate_trace() {
    let record = ExecutionRecord::default();

    let chip = FenceChip::default();
    let trace: RowMajorMatrix<u32> =
        chip.generate_trace(&record, &mut ExecutionRecord::default()).unwrap();

    // Verify the trace has the correct shape
    assert_eq!(trace.width(), NUM_FENCE_COLS);
}

#[test]
fn test_prove_fence() {
    let record = ExecutionRecord::default();

    let chip = FenceChip::default();
    let trace: RowMajorMatrix<u32> =
        chip.generate_trace(&record, &mut ExecutionRecord::default()).unwrap();
    let constraints = chip.eval(&OpcodeTable { fence: 38 });
    assert_eq!(constraints.width, trace.width());
    for r in 0..trace.height() {
        let row: Vec<u32> = trace.row(r).collect();
        assert!(constraints.check_row(&row));
    }
}

#[test]
fn empty_record_without_shape_gives_one_padding_row() {
    let record = ExecutionRecord::default();
    let chip = FenceChip::default();
    let trace = chip.generate_trace(&record, &mut ExecutionRecord::default()).unwrap();
    assert_eq!(trace.height(), 1);
    assert_eq!(trace.values, vec![0, 0]);
    assert_eq!(chip.num_rows(&record), Some(1));
}

#[test]
fn three_events_without_shape_give_four_rows() {
    let record = record_of(&[100, 104, 108]);
    let chip = FenceChip::default();
    let trace = chip.generate_trace(&record, &mut ExecutionRecord::default()).unwrap();
    assert_eq!(trace.height(), 4);
    assert_eq!(trace.width(), 2);
    assert_eq!(trace.values, vec![100, 1, 104, 1, 108, 1, 0, 0]);
    assert_eq!(chip.num_rows(&record), Some(4));
    assert!(chip.included(&record));
}

#[test]
fn shape_fixes_eight_rows() {
    let record = with_shape(record_of(&[100, 104, 108]), &[("Fence", 3), ("Add", 2)]);
    let chip = FenceChip::default();
    let trace = chip.generate_trace(&record, &mut ExecutionRecord::default()).unwrap();
    assert_eq!(trace.height(), 8);
    assert_eq!(
        trace.values,
        vec![100, 1, 104, 1, 108, 1, 0, 0, 0, 0, 0, 0, 0, 0, 0, 0]
    );
    assert_eq!(chip.num_rows(&record), Some(8));
    assert!(chip.included(&record));
}

#[test]
fn no_events_and_no_shape_is_not_included() {
    let record = ExecutionRecord::default();
    let chip = FenceChip::default();
    assert!(!chip.included(&record));
    assert!(shard_table(&chip, &record).unwrap().is_none());
}

#[test]
fn shape_smaller_than_events_is_an_error() {
    let record = with_shape(record_of(&[0, 4, 8, 12, 16]), &[("Fence", 1)]);
    let chip = FenceChip::default();
    let error = chip.generate_trace(&record, &mut ExecutionRecord::default()).unwrap_err();
    assert_eq!(error.chip, "Fence");
    assert_eq!(error.kind, ChipErrorKind::ShapeTooSmall { log2_rows: 1, events: 5 });
    assert_eq!(chip.num_rows(&record), None);
    let error = shard_table(&chip, &record).unwrap_err();
    assert_eq!(error.kind, ChipErrorKind::ShapeTooSmall { log2_rows: 1, events: 5 });
}

#[test]
fn shape_decides_inclusion() {
    let chip = FenceChip::default();
    // Forced in with no events: an all-padding table.
    let forced = with_shape(ExecutionRecord::default(), &[("Fence", 2)]);
    assert!(chip.included(&forced));
    let trace = shard_table(&chip, &forced).unwrap().unwrap();
    assert_eq!(trace.height(), 4);
    assert!(trace.values.iter().all(|v| *v == 0));
    // Left out although it has events.
    let left_out = with_shape(record_of(&[100]), &[("Add", 2)]);
    assert!(!chip.included(&left_out));
    assert!(shard_table(&chip, &left_out).unwrap().is_none());
}

#[test]
fn shape_without_entry_lets_the_chip_size_itself() {
    let record = with_shape(record_of(&[100, 104, 108]), &[("Add", 5)]);
    let chip = FenceChip::default();
    let trace = chip.generate_trace(&record, &mut ExecutionRecord::default()).unwrap();
    assert_eq!(trace.height(), 4);
}

#[test]
fn shape_entry_too_large_for_the_machine_is_an_error() {
    let record = with_shape(record_of(&[100]), &[("Fence", 200)]);
    let chip = FenceChip::default();
    let error = chip.generate_trace(&record, &mut ExecutionRecord::default()).unwrap_err();
    assert_eq!(error.kind, ChipErrorKind::TableTooLarge);
    assert_eq!(chip.num_rows(&record), None);
}

#[test]
fn program_counter_outside_the_field_is_an_error() {
    let record = record_of(&[100, FIELD_ORDER, 108, FIELD_ORDER + 4]);
    let chip = FenceChip::default();
    let error = chip.generate_trace(&record, &mut ExecutionRecord::default()).unwrap_err();
    assert_eq!(error.chip, "Fence");
    assert_eq!(error.kind, ChipErrorKind::ValueOutOfField { row: 1 });
    let largest = record_of(&[FIELD_ORDER - 1]);
    let trace = chip.generate_trace(&largest, &mut ExecutionRecord::default()).unwrap();
    assert_eq!(trace.values, vec![FIELD_ORDER - 1, 1]);
}

#[test]
fn trace_generation_leaves_the_output_record_alone() {
    let record = record_of(&[100, 104]);
    let chip = FenceChip::default();
    let mut output = record_of(&[7]);
    chip.generate_trace(&record, &mut output).unwrap();
    assert_eq!(output.fence_events, vec![FenceEvent::new(7)]);
    assert!(output.shape.is_none());
}

#[test]
fn dependencies_are_generated_once() {
    let record = record_of(&[100, 104]);
    let chip = FenceChip::default();
    let mut once = record_of(&[7]);
    chip.generate_dependencies(&record, &mut once);
    let mut twice = record_of(&[7]);
    chip.generate_dependencies(&record, &mut twice);
    chip.generate_dependencies(&record, &mut twice);
    assert_eq!(once.fence_events, twice.fence_events);
    assert_eq!(once.fence_events, vec![FenceEvent::new(7)]);
}

#[test]
fn table_decodes_back_to_the_events() {
    let pcs = [100, 104, 108, 4, 4, 0];
    let record = with_shape(record_of(&pcs), &[("Fence", 4)]);
    let chip = FenceChip::default();
    let trace = chip.generate_trace(&record, &mut ExecutionRecord::default()).unwrap();
    assert_eq!(trace.height(), 16);
    assert_eq!(recover_events(&trace), Some(record.fence_events.clone()));
    for r in 0..trace.height() {
        let cols = FenceCols::load(&trace.values, r);
        if r < pcs.len() {
            assert_eq!(cols.decode(), Some(FenceEvent::new(pcs[r])));
        } else {
            assert_eq!(cols, FenceCols { pc: 0, is_fence: 0 });
            assert_eq!(cols.decode(), None);
        }
    }
}

#[test]
fn recovery_refuses_a_matrix_of_another_width() {
    let matrix = RowMajorMatrix::new(vec![1u32, 1, 1, 2, 1, 1], 3);
    assert_eq!(recover_events(&matrix), None);
    let matrix = RowMajorMatrix::new(vec![9u32, 1, 5, 0, 7, 1], 2);
    assert_eq!(
        recover_events(&matrix),
        Some(vec![FenceEvent::new(9), FenceEvent::new(7)])
    );
}

#[test]
fn cols_store_and_load_agree() {
    let mut values = vec![0u32; 6];
    FenceCols { pc: 104u32, is_fence: 1u32 }.store(&mut values, 1);
    assert_eq!(values, vec![0, 0, 104, 1, 0, 0]);
    assert_eq!(FenceCols::load(&values, 1), FenceCols { pc: 104, is_fence: 1 });
    assert_eq!(FenceCols::load(&values, 2), FenceCols { pc: 0, is_fence: 0 });
}

#[test]
fn chip_describes_itself() {
    let chip = FenceChip::default();
    assert_eq!(chip.name(), "Fence");
    assert_eq!(chip.width(), 2);
    assert_eq!(chip.width(), NUM_FENCE_COLS);
    assert!(chip.local_only());
}

#[test]
fn cells_are_canonical_elements_of_the_field() {
    assert_eq!(FIELD_ORDER, BabyBear::ORDER_U32);
    let record = record_of(&[100, FIELD_ORDER - 1, 4]);
    let chip = FenceChip::default();
    let trace = chip.generate_trace(&record, &mut ExecutionRecord::default()).unwrap();
    let elements: Vec<BabyBear> =
        trace.values.iter().map(|v| BabyBear::from_canonical_u32(*v)).collect();
    let back: Vec<u32> = elements.iter().map(|e| e.as_canonical_u32()).collect();
    assert_eq!(back, trace.values);
    assert_eq!(elements[1], BabyBear::one());
    assert_eq!(elements[6], BabyBear::zero());
}

#[test]
fn failures_name_the_chip_and_the_mismatch() {
    let record = with_shape(record_of(&[0, 4, 8, 12, 16]), &[("Fence", 1)]);
    let chip = FenceChip::default();
    let error = chip.generate_trace(&record, &mut ExecutionRecord::default()).unwrap_err();
    assert_eq!(
        error.message(),
        "chip Fence: the shape fixes a log2 row count of 1, too few rows for 5 events"
    );
    assert_eq!(
        ChipErrorKind::ValueOutOfField { row: 1204 }.message(),
        "the event of row 1204 holds a value outside the field"
    );
    assert_eq!(
        ChipErrorKind::TableTooLarge.message(),
        "the table has more cells than can be counted"
    );
}

#[test]
fn shard_tables_come_all_or_none() {
    let chips = vec![FenceChip::default(), FenceChip::default()];
    let record = with_shape(record_of(&[100, 104, 108]), &[("Fence", 2)]);
    let tables = fence_chip::air::shard_tables(&chips, &record).unwrap();
    assert_eq!(tables.len(), 2);
    assert_eq!(tables[0].as_ref().unwrap().values, vec![100, 1, 104, 1, 108, 1, 0, 0]);
    assert_eq!(tables[1].as_ref().unwrap().height(), 4);

    let excluded = ExecutionRecord::default();
    let tables = fence_chip::air::shard_tables(&chips, &excluded).unwrap();
    assert_eq!(tables, vec![None, None]);

    let too_small = with_shape(record_of(&[100, 104, 108]), &[("Fence", 1)]);
    let error = fence_chip::air::shard_tables(&chips, &too_small).unwrap_err();
    assert_eq!(error.chip, "Fence");
    assert_eq!(error.kind, ChipErrorKind::ShapeTooSmall { log2_rows: 1, events: 3 });

    let none: Vec<FenceChip> = Vec::new();
    assert!(fence_chip::air::shard_tables(&none, &too_small).unwrap().is_empty());
}

#[test]
fn default_row_is_a_padding_row() {
    let cols: FenceCols<u32> = FenceCols::default();
    assert_eq!(cols, FenceCols { pc: 0, is_fence: 0 });
    assert_eq!(cols.decode(), None);
}
