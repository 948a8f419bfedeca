use fence_chip::air::MachineAir;
use fence_chip::catalog::CatalogError;
use fence_chip::catalog::ChipProfile;
use fence_chip::catalog::SelectError;
use fence_chip::catalog::ShapeCatalog;
use fence_chip::event::FenceEvent;
use fence_chip::fence::FenceChip;
use fence_chip::record::ExecutionRecord;
use p3_matrix::Matrix;

fn profile(name: &str, width: usize, choices: &[Option<usize>]) -> ChipProfile {
    ChipProfile { name: String::from(name), width, log2_choices: choices.to_vec() }
}

fn two_chips() -> Vec<ChipProfile> {
    vec![
        profile("Fence", 2, &[None, Some(0), Some(2), Some(3)]),
        profile("Add", 3, &[Some(1), Some(2)]),
    ]
}

#[test]
fn catalog_enumerates_what_fits_the_budget() {
    // Areas: Fence 0, 2, 8, 16; Add 6, 12.
    let catalog = ShapeCatalog::new(two_chips(), 20).unwrap();
    assert_eq!(catalog.shard_budget(), 20);
    let mut found: Vec<(Vec<Option<usize>>, usize)> = Vec::new();
    for k in 0..catalog.len() {
        let entry = catalog.entry(k).unwrap();
        found.push((entry.log2_rows.clone(), entry.area));
    }
    assert_eq!(
        found,
        vec![
            (vec![None, Some(1)], 6),
            (vec![None, Some(2)], 12),
            (vec![Some(0), Some(1)], 8),
            (vec![Some(0), Some(2)], 14),
            (vec![Some(2), Some(1)], 14),
            (vec![Some(2), Some(2)], 20),
        ]
    );
    assert!(catalog.entry(catalog.len()).is_none());
}

#[test]
fn no_shape_exceeds_the_budget() {
    for budget in [0usize, 5, 6, 13, 14, 20, 21, 22, 27, 28, 1000] {
        let catalog = ShapeCatalog::new(two_chips(), budget).unwrap();
        let mut within = 0;
        for fence in [0usize, 2, 8, 16] {
            for add in [6usize, 12] {
                if fence + add <= budget {
                    within += 1;
                }
            }
        }
        assert_eq!(catalog.len(), within);
        for k in 0..catalog.len() {
            assert!(catalog.entry(k).unwrap().area <= budget);
        }
    }
}

#[test]
fn catalog_of_no_chips_holds_the_empty_shape() {
    let catalog = ShapeCatalog::new(Vec::new(), 0).unwrap();
    assert_eq!(catalog.len(), 1);
    assert_eq!(catalog.entry(0).unwrap().area, 0);
    assert_eq!(catalog.select_index(&Vec::new()), Ok(0));
}

#[test]
fn huge_row_counts_stay_out() {
    let chips = vec![profile("Fence", 2, &[Some(1), Some(63), Some(64), Some(5000)])];
    let catalog = ShapeCatalog::new(chips, usize::MAX).unwrap();
    assert_eq!(catalog.len(), 1);
    assert_eq!(catalog.entry(0).unwrap().area, 4);
    // A chip without columns commits nothing, whatever its rows.
    let chips = vec![profile("Fence", 0, &[Some(5000)])];
    let catalog = ShapeCatalog::new(chips, 0).unwrap();
    assert_eq!(catalog.len(), 1);
    assert_eq!(catalog.entry(0).unwrap().area, 0);
}

#[test]
fn duplicate_chip_names_are_refused() {
    let chips = vec![
        profile("Fence", 2, &[Some(1)]),
        profile("Add", 3, &[Some(1)]),
        profile("Fence", 4, &[Some(2)]),
    ];
    assert_eq!(ShapeCatalog::new(chips, 100).unwrap_err(), CatalogError::DuplicateChip);
}

#[test]
fn selection_takes_the_smallest_covering_shape() {
    let catalog = ShapeCatalog::new(two_chips(), 20).unwrap();
    // No fence events, two adds: the smallest area is 6.
    assert_eq!(catalog.select_index(&vec![0, 2]), Ok(0));
    // One fence event, one add.
    assert_eq!(catalog.select_index(&vec![1, 1]), Ok(2));
    // Three fence events need four rows.
    assert_eq!(catalog.select_index(&vec![3, 2]), Ok(4));
    // Two shapes of area 14; only the second has four fence rows.
    assert_eq!(catalog.select_index(&vec![2, 0]), Ok(4));
    // Of two shapes of one area the first is taken.
    assert_eq!(catalog.select_index(&vec![1, 3]), Ok(3));
    assert_eq!(catalog.select_index(&vec![4, 4]), Ok(5));
}

#[test]
fn selection_fails_where_nothing_covers() {
    let catalog = ShapeCatalog::new(two_chips(), 20).unwrap();
    assert_eq!(catalog.select_index(&vec![5, 1]), Err(SelectError::NoCoveringShape));
    assert_eq!(catalog.select_index(&vec![0, 5]), Err(SelectError::NoCoveringShape));
    assert_eq!(catalog.select_index(&vec![1]), Err(SelectError::NoCoveringShape));
    assert_eq!(catalog.select(&vec![5, 1]).unwrap_err(), SelectError::NoCoveringShape);
    let empty = ShapeCatalog::new(two_chips(), 5).unwrap();
    assert_eq!(empty.len(), 0);
    assert_eq!(empty.select_index(&vec![0, 0]), Err(SelectError::NoCoveringShape));
}

#[test]
fn selected_shape_names_the_chips() {
    let catalog = ShapeCatalog::new(two_chips(), 20).unwrap();
    let shape = catalog.select(&vec![3, 2]).unwrap();
    assert_eq!(shape.log2_height("Fence"), Some(2));
    assert_eq!(shape.log2_height("Add"), Some(1));
    let shape = catalog.select(&vec![0, 3]).unwrap();
    assert_eq!(shape.log2_height("Fence"), None);
    assert!(!shape.included("Fence"));
    assert_eq!(shape.log2_height("Add"), Some(2));
    assert!(catalog.shape_at(6).is_none());
    let shape = catalog.shape_at(5).unwrap();
    assert_eq!(shape.log2_height("Fence"), Some(2));
    assert_eq!(shape.log2_height("Add"), Some(2));
}

#[test]
fn fixed_shape_sizes_the_table() {
    let catalog = ShapeCatalog::new(two_chips(), 20).unwrap();
    let mut record = ExecutionRecord::default();
    for pc in [100u32, 104, 108] {
        record.fence_events.push(FenceEvent::new(pc));
    }
    assert_eq!(catalog.demand(&record), vec![3, 0]);
    assert_eq!(record.event_count("Fence"), 3);
    assert_eq!(record.event_count("Add"), 0);
    catalog.fix_shape(&mut record).unwrap();
    assert_eq!(record.fence_events.len(), 3);
    assert_eq!(record.fixed_log2_rows("Fence"), Some(2));
    assert_eq!(record.fixed_log2_rows("Add"), Some(1));
    let chip = FenceChip::default();
    let trace = chip.generate_trace(&record, &mut ExecutionRecord::default()).unwrap();
    assert_eq!(trace.height(), 4);
}

#[test]
fn shape_that_cannot_be_fixed_leaves_the_record() {
    let catalog = ShapeCatalog::new(two_chips(), 20).unwrap();
    let mut record = ExecutionRecord::default();
    for i in 0..9u32 {
        record.fence_events.push(FenceEvent::new(4 * i));
    }
    assert_eq!(catalog.fix_shape(&mut record), Err(SelectError::NoCoveringShape));
    assert!(record.shape.is_none());
    assert_eq!(record.fence_events.len(), 9);
}

#[test]
fn selection_failure_has_a_message() {
    assert_eq!(
        SelectError::NoCoveringShape.message(),
        "no shape of the catalog covers the event counts of the shard"
    );
}
