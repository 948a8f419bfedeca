use fence_chip::air::MachineAir;
use fence_chip::constraint::Constraints;
use fence_chip::constraint::Expr;
use fence_chip::constraint::InstructionReceipt;
use fence_chip::constraint::Var;
use fence_chip::event::FenceEvent;
use fence_chip::fence::FenceChip;
use fence_chip::fence::FenceCols;
use fence_chip::field::field_add;
use fence_chip::field::field_mul;
use fence_chip::field::field_sub;
use fence_chip::field::FIELD_ORDER;
use fence_chip::interaction::check_trace;
use fence_chip::interaction::ledger;
use fence_chip::interaction::read_row;
use fence_chip::opcode::OpcodeTable;
use fence_chip::opcode::DEFAULT_PC_INC;
use fence_chip::record::ExecutionRecord;
use fence_chip::shape::Shape;
use p3_baby_bear::BabyBear;
use p3_field::AbstractField;
use p3_field::PrimeField32;
use p3_matrix::dense::RowMajorMatrix;

fn slot(column: usize) -> Box<Expr> {
    Box::new(Expr::Slot(Var { column }))
}

fn dispatch(pc: u32, opcode: u32) -> InstructionReceipt<u32> {
    InstructionReceipt {
        pc,
        next_pc: (pc + 4) % FIELD_ORDER,
        opcode,
        a: 0,
        b: 0,
        c: 0,
        op_a_0: 1,
        op_a_immutable: 0,
        is_memory: 0,
        is_syscall: 0,
        is_halt: 0,
        multiplicity: 1,
    }
}

#[test]
fn field_operations_agree_with_the_field() {
    let samples = [0u32, 1, 2, 4, 1000, FIELD_ORDER / 2, FIELD_ORDER - 2, FIELD_ORDER - 1];
    for a in samples {
        for b in samples {
            let x = BabyBear::from_canonical_u32(a);
            let y = BabyBear::from_canonical_u32(b);
            assert_eq!(field_add(a, b), (x + y).as_canonical_u32());
            assert_eq!(field_sub(a, b), (x - y).as_canonical_u32());
            assert_eq!(field_mul(a, b), (x * y).as_canonical_u32());
        }
    }
    assert_eq!(field_add(FIELD_ORDER - 1, 1), 0);
    assert_eq!(field_sub(0, 1), FIELD_ORDER - 1);
    assert_eq!(field_mul(FIELD_ORDER - 1, FIELD_ORDER - 1), 1);
}

#[test]
fn expressions_evaluate_in_the_field() {
    let row = vec![7u32, 1, FIELD_ORDER - 1];
    assert_eq!(Expr::zero().evaluate(&row), 0);
    assert_eq!(Expr::one().evaluate(&row), 1);
    assert_eq!(Expr::Constant(FIELD_ORDER + 5).evaluate(&row), 5);
    assert_eq!(Expr::Slot(Var { column: 0 }).evaluate(&row), 7);
    assert_eq!(Expr::Sum(slot(0), slot(2)).evaluate(&row), 6);
    assert_eq!(Expr::Difference(slot(1), slot(0)).evaluate(&row), FIELD_ORDER - 6);
    assert_eq!(Expr::Product(slot(0), slot(2)).evaluate(&row), FIELD_ORDER - 7);
    let nested = Expr::Product(slot(0), Box::new(Expr::Difference(slot(0), Box::new(Expr::one()))));
    assert_eq!(nested.evaluate(&row), 42);
}

#[test]
fn boolean_constraint_accepts_zero_and_one_only() {
    let mut constraints = Constraints::new(2);
    constraints.assert_bool(Var { column: 1 });
    assert_eq!(constraints.zeros.len(), 1);
    assert!(constraints.check_row(&vec![5, 0]));
    assert!(constraints.check_row(&vec![5, 1]));
    assert!(!constraints.check_row(&vec![5, 2]));
    assert!(!constraints.check_row(&vec![0, FIELD_ORDER - 1]));
    constraints.assert_zero(Expr::Difference(slot(0), Box::new(Expr::Constant(5))));
    assert!(constraints.check_row(&vec![5, 1]));
    assert!(!constraints.check_row(&vec![6, 1]));
}

#[test]
fn fence_chip_declares_its_constraints() {
    let chip = FenceChip::default();
    let constraints = chip.eval(&OpcodeTable { fence: 38 });
    assert_eq!(constraints.width, 2);
    let local = FenceCols::<Var>::layout();
    assert_eq!(local, FenceCols { pc: Var { column: 0 }, is_fence: Var { column: 1 } });
    assert_eq!(
        constraints.zeros,
        vec![Expr::Product(slot(1), Box::new(Expr::Difference(slot(1), Box::new(Expr::one()))))]
    );
    assert_eq!(constraints.receipts.len(), 1);
    let receipt = &constraints.receipts[0];
    assert_eq!(receipt.pc, Expr::Slot(local.pc));
    assert_eq!(
        receipt.next_pc,
        Expr::Sum(slot(0), Box::new(Expr::Constant(DEFAULT_PC_INC)))
    );
    assert_eq!(receipt.opcode, Expr::Constant(38));
    assert_eq!(receipt.a, Expr::zero());
    assert_eq!(receipt.b, Expr::zero());
    assert_eq!(receipt.c, Expr::zero());
    assert_eq!(receipt.op_a_0, Expr::one());
    assert_eq!(receipt.op_a_immutable, Expr::zero());
    assert_eq!(receipt.is_memory, Expr::zero());
    assert_eq!(receipt.is_syscall, Expr::zero());
    assert_eq!(receipt.is_halt, Expr::zero());
    assert_eq!(receipt.multiplicity, Expr::Slot(local.is_fence));
}

#[test]
fn padding_row_satisfies_the_constraints_and_contributes_nothing() {
    let chip = FenceChip::default();
    let constraints = chip.eval(&OpcodeTable { fence: 38 });
    let padding = vec![0u32, 0];
    assert!(constraints.check_row(&padding));
    let receipts = constraints.contributions(&padding).unwrap();
    assert_eq!(receipts.len(), 1);
    assert_eq!(receipts[0].multiplicity, 0);
    assert_eq!(receipts[0].pc, 0);
    assert_eq!(receipts[0].next_pc, 4);
}

#[test]
fn event_row_contributes_its_dispatch_tuple() {
    let chip = FenceChip::default();
    let constraints = chip.eval(&OpcodeTable { fence: 38 });
    assert_eq!(constraints.contributions(&vec![100, 1]), Some(vec![dispatch(100, 38)]));
    let last = FIELD_ORDER - 1;
    let receipts = constraints.contributions(&vec![last, 1]).unwrap();
    assert_eq!(receipts[0].pc, last);
    assert_eq!(receipts[0].next_pc, 3);
}

#[test]
fn table_satisfies_its_constraints_and_balances_the_dispatch() {
    let mut record = ExecutionRecord::default();
    for pc in [100u32, 104, 108] {
        record.fence_events.push(FenceEvent::new(pc));
    }
    let mut shape = Shape::new();
    shape.insert("Fence", 3);
    record.shape = Some(shape);
    let chip = FenceChip::default();
    let trace = chip.generate_trace(&record, &mut ExecutionRecord::default()).unwrap();
    let constraints = chip.eval(&OpcodeTable { fence: 38 });
    assert!(check_trace(&constraints, &trace));
    assert_eq!(
        ledger(&constraints, &trace),
        Some(vec![dispatch(100, 38), dispatch(104, 38), dispatch(108, 38)])
    );
    assert_eq!(read_row(&trace, 1), Some(vec![104, 1]));
    assert_eq!(read_row(&trace, 7), Some(vec![0, 0]));
    assert_eq!(read_row(&trace, 8), None);
}

#[test]
fn tampered_table_is_rejected() {
    let chip = FenceChip::default();
    let constraints = chip.eval(&OpcodeTable { fence: 38 });
    let tampered = RowMajorMatrix::new(vec![100u32, 1, 104, 2], 2);
    assert!(!check_trace(&constraints, &tampered));
    let wide = RowMajorMatrix::new(vec![100u32, 1, 0], 3);
    assert!(!check_trace(&constraints, &wide));
    assert_eq!(ledger(&constraints, &wide), None);
    let sound = RowMajorMatrix::new(vec![100u32, 1, 104, 0], 2);
    assert!(check_trace(&constraints, &sound));
    assert_eq!(ledger(&constraints, &sound), Some(vec![dispatch(100, 38)]));
}

#[test]
fn rows_of_another_width_are_refused() {
    let chip = FenceChip::default();
    let constraints = chip.eval(&OpcodeTable { fence: 38 });
    assert!(!constraints.check_row(&vec![0]));
    assert!(!constraints.check_row(&vec![0, 0, 0]));
    assert_eq!(constraints.contributions(&vec![100]), None);
    assert_eq!(constraints.contributions(&Vec::new()), None);
}

#[test]
fn constraints_can_be_validated() {
    let chip = FenceChip::default();
    let mut constraints = chip.eval(&OpcodeTable { fence: 38 });
    assert!(constraints.validate());
    assert!(Expr::Sum(slot(0), slot(1)).reads_within(2));
    assert!(!Expr::Sum(slot(0), slot(2)).reads_within(2));
    assert!(Expr::Constant(9).reads_within(0));
    constraints.zeros.push(Expr::Slot(Var { column: 2 }));
    assert!(!constraints.validate());
    constraints.zeros.pop();
    assert!(constraints.validate());
    constraints.receipts[0].is_halt = Expr::Product(slot(1), slot(5));
    assert!(!constraints.validate());
    constraints.width = 6;
    assert!(constraints.validate());
}
