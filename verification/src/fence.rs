//! The chip of the FENCE instruction, which the machine treats as a no-op.

use crate::air::Arithmetization;
use crate::air::ChipError;
use crate::air::ChipErrorKind;
use crate::air::lemma_table_dimensions;
use crate::air::lemma_table_rows;
use crate::air::MachineAir;
use crate::air::matrix_row;
use crate::catalog::demand_of;
use crate::catalog::lemma_fixed_shape_fits;
use crate::catalog::shape_map;
use crate::catalog::ShapeCatalog;
use crate::constraint::boolean_of;
use crate::constraint::Constraints;
use crate::constraint::Expr;
use crate::constraint::InstructionReceipt;
use crate::constraint::lemma_boolean_of;
use crate::constraint::receipt_value;
use crate::constraint::Var;
use crate::constraint::zero_row;
use crate::event::FenceEvent;
use crate::field::FIELD_ORDER;
use crate::field::is_canonical;
use crate::field::reduce;
use crate::interaction::active;
use crate::interaction::ledger_of;
use crate::matrix::cell_at;
use crate::matrix::height_of;
use crate::matrix::matrix_cells;
use crate::matrix::matrix_height;
use crate::matrix::matrix_width;
use crate::matrix::new_matrix;
use crate::matrix::width_of;
use crate::opcode::DEFAULT_PC_INC;
use crate::opcode::OpcodeTable;
use crate::record::ExecutionRecord;
use crate::sizing::lemma_padded_rows;
use crate::sizing::next_power_of_two;
use crate::sizing::SizeError;
use p3_matrix::dense::RowMajorMatrix;
use vstd::prelude::*;
use vstd::string::*;

verus! {

/// The number of main trace columns for `FenceChip`.
pub const NUM_FENCE_COLS: usize = 2;

/// A chip that implements the FENCE instruction as a no-op.
#[derive(Debug, Clone, Copy)]
pub struct FenceChip;

/// The column layout of the chip: one row of its table.
#[derive(Debug, Default, Clone, Copy, PartialEq, Eq)]
pub struct FenceCols<T> {
    /// The program counter.
    pub pc: T,
    /// Boolean flag indicating this is a fence instruction.
    pub is_fence: T,
}

impl<T: Copy> FenceCols<T> {
    /// The slots of the row, in column order.
    pub open spec fn slots(self) -> Seq<T> {
        seq![self.pc, self.is_fence]
    }

    /// Reads row `row` of a row-major buffer of `NUM_FENCE_COLS` columns.
    pub fn load(values: &Vec<T>, row: usize) -> (cols: Self)
        requires
            (row + 1) * NUM_FENCE_COLS <= values.len(),
        ensures
            cols.pc == values[row * NUM_FENCE_COLS as int],
            cols.is_fence == values[row * NUM_FENCE_COLS + 1],
    {
        FenceCols { pc: values[row * NUM_FENCE_COLS], is_fence: values[row * NUM_FENCE_COLS + 1] }
    }

    /// Writes the row into row `row` of a row-major buffer of
    /// `NUM_FENCE_COLS` columns.
    pub fn store(self, values: &mut Vec<T>, row: usize)
        requires
            (row + 1) * NUM_FENCE_COLS <= old(values).len(),
        ensures
            final(values)@ == old(values)@.update(row * NUM_FENCE_COLS as int, self.pc).update(
                row * NUM_FENCE_COLS + 1,
                self.is_fence,
            ),
    {
        values[row * NUM_FENCE_COLS] = self.pc;
        values[row * NUM_FENCE_COLS + 1] = self.is_fence;
    }
}

impl FenceCols<Var> {
    /// The layout itself: each named slot holds the variable of its column.
    pub fn layout() -> (local: Self)
        ensures
            local == fence_layout(),
    {
        FenceCols { pc: Var { column: 0 }, is_fence: Var { column: 1 } }
    }
}

/// The column of each named slot.
pub open spec fn fence_layout() -> FenceCols<Var> {
    FenceCols { pc: Var { column: 0 }, is_fence: Var { column: 1 } }
}

/// The receipt that every row of the chip contributes: a FENCE at the row's
/// program counter that computes nothing, advances the program counter by
/// the default increment and touches neither memory nor the system, as many
/// times as the row's flag says.
pub open spec fn fence_receipt(opcodes: OpcodeTable) -> InstructionReceipt<Expr> {
    let local = fence_layout();
    InstructionReceipt {
        pc: Expr::Slot(local.pc),
        next_pc: Expr::Sum(
            Box::new(Expr::Slot(local.pc)),
            Box::new(Expr::Constant(DEFAULT_PC_INC)),
        ),
        opcode: Expr::Constant(opcodes.fence),
        a: Expr::Constant(0),
        b: Expr::Constant(0),
        c: Expr::Constant(0),
        op_a_0: Expr::Constant(1),
        op_a_immutable: Expr::Constant(0),
        is_memory: Expr::Constant(0),
        is_syscall: Expr::Constant(0),
        is_halt: Expr::Constant(0),
        multiplicity: Expr::Slot(local.is_fence),
    }
}

/// The tuple that the dispatch stream holds for `event`, once.
pub open spec fn fence_dispatch(opcodes: OpcodeTable, event: FenceEvent) -> InstructionReceipt<u32> {
    InstructionReceipt {
        pc: event.pc,
        next_pc: reduce(event.pc + DEFAULT_PC_INC),
        opcode: reduce(opcodes.fence as int),
        a: 0,
        b: 0,
        c: 0,
        op_a_0: 1,
        op_a_immutable: 0,
        is_memory: 0,
        is_syscall: 0,
        is_halt: 0,
        multiplicity: 1,
    }
}

/// The row that encodes `event`: its program counter, and the flag set.
pub open spec fn fence_row(event: FenceEvent) -> FenceCols<u32> {
    FenceCols { pc: event.pc, is_fence: 1u32 }
}

/// The encoding of each event: its row, or none where the program counter
/// is no canonical field element.
pub open spec fn fence_rows(events: Seq<FenceEvent>) -> Seq<Option<Seq<u32>>> {
    Seq::new(
        events.len(),
        |i: int|
            if is_canonical(events[i].pc) {
                Some(fence_row(events[i]).slots())
            } else {
                None
            },
    )
}

/// The cells of the table of `rows` rows for `events`, in row-major order:
/// row `i` encodes event `i`, and every later row is zero.
pub open spec fn fence_cells(events: Seq<FenceEvent>, rows: nat) -> Seq<u32> {
    Seq::new(
        rows * NUM_FENCE_COLS as nat,
        |k: int|
            if k / 2 < events.len() {
                fence_row(events[k / 2]).slots()[k % 2]
            } else {
                0u32
            },
    )
}

/// The event that a row encodes, or none for a row whose flag is not one.
pub open spec fn decode_row(cols: FenceCols<u32>) -> Option<FenceEvent> {
    if cols.is_fence == 1 {
        Some(FenceEvent { pc: cols.pc })
    } else {
        None
    }
}

/// The events that the first `rows` rows of a table encode, in row order.
pub open spec fn recovered_events(cells: Seq<u32>, rows: nat) -> Seq<FenceEvent>
    decreases rows,
{
    if rows == 0 {
        Seq::empty()
    } else {
        let r = rows - 1;
        let before = recovered_events(cells, r as nat);
        match decode_row(FenceCols { pc: cells[2 * r], is_fence: cells[2 * r + 1] }) {
            Some(event) => before.push(event),
            None => before,
        }
    }
}

impl FenceCols<u32> {
    /// The event that the row encodes, or none for a row whose flag is not
    /// one.
    pub fn decode(&self) -> (event: Option<FenceEvent>)
        ensures
            event == decode_row(*self),
    {
        if self.is_fence == 1 {
            Some(FenceEvent::new(self.pc))
        } else {
            None
        }
    }
}

/// Reads back the events that a table encodes, row by row. A matrix that
/// does not have the width of the chip's layout is no table of the chip.
pub fn recover_events(trace: &RowMajorMatrix<u32>) -> (r: Option<Vec<FenceEvent>>)
    ensures
        r is Some <==> matrix_width(*trace) == NUM_FENCE_COLS,
        r matches Some(events) ==> events@ == recovered_events(
            matrix_cells(*trace),
            matrix_height(*trace),
        ),
{
    if width_of(trace) != NUM_FENCE_COLS {
        return None;
    }
    let rows: usize = height_of(trace);
    let mut events: Vec<FenceEvent> = Vec::new();
    let mut r: usize = 0;
    while r < rows
        invariant
            r <= rows,
            rows == matrix_height(*trace),
            matrix_width(*trace) == NUM_FENCE_COLS,
            events@ == recovered_events(matrix_cells(*trace), r as nat),
        decreases rows - r,
    {
        let cols = FenceCols { pc: cell_at(trace, r, 0), is_fence: cell_at(trace, r, 1) };
        if let Some(event) = cols.decode() {
            events.push(event);
        }
        r = r + 1;
    }
    Some(events)
}

/// The tuples that the dispatch stream holds for `events`, in issue order.
pub open spec fn fence_dispatches(opcodes: OpcodeTable, events: Seq<FenceEvent>) -> Seq<
    InstructionReceipt<u32>,
> {
    Seq::new(events.len(), |i: int| fence_dispatch(opcodes, events[i]))
}

/// The index of the first event whose program counter is no canonical field
/// element, or the number of events when there is none.
fn first_out_of_field(events: &Vec<FenceEvent>) -> (at: usize)
    ensures
        at <= events.len(),
        forall|i: int| 0 <= i < at ==> is_canonical(#[trigger] events[i].pc),
        at < events.len() ==> !is_canonical(events[at as int].pc),
{
    let mut i: usize = 0;
    while i < events.len()
        invariant
            i <= events.len(),
            forall|j: int| 0 <= j < i ==> is_canonical(#[trigger] events[j].pc),
        decreases events.len() - i,
    {
        if events[i].pc >= FIELD_ORDER {
            return i;
        }
        i = i + 1;
    }
    i
}

impl Default for FenceChip {
    fn default() -> (chip: Self)
        ensures
            chip == FenceChip,
    {
        FenceChip
    }
}

impl MachineAir for FenceChip {
    open spec fn chip_name(&self) -> Seq<char> {
        "Fence"@
    }

    open spec fn num_columns(&self) -> nat {
        NUM_FENCE_COLS as nat
    }

    open spec fn arithmetization(&self, record: &ExecutionRecord) -> Arithmetization {
        Arithmetization {
            name: "Fence"@,
            width: NUM_FENCE_COLS as nat,
            rows: fence_rows(record.fence_events@),
        }
    }

    open spec fn is_local(&self) -> bool {
        true
    }

    open spec fn dependencies(&self, input: &ExecutionRecord, output: ExecutionRecord) -> ExecutionRecord {
        output
    }

    proof fn lemma_layout(&self, record: &ExecutionRecord) {
    }

    proof fn lemma_dependencies_idempotent(&self, input: &ExecutionRecord, output: ExecutionRecord) {
    }

    fn name(&self) -> (name: String) {
        String::from_str("Fence")
    }

    fn width(&self) -> (width: usize) {
        NUM_FENCE_COLS
    }

    /// FENCE needs no lookups and no events of other chips: `output` stays
    /// as it was.
    fn generate_dependencies(&self, input: &ExecutionRecord, output: &mut ExecutionRecord)
        ensures
            *final(output) == *old(output),
    {
    }

    fn num_rows(&self, input: &ExecutionRecord) -> (rows: Option<usize>) {
        let nb_rows: usize = input.fence_events.len();
        let size_log2 = input.fixed_log2_rows("Fence");
        match next_power_of_two(nb_rows, size_log2) {
            Ok(rows) => Some(rows),
            Err(_) => None,
        }
    }

    /// Builds the table of the FENCE events of `input`: one row per event in
    /// issue order, holding the event's program counter and the flag one,
    /// then all-zero rows up to the padded row count.
    fn generate_trace(&self, input: &ExecutionRecord, output: &mut ExecutionRecord) -> (r: Result<
        RowMajorMatrix<u32>,
        ChipError,
    >)
        ensures
            r matches Ok(trace) ==> matrix_width(trace) == NUM_FENCE_COLS && matrix_cells(trace)
                == fence_cells(
                input.fence_events@,
                self.arithmetization(input).sizing(input)->Ok_0 as nat,
            ),
    {
        let nb_rows: usize = input.fence_events.len();
        let size_log2 = input.fixed_log2_rows("Fence");
        proof {
            lemma_padded_rows(nb_rows as nat, size_log2);
        }
        let padded_nb_rows: usize = match next_power_of_two(nb_rows, size_log2) {
            Ok(rows) => rows,
            Err(SizeError::FixedTooSmall) => {
                return Err(
                    ChipError {
                        chip: self.name(),
                        kind: ChipErrorKind::ShapeTooSmall {
                            log2_rows: size_log2.unwrap(),
                            events: nb_rows,
                        },
                    },
                );
            },
            Err(SizeError::Overflow) => {
                return Err(ChipError { chip: self.name(), kind: ChipErrorKind::TableTooLarge });
            },
        };
        let total: usize = match padded_nb_rows.checked_mul(NUM_FENCE_COLS) {
            Some(total) => total,
            None => {
                return Err(ChipError { chip: self.name(), kind: ChipErrorKind::TableTooLarge });
            },
        };
        let bad: usize = first_out_of_field(&input.fence_events);
        if bad < nb_rows {
            assert(self.arithmetization(input).rows[bad as int] is None);
            return Err(
                ChipError { chip: self.name(), kind: ChipErrorKind::ValueOutOfField { row: bad } },
            );
        }
        // Initialize the trace values
        let mut values: Vec<u32> = vec![0u32; total];

        // Fill in the trace for each fence event
        let mut i: usize = 0;
        while i < nb_rows
            invariant
                i <= nb_rows,
                nb_rows == input.fence_events.len(),
                nb_rows <= padded_nb_rows,
                total == padded_nb_rows * NUM_FENCE_COLS,
                values.len() == total,
                forall|k: int|
                    0 <= k < 2 * i ==> values[k] == fence_cells(
                        input.fence_events@,
                        padded_nb_rows as nat,
                    )[k],
                forall|k: int| 2 * i <= k < total ==> values[k] == 0u32,
            decreases nb_rows - i,
        {
            let event = input.fence_events[i];
            let cols = FenceCols { pc: event.pc, is_fence: 1u32 };
            cols.store(&mut values, i);
            i = i + 1;
        }
        assert(values@ =~= fence_cells(input.fence_events@, padded_nb_rows as nat));
        let trace = new_matrix(values, NUM_FENCE_COLS);
        proof {
            let a = self.arithmetization(input);
            assert forall|r: int, c: int|
                0 <= r < padded_nb_rows && 0 <= c < a.width implies #[trigger] matrix_cells(
                trace,
            )[r * a.width + c] == a.table_row(r)[c] by {
                assert((r * 2 + c) / 2 == r);
                assert((r * 2 + c) % 2 == c);
            }
        }
        Ok(trace)
    }

    fn included(&self, shard: &ExecutionRecord) -> (included: bool) {
        if let Some(shape) = shard.shape.as_ref() {
            shape.included("Fence")
        } else {
            !shard.fence_events.is_empty()
        }
    }

    fn local_only(&self) -> (local: bool) {
        true
    }

    /// Constrains the flag to be zero or one, and receives one FENCE
    /// instruction at the row's program counter when the flag is one.
    fn eval(&self, opcodes: &OpcodeTable) -> (constraints: Constraints)
        ensures
            constraints.zeros@ == seq![boolean_of(fence_layout().is_fence)],
            constraints.receipts@ == seq![fence_receipt(*opcodes)],
    {
        let mut builder = Constraints::new(NUM_FENCE_COLS);
        let local = FenceCols::<Var>::layout();

        // Constrain that is_fence is boolean (0 or 1)
        builder.assert_bool(local.is_fence);

        // When is_fence is 1, receive the FENCE instruction from the CPU
        proof {
            reveal_with_fuel(Expr::fits, 3);
        }
        builder.receive_instruction(
            InstructionReceipt {
                pc: Expr::Slot(local.pc),
                next_pc: Expr::Sum(
                    Box::new(Expr::Slot(local.pc)),
                    Box::new(Expr::Constant(DEFAULT_PC_INC)),
                ),
                opcode: Expr::Constant(opcodes.fence),
                a: Expr::zero(),
                b: Expr::zero(),
                c: Expr::zero(),
                op_a_0: Expr::one(),
                op_a_immutable: Expr::zero(),
                is_memory: Expr::zero(),
                is_syscall: Expr::zero(),
                is_halt: Expr::zero(),
                multiplicity: Expr::Slot(local.is_fence),
            },
        );
        proof {
            assert(builder.zeros@[0] == boolean_of(fence_layout().is_fence));
            assert(builder.receipts@[0] == fence_receipt(*opcodes));
            assert(builder.zeros@ =~= seq![boolean_of(fence_layout().is_fence)]);
            assert(builder.receipts@ =~= seq![fence_receipt(*opcodes)]);
            lemma_boolean_of(fence_layout().is_fence, zero_row(2));
            assert forall|record: &ExecutionRecord, i: int|
                0 <= i < self.arithmetization(record).rows.len() && (
                #[trigger] self.arithmetization(record).rows[i]) is Some implies builder.holds_on(
                self.arithmetization(record).rows[i].unwrap(),
            ) by {
                let row = self.arithmetization(record).rows[i].unwrap();
                assert(row[1] == 1u32);
                lemma_boolean_of(fence_layout().is_fence, row);
            }
        }
        builder
    }
}

/// The first `n` rows of the table for `events` encode the first `n`
/// events, or all of them when there are fewer.
proof fn lemma_recovered_prefix(events: Seq<FenceEvent>, rows: nat, n: nat)
    requires
        events.len() <= rows,
        n <= rows,
    ensures
        recovered_events(fence_cells(events, rows), n) == events.take(
            if n <= events.len() {
                n as int
            } else {
                events.len() as int
            },
        ),
    decreases n,
{
    let cells = fence_cells(events, rows);
    if n == 0 {
        assert(events.take(0) =~= Seq::<FenceEvent>::empty());
    } else {
        let r = n - 1;
        lemma_recovered_prefix(events, rows, r as nat);
        assert((2 * r) / 2 == r && (2 * r) % 2 == 0);
        assert((2 * r + 1) / 2 == r && (2 * r + 1) % 2 == 1);
        if r < events.len() {
            assert(cells[2 * r] == events[r].pc);
            assert(cells[2 * r + 1] == 1u32);
            assert(events.take(n as int) =~= events.take(r).push(events[r]));
        } else {
            assert(cells[2 * r + 1] == 0u32);
        }
    }
}

/// Decoding the table of a sequence of events gives the events back, in
/// issue order and with nothing added.
pub proof fn lemma_round_trip(events: Seq<FenceEvent>, rows: nat)
    requires
        events.len() <= rows,
    ensures
        recovered_events(fence_cells(events, rows), rows) == events,
{
    lemma_recovered_prefix(events, rows, rows);
    assert(events.take(events.len() as int) =~= events);
}

/// The row that encodes an event contributes exactly the tuple that the
/// dispatch stream holds for that event, once.
pub proof fn lemma_fence_receipt(opcodes: OpcodeTable, event: FenceEvent)
    requires
        is_canonical(event.pc),
    ensures
        receipt_value(fence_receipt(opcodes), fence_row(event).slots()) == fence_dispatch(
            opcodes,
            event,
        ),
{
    reveal_with_fuel(Expr::value, 3);
}

/// The chip's table for a record holds exactly the cells of the record's
/// events, and decodes back to them: the same events, in the same order.
pub proof fn lemma_fence_table(record: &ExecutionRecord, trace: RowMajorMatrix<u32>)
    requires
        FenceChip.arithmetization(record).is_table(record, trace),
        FenceChip.arithmetization(record).trace_defined(record),
    ensures
        matrix_cells(trace) == fence_cells(record.fence_events@, matrix_height(trace)),
        recovered_events(matrix_cells(trace), matrix_height(trace)) == record.fence_events@,
{
    let chip = FenceChip;
    let a = chip.arithmetization(record);
    let events = record.fence_events@;
    lemma_table_dimensions(&chip, record, trace);
    let rows = matrix_height(trace);
    let cells = matrix_cells(trace);
    let expected = fence_cells(events, rows);
    assert(cells.len() == expected.len());
    assert forall|k: int| 0 <= k < cells.len() implies cells[k] == expected[k] by {
        let r = k / 2;
        let c = k % 2;
        assert(k == r * 2 + c);
        assert(cells[r * a.width + c] == a.table_row(r)[c]);
        if r < events.len() {
            assert(a.rows[r] is Some);
        }
    }
    assert(cells =~= expected);
    lemma_round_trip(events, rows);
}

/// The first `n` rows of the chip's table contribute the dispatch tuples of
/// the first `n` events, or of all events when there are fewer.
proof fn lemma_fence_ledger_prefix(
    opcodes: OpcodeTable,
    record: &ExecutionRecord,
    trace: RowMajorMatrix<u32>,
    constraints: Constraints,
    n: nat,
)
    requires
        FenceChip.arithmetization(record).is_table(record, trace),
        FenceChip.arithmetization(record).trace_defined(record),
        constraints.receipts@ == seq![fence_receipt(opcodes)],
        n <= matrix_height(trace),
    ensures
        ledger_of(constraints, trace, n) == fence_dispatches(
            opcodes,
            record.fence_events@.take(
                if n <= record.fence_events@.len() {
                    n as int
                } else {
                    record.fence_events@.len() as int
                },
            ),
        ),
    decreases n,
{
    let chip = FenceChip;
    let events = record.fence_events@;
    if n == 0 {
        assert(fence_dispatches(opcodes, events.take(0)) =~= Seq::<InstructionReceipt<u32>>::empty());
    } else {
        let r = n - 1;
        lemma_fence_ledger_prefix(opcodes, record, trace, constraints, r as nat);
        lemma_table_rows(&chip, record, trace, r);
        let row = matrix_row(trace, r);
        let receipts = constraints.receipts_on(row);
        assert(receipts.len() == 1);
        assert(receipts[0] == receipt_value(fence_receipt(opcodes), row));
        assert(receipts.drop_last() =~= Seq::<InstructionReceipt<u32>>::empty());
        assert(active(receipts.drop_last()) =~= Seq::<InstructionReceipt<u32>>::empty());
        if r < events.len() {
            assert(chip.arithmetization(record).rows[r] is Some);
            lemma_fence_receipt(opcodes, events[r]);
            assert(active(receipts) =~= seq![fence_dispatch(opcodes, events[r])]);
            assert(fence_dispatches(opcodes, events.take(n as int)) =~= fence_dispatches(
                opcodes,
                events.take(r),
            ) + seq![fence_dispatch(opcodes, events[r])]);
        } else {
            reveal_with_fuel(Expr::value, 2);
            assert(row[1] == 0u32);
            assert(receipts[0].multiplicity == 0);
            assert(active(receipts) =~= Seq::<InstructionReceipt<u32>>::empty());
            assert(ledger_of(constraints, trace, n) =~= ledger_of(constraints, trace, r as nat));
        }
    }
}

/// The chip's table contributes to the dispatch ledger exactly one receipt
/// for each event, in issue order, and nothing for its padding rows.
pub proof fn lemma_fence_ledger(
    opcodes: OpcodeTable,
    record: &ExecutionRecord,
    trace: RowMajorMatrix<u32>,
    constraints: Constraints,
)
    requires
        FenceChip.arithmetization(record).is_table(record, trace),
        FenceChip.arithmetization(record).trace_defined(record),
        constraints.receipts@ == seq![fence_receipt(opcodes)],
    ensures
        ledger_of(constraints, trace, matrix_height(trace)) == fence_dispatches(
            opcodes,
            record.fence_events@,
        ),
{
    let chip = FenceChip;
    lemma_table_dimensions(&chip, record, trace);
    lemma_fence_ledger_prefix(opcodes, record, trace, constraints, matrix_height(trace));
    assert(record.fence_events@.take(record.fence_events@.len() as int) =~= record.fence_events@);
}

/// Once the catalog has fixed the shape of a shard, the chip's table is
/// never too small for the shard's events: the shape's entry for the chip,
/// if it has one, holds all of them.
pub proof fn lemma_fixed_shape_holds_events(
    catalog: ShapeCatalog,
    k: int,
    before: &ExecutionRecord,
    record: &ExecutionRecord,
)
    requires
        catalog.wf(),
        catalog.is_selection(k, demand_of(catalog.chips(), before)),
        record.fence_events == before.fence_events,
        record.shape is Some,
        record.shape.unwrap()@ == shape_map(catalog.chips(), catalog.entries()[k].log2_rows@),
    ensures
        FenceChip.arithmetization(record).sizing(record) != Err::<usize, SizeError>(
            SizeError::FixedTooSmall,
        ),
{
    lemma_fixed_shape_fits(catalog, k, before, "Fence"@);
    lemma_padded_rows(record.fence_events@.len(), record.fixed_log2("Fence"@));
}

} // verus!
