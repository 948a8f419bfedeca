//! The contract between a chip and the shard it is proved in.
//!
//! A chip turns the events of one instruction category into a table: a
//! row-major matrix of canonical field elements with one row per event,
//! padded with all-zero rows up to the row count that the shard's shape
//! fixes, or else up to the next power of two.

use crate::constraint::Constraints;
use crate::constraint::zero_row;
use crate::field::is_canonical;
use crate::matrix::matrix_cells;
use crate::matrix::matrix_height;
use crate::matrix::matrix_width;
use crate::opcode::OpcodeTable;
use crate::record::ExecutionRecord;
use crate::sizing::is_power_of_two;
use crate::sizing::lemma_padded_rows;
use crate::sizing::padded_rows;
use crate::sizing::row_sizing;
use crate::sizing::SizeError;
use crate::text::decimal_text;
use crate::text::decimal;
use p3_matrix::dense::RowMajorMatrix;
use vstd::prelude::*;
use vstd::string::*;

verus! {

/// Why a chip could not produce its table.
#[derive(Debug, Clone, Copy, PartialEq, Eq, Structural)]
pub enum ChipErrorKind {
    /// The shape fixes `2^log2_rows` rows, fewer than the chip has events.
    ShapeTooSmall { log2_rows: usize, events: usize },
    /// The table would have more cells than `usize` can count.
    TableTooLarge,
    /// The event that belongs in row `row` holds a value that is no
    /// canonical field element.
    ValueOutOfField { row: usize },
}

/// A failed trace generation: the chip that failed, and why.
#[derive(Debug, Clone, PartialEq, Eq)]
pub struct ChipError {
    /// The name of the chip.
    pub chip: String,
    /// The nature of the failure.
    pub kind: ChipErrorKind,
}

impl ChipErrorKind {
    /// The nature of the failure, in words.
    pub open spec fn text(self) -> Seq<char> {
        match self {
            ChipErrorKind::ShapeTooSmall { log2_rows, events } => "the shape fixes a log2 row count of "@
                + decimal_text(log2_rows as nat) + ", too few rows for "@ + decimal_text(
                events as nat,
            ) + " events"@,
            ChipErrorKind::TableTooLarge => "the table has more cells than can be counted"@,
            ChipErrorKind::ValueOutOfField { row } => "the event of row "@ + decimal_text(row as nat)
                + " holds a value outside the field"@,
        }
    }

    /// The nature of the failure, in words.
    pub fn message(&self) -> (message: String)
        ensures
            message@ == self.text(),
    {
        match self {
            ChipErrorKind::ShapeTooSmall { log2_rows, events } => {
                let mut message = String::from_str("the shape fixes a log2 row count of ");
                message.append(decimal(*log2_rows).as_str());
                message.append(", too few rows for ");
                message.append(decimal(*events).as_str());
                message.append(" events");
                message
            },
            ChipErrorKind::TableTooLarge => String::from_str(
                "the table has more cells than can be counted",
            ),
            ChipErrorKind::ValueOutOfField { row } => {
                let mut message = String::from_str("the event of row ");
                message.append(decimal(*row).as_str());
                message.append(" holds a value outside the field");
                message
            },
        }
    }
}

impl ChipError {
    /// The diagnostic of the failure: the name of the chip, and the nature
    /// of the failure in words.
    pub open spec fn text(self) -> Seq<char> {
        "chip "@ + self.chip@ + ": "@ + self.kind.text()
    }

    /// The diagnostic of the failure: the name of the chip, and the nature
    /// of the failure in words.
    pub fn message(&self) -> (message: String)
        ensures
            message@ == self.text(),
    {
        let mut message = String::from_str("chip ");
        message.append(self.chip.as_str());
        message.append(": ");
        message.append(self.kind.message().as_str());
        message
    }
}

/// What a chip makes of a record, as mathematics: the rows that encode the
/// chip's events, in issue order.
pub struct Arithmetization {
    /// The chip's name.
    pub name: Seq<char>,
    /// The number of columns of the chip's table.
    pub width: nat,
    /// One entry per event of the chip's category: the row that encodes the
    /// event, or none where a value of the event is no canonical field
    /// element.
    pub rows: Seq<Option<Seq<u32>>>,
}

impl Arithmetization {
    /// Every encoded row has the chip's width and holds canonical field
    /// elements, and the width is positive.
    pub open spec fn wf(self) -> bool {
        &&& self.width > 0
        &&& forall|i: int|
            0 <= i < self.rows.len() && (#[trigger] self.rows[i]) is Some ==> {
                &&& self.rows[i].unwrap().len() == self.width
                &&& forall|c: int| 0 <= c < self.width ==> is_canonical(#[trigger] self.rows[i].unwrap()[c])
            }
    }

    /// The outcome of sizing the table for `record`.
    pub open spec fn sizing(self, record: &ExecutionRecord) -> Result<usize, SizeError> {
        row_sizing(self.rows.len(), record.fixed_log2(self.name))
    }

    /// The row count of the table for `record`, where one exists.
    pub open spec fn padded_row_count(self, record: &ExecutionRecord) -> Option<usize> {
        match self.sizing(record) {
            Ok(rows) => Some(rows),
            Err(_) => None,
        }
    }

    /// Whether the chip is part of the shard: with a shape, exactly when the
    /// shape has an entry for the chip; without one, exactly when the chip
    /// has events.
    pub open spec fn is_included(self, shard: &ExecutionRecord) -> bool {
        match shard.shape {
            Some(shape) => shape@.contains_key(self.name),
            None => self.rows.len() > 0,
        }
    }

    /// Whether the chip has a table for `record`: a row count can be chosen,
    /// the cells can be counted, and every event can be encoded.
    pub open spec fn trace_defined(self, record: &ExecutionRecord) -> bool {
        match self.sizing(record) {
            Ok(rows) => {
                &&& rows * self.width <= usize::MAX
                &&& forall|i: int| 0 <= i < self.rows.len() ==> (#[trigger] self.rows[i]) is Some
            },
            Err(_) => false,
        }
    }

    /// Whether trace generation for `record` fails, and with `kind`. The
    /// sizing is judged first, then the events in issue order.
    pub open spec fn trace_fails_with(self, record: &ExecutionRecord, kind: ChipErrorKind) -> bool {
        match self.sizing(record) {
            Err(SizeError::FixedTooSmall) => kind == (ChipErrorKind::ShapeTooSmall {
                log2_rows: record.fixed_log2(self.name).unwrap(),
                events: self.rows.len() as usize,
            }),
            Err(SizeError::Overflow) => kind == ChipErrorKind::TableTooLarge,
            Ok(rows) => if rows * self.width > usize::MAX {
                kind == ChipErrorKind::TableTooLarge
            } else {
                match kind {
                    ChipErrorKind::ValueOutOfField { row } => {
                        &&& row < self.rows.len()
                        &&& self.rows[row as int] is None
                        &&& forall|i: int| 0 <= i < row ==> (#[trigger] self.rows[i]) is Some
                    },
                    _ => false,
                }
            },
        }
    }

    /// The contents of row `r` of the table: the encoding of event `r`
    /// while there are events, and all zero from there on.
    pub open spec fn table_row(self, r: int) -> Seq<u32> {
        if r < self.rows.len() {
            self.rows[r].unwrap()
        } else {
            zero_row(self.width)
        }
    }

    /// Whether `trace` is the chip's table for `record`.
    pub open spec fn is_table(self, record: &ExecutionRecord, trace: RowMajorMatrix<u32>) -> bool {
        match self.sizing(record) {
            Ok(rows) => {
                &&& matrix_width(trace) == self.width
                &&& matrix_cells(trace).len() == rows * self.width
                &&& forall|r: int, c: int|
                    0 <= r < rows && 0 <= c < self.width ==> #[trigger] matrix_cells(trace)[r
                        * self.width + c] == self.table_row(r)[c]
            },
            Err(_) => false,
        }
    }
}

/// The unit of arithmetization for one instruction category.
pub trait MachineAir: Sized {
    /// The chip's name, as a sequence of characters.
    spec fn chip_name(&self) -> Seq<char>;

    /// The number of columns of the chip's table.
    spec fn num_columns(&self) -> nat;

    /// What the chip makes of `record`.
    spec fn arithmetization(&self, record: &ExecutionRecord) -> Arithmetization;

    /// Whether the chip's constraints refer to its own table only.
    spec fn is_local(&self) -> bool;

    /// The record that dependency generation leaves in `output`.
    spec fn dependencies(&self, input: &ExecutionRecord, output: ExecutionRecord) -> ExecutionRecord;

    /// The layout is fixed by the chip, not by the data: whatever the
    /// record, the arithmetization carries the chip's name and width, and
    /// is well formed.
    proof fn lemma_layout(&self, record: &ExecutionRecord)
        ensures
            self.arithmetization(record).name == self.chip_name(),
            self.arithmetization(record).width == self.num_columns(),
            self.arithmetization(record).wf(),
    ;

    /// Generating dependencies a second time changes nothing.
    proof fn lemma_dependencies_idempotent(&self, input: &ExecutionRecord, output: ExecutionRecord)
        ensures
            self.dependencies(input, self.dependencies(input, output)) == self.dependencies(
                input,
                output,
            ),
    ;

    /// The stable identifier of the chip: the key of its entry in a shape.
    fn name(&self) -> (name: String)
        ensures
            name@ == self.chip_name(),
    ;

    /// The number of columns of the chip's table.
    fn width(&self) -> (width: usize)
        ensures
            width == self.num_columns(),
            width > 0,
    ;

    /// Appends to `output` the events that other chips need because of this
    /// chip's events in `input`.
    fn generate_dependencies(&self, input: &ExecutionRecord, output: &mut ExecutionRecord)
        ensures
            *final(output) == self.dependencies(input, *old(output)),
    ;

    /// The number of rows of the table that `generate_trace` builds for
    /// `input`, or none where no row count can be chosen.
    fn num_rows(&self, input: &ExecutionRecord) -> (rows: Option<usize>)
        ensures
            rows == self.arithmetization(input).padded_row_count(input),
    ;

    /// Builds the chip's table for `input`. `output` is left as it was.
    fn generate_trace(&self, input: &ExecutionRecord, output: &mut ExecutionRecord) -> (r: Result<
        RowMajorMatrix<u32>,
        ChipError,
    >)
        ensures
            *final(output) == *old(output),
            r is Ok <==> self.arithmetization(input).trace_defined(input),
            match r {
                Ok(trace) => self.arithmetization(input).is_table(input, trace),
                Err(e) => e.chip@ == self.chip_name() && self.arithmetization(
                    input,
                ).trace_fails_with(input, e.kind),
            },
    ;

    /// Whether the chip contributes a table to the shard's proof.
    fn included(&self, shard: &ExecutionRecord) -> (included: bool)
        ensures
            included == self.arithmetization(shard).is_included(shard),
    ;

    /// Whether the chip's constraints refer to its own table only, so that
    /// the chip can be proved shard by shard with no carried state.
    fn local_only(&self) -> (local: bool)
        ensures
            local == self.is_local(),
    ;

    /// The constraints that every row of the chip's table satisfies, and the
    /// receipts that it contributes to the dispatch ledger.
    ///
    /// A padding row satisfies them and contributes nothing; every row that
    /// encodes an event satisfies them, whatever the record.
    fn eval(&self, opcodes: &OpcodeTable) -> (constraints: Constraints)
        ensures
            constraints.wf(),
            constraints.width == self.num_columns(),
            constraints.holds_on(zero_row(self.num_columns())),
            constraints.silent_on(zero_row(self.num_columns())),
            forall|record: &ExecutionRecord, i: int|
                0 <= i < self.arithmetization(record).rows.len() && (
                #[trigger] self.arithmetization(record).rows[i]) is Some ==> constraints.holds_on(
                    self.arithmetization(record).rows[i].unwrap(),
                ),
    ;
}

/// Row `r` of a matrix: the cells from `r * width` up to `(r + 1) * width`.
pub open spec fn matrix_row(trace: RowMajorMatrix<u32>, r: int) -> Seq<u32> {
    matrix_cells(trace).subrange(r * matrix_width(trace), (r + 1) * matrix_width(trace))
}

/// The table of a chip has the padded row count of the chip: a power of two
/// that is at least the number of events, and the count that `num_rows`
/// reports. Its width is the chip's.
pub proof fn lemma_table_dimensions<C: MachineAir>(
    chip: &C,
    record: &ExecutionRecord,
    trace: RowMajorMatrix<u32>,
)
    requires
        chip.arithmetization(record).is_table(record, trace),
    ensures
        matrix_width(trace) == chip.num_columns(),
        matrix_height(trace) <= usize::MAX,
        chip.arithmetization(record).padded_row_count(record) == Some(matrix_height(trace) as usize),
        is_power_of_two(matrix_height(trace)),
        matrix_height(trace) >= chip.arithmetization(record).rows.len(),
        matrix_height(trace) == padded_rows(
            chip.arithmetization(record).rows.len(),
            record.fixed_log2(chip.chip_name()),
        ),
{
    chip.lemma_layout(record);
    let a = chip.arithmetization(record);
    let width = a.width;
    let rows = a.sizing(record)->Ok_0;
    lemma_padded_rows(a.rows.len(), record.fixed_log2(a.name));
    assert((rows * width) / width as int == rows) by (nonlinear_arith)
        requires
            width > 0,
            rows >= 0,
    ;
}

/// A table holds its chip's events in issue order and nothing else: row `r`
/// is the encoding of event `r` while there are events, and all zero from
/// there on.
pub proof fn lemma_table_rows<C: MachineAir>(
    chip: &C,
    record: &ExecutionRecord,
    trace: RowMajorMatrix<u32>,
    r: int,
)
    requires
        chip.arithmetization(record).is_table(record, trace),
        chip.arithmetization(record).trace_defined(record),
        0 <= r < matrix_height(trace),
    ensures
        matrix_row(trace, r) == chip.arithmetization(record).table_row(r),
        r < chip.arithmetization(record).rows.len() ==> matrix_row(trace, r) == chip.arithmetization(
            record,
        ).rows[r].unwrap(),
        r >= chip.arithmetization(record).rows.len() ==> matrix_row(trace, r) == zero_row(
            chip.num_columns(),
        ),
{
    lemma_table_dimensions(chip, record, trace);
    chip.lemma_layout(record);
    let a = chip.arithmetization(record);
    let width = a.width as int;
    let rows = matrix_height(trace) as int;
    assert((r + 1) * width <= rows * width) by (nonlinear_arith)
        requires
            r + 1 <= rows,
            width > 0,
    ;
    assert((r + 1) * width == r * width + width) by (nonlinear_arith);
    assert(r * width >= 0) by (nonlinear_arith)
        requires
            r >= 0,
            width > 0,
    ;
    let row = matrix_row(trace, r);
    if r < a.rows.len() {
        assert(a.rows[r] is Some);
    }
    assert(row.len() == a.table_row(r).len());
    assert forall|c: int| 0 <= c < width implies row[c] == a.table_row(r)[c] by {
        assert(row[c] == matrix_cells(trace)[r * width + c]);
    }
    assert(row =~= a.table_row(r));
}

/// No row of a table can fail: each satisfies the chip's constraints, and a
/// padding row contributes no receipt.
pub proof fn lemma_table_satisfies<C: MachineAir>(
    chip: &C,
    record: &ExecutionRecord,
    trace: RowMajorMatrix<u32>,
    constraints: Constraints,
    r: int,
)
    requires
        chip.arithmetization(record).is_table(record, trace),
        chip.arithmetization(record).trace_defined(record),
        0 <= r < matrix_height(trace),
        constraints.holds_on(zero_row(chip.num_columns())),
        constraints.silent_on(zero_row(chip.num_columns())),
        forall|other: &ExecutionRecord, i: int|
            0 <= i < chip.arithmetization(other).rows.len() && (#[trigger] chip.arithmetization(
                other,
            ).rows[i]) is Some ==> constraints.holds_on(chip.arithmetization(other).rows[i].unwrap()),
    ensures
        constraints.holds_on(matrix_row(trace, r)),
        r >= chip.arithmetization(record).rows.len() ==> constraints.silent_on(matrix_row(trace, r)),
{
    lemma_table_rows(chip, record, trace, r);
    let a = chip.arithmetization(record);
    if r < a.rows.len() {
        assert(a.rows[r] is Some);
    }
}

/// Builds the table that the chip contributes to the shard, or none when
/// the chip is not part of the shard.
pub fn shard_table<C: MachineAir>(chip: &C, shard: &ExecutionRecord) -> (r: Result<
    Option<RowMajorMatrix<u32>>,
    ChipError,
>)
    ensures
        r is Err <==> chip.arithmetization(shard).is_included(shard) && !chip.arithmetization(
            shard,
        ).trace_defined(shard),
        match r {
            Ok(None) => !chip.arithmetization(shard).is_included(shard),
            Ok(Some(trace)) => chip.arithmetization(shard).is_included(shard)
                && chip.arithmetization(shard).is_table(shard, trace),
            Err(e) => e.chip@ == chip.chip_name() && chip.arithmetization(shard).trace_fails_with(
                shard,
                e.kind,
            ),
        },
{
    if !chip.included(shard) {
        return Ok(None);
    }
    let mut scratch = ExecutionRecord::default();
    match chip.generate_trace(shard, &mut scratch) {
        Ok(trace) => Ok(Some(trace)),
        Err(e) => Err(e),
    }
}

/// Whether the chip is part of the shard and yet has no table for it.
pub open spec fn fails_in<C: MachineAir>(chip: &C, shard: &ExecutionRecord) -> bool {
    chip.arithmetization(shard).is_included(shard) && !chip.arithmetization(shard).trace_defined(
        shard,
    )
}

/// Whether `table` is what the chip contributes to the shard: its table if
/// it is part of the shard, and nothing if it is not.
pub open spec fn is_contribution<C: MachineAir>(
    chip: &C,
    shard: &ExecutionRecord,
    table: Option<RowMajorMatrix<u32>>,
) -> bool {
    match table {
        Some(trace) => chip.arithmetization(shard).is_included(shard) && chip.arithmetization(
            shard,
        ).is_table(shard, trace),
        None => !chip.arithmetization(shard).is_included(shard),
    }
}

/// Builds the tables of a shard, all or none: one entry for each chip in
/// order, holding the chip's table or nothing for a chip that is not part
/// of the shard. The first chip that fails fails the shard, and no table is
/// handed out.
pub fn shard_tables<C: MachineAir>(chips: &Vec<C>, shard: &ExecutionRecord) -> (r: Result<
    Vec<Option<RowMajorMatrix<u32>>>,
    ChipError,
>)
    ensures
        r is Err <==> exists|i: int| 0 <= i < chips.len() && fails_in(#[trigger] &chips[i], shard),
        match r {
            Ok(tables) => tables.len() == chips.len() && forall|i: int|
                0 <= i < chips.len() ==> is_contribution(&chips[i], shard, #[trigger] tables[i]),
            Err(e) => exists|i: int|
                0 <= i < chips.len() && fails_in(#[trigger] &chips[i], shard) && e.chip@
                    == chips[i].chip_name() && chips[i].arithmetization(shard).trace_fails_with(
                    shard,
                    e.kind,
                ) && forall|j: int| 0 <= j < i ==> !fails_in(#[trigger] &chips[j], shard),
        },
{
    let mut tables: Vec<Option<RowMajorMatrix<u32>>> = Vec::new();
    let mut i: usize = 0;
    while i < chips.len()
        invariant
            i <= chips.len(),
            tables.len() == i,
            forall|j: int| 0 <= j < i ==> !fails_in(#[trigger] &chips[j], shard),
            forall|j: int| 0 <= j < i ==> is_contribution(&chips[j], shard, #[trigger] tables[j]),
        decreases chips.len() - i,
    {
        match shard_table(&chips[i], shard) {
            Ok(table) => {
                tables.push(table);
            },
            Err(e) => {
                assert(fails_in(&chips[i as int], shard));
                return Err(e);
            },
        }
        i = i + 1;
    }
    Ok(tables)
}

} // verus!
