//! The instruction-dispatch interaction: what the rows of a table
//! contribute to the ledger that binds every chip to the one stream of
//! executed instructions.

use crate::air::lemma_table_dimensions;
use crate::air::lemma_table_satisfies;
use crate::air::MachineAir;
use crate::air::matrix_row;
use crate::constraint::Constraints;
use crate::constraint::InstructionReceipt;
use crate::constraint::zero_row;
use crate::matrix::cell_at;
use crate::matrix::height_of;
use crate::matrix::matrix_cells;
use crate::matrix::matrix_height;
use crate::matrix::matrix_width;
use crate::matrix::width_of;
use crate::record::ExecutionRecord;
use p3_matrix::dense::RowMajorMatrix;
use vstd::prelude::*;

verus! {

/// The receipts among `receipts` that contribute: those whose multiplicity
/// is not zero, in order.
pub open spec fn active(receipts: Seq<InstructionReceipt<u32>>) -> Seq<InstructionReceipt<u32>>
    decreases receipts.len(),
{
    if receipts.len() == 0 {
        Seq::empty()
    } else if receipts.last().multiplicity != 0 {
        active(receipts.drop_last()).push(receipts.last())
    } else {
        active(receipts.drop_last())
    }
}

/// What the first `rows` rows of `trace` contribute under `constraints`,
/// row by row.
pub open spec fn ledger_of(constraints: Constraints, trace: RowMajorMatrix<u32>, rows: nat) -> Seq<
    InstructionReceipt<u32>,
>
    decreases rows,
{
    if rows == 0 {
        Seq::empty()
    } else {
        ledger_of(constraints, trace, (rows - 1) as nat) + active(
            constraints.receipts_on(matrix_row(trace, rows - 1)),
        )
    }
}

/// Whether every row of `trace` satisfies `constraints`, which speak of
/// rows of the width of `trace`.
pub open spec fn satisfies(constraints: Constraints, trace: RowMajorMatrix<u32>) -> bool {
    &&& matrix_width(trace) == constraints.width
    &&& forall|r: int|
        0 <= r < matrix_height(trace) ==> constraints.holds_on(#[trigger] matrix_row(trace, r))
}

/// A chip never emits a table that its own constraints reject: the table
/// that a chip builds for a record satisfies the constraints that the chip
/// declares, row for row.
pub proof fn lemma_trace_satisfies<C: MachineAir>(
    chip: &C,
    record: &ExecutionRecord,
    trace: RowMajorMatrix<u32>,
    constraints: Constraints,
)
    requires
        chip.arithmetization(record).is_table(record, trace),
        chip.arithmetization(record).trace_defined(record),
        constraints.width == chip.num_columns(),
        constraints.holds_on(zero_row(chip.num_columns())),
        constraints.silent_on(zero_row(chip.num_columns())),
        forall|other: &ExecutionRecord, i: int|
            0 <= i < chip.arithmetization(other).rows.len() && (#[trigger] chip.arithmetization(
                other,
            ).rows[i]) is Some ==> constraints.holds_on(chip.arithmetization(other).rows[i].unwrap()),
    ensures
        satisfies(constraints, trace),
{
    lemma_table_dimensions(chip, record, trace);
    assert forall|r: int| 0 <= r < matrix_height(trace) implies constraints.holds_on(
        #[trigger] matrix_row(trace, r),
    ) by {
        lemma_table_satisfies(chip, record, trace, constraints, r);
    }
}

/// A row below the height of a matrix lies within its cells.
proof fn lemma_row_in_bounds(len: int, width: int, r: int)
    requires
        width > 0,
        len >= 0,
        0 <= r < len / width,
    ensures
        0 <= r * width,
        (r + 1) * width <= len,
        (r + 1) * width == r * width + width,
{
    vstd::arithmetic::div_mod::lemma_fundamental_div_mod(len, width);
    assert((r + 1) * width <= (len / width) * width) by (nonlinear_arith)
        requires
            r + 1 <= len / width,
            width > 0,
    ;
    assert((len / width) * width == width * (len / width)) by (nonlinear_arith);
    assert((r + 1) * width == r * width + width) by (nonlinear_arith);
    assert(0 <= r * width) by (nonlinear_arith)
        requires
            r >= 0,
            width > 0,
    ;
}

/// Copies row `r` out of a matrix, if the matrix has such a row.
pub fn read_row(trace: &RowMajorMatrix<u32>, r: usize) -> (out: Option<Vec<u32>>)
    ensures
        out is Some <==> r < matrix_height(*trace),
        out matches Some(row) ==> row@ == matrix_row(*trace, r as int),
{
    if r >= height_of(trace) {
        return None;
    }
    let width: usize = width_of(trace);
    proof {
        lemma_row_in_bounds(matrix_cells(*trace).len() as int, width as int, r as int);
    }
    let mut row: Vec<u32> = Vec::new();
    let mut c: usize = 0;
    while c < width
        invariant
            c <= width,
            width == matrix_width(*trace),
            0 <= r * width,
            (r + 1) * width <= matrix_cells(*trace).len(),
            (r + 1) * width == r * width + width,
            row@.len() == c,
            forall|j: int| 0 <= j < c ==> row@[j] == matrix_cells(*trace)[r * width + j],
        decreases width - c,
    {
        row.push(cell_at(trace, r, c));
        c = c + 1;
    }
    assert(row@ =~= matrix_row(*trace, r as int));
    Some(row)
}

/// Whether every row of `trace` satisfies `constraints`.
pub fn check_trace(constraints: &Constraints, trace: &RowMajorMatrix<u32>) -> (ok: bool)
    requires
        constraints.wf(),
    ensures
        ok == satisfies(*constraints, *trace),
{
    if width_of(trace) != constraints.width {
        return false;
    }
    let rows: usize = height_of(trace);
    let mut r: usize = 0;
    while r < rows
        invariant
            r <= rows,
            rows == matrix_height(*trace),
            constraints.wf(),
            matrix_width(*trace) == constraints.width,
            forall|q: int| 0 <= q < r ==> constraints.holds_on(#[trigger] matrix_row(*trace, q)),
        decreases rows - r,
    {
        proof {
            lemma_row_in_bounds(
                matrix_cells(*trace).len() as int,
                matrix_width(*trace) as int,
                r as int,
            );
        }
        let holds: bool = match read_row(trace, r) {
            Some(row) => constraints.check_row(&row),
            None => false,
        };
        if !holds {
            return false;
        }
        r = r + 1;
    }
    true
}

/// Collects what the rows of `trace` contribute to the dispatch ledger
/// under `constraints`: for each row in order, its receipts of non-zero
/// multiplicity. None where the constraints speak of rows of another width.
pub fn ledger(constraints: &Constraints, trace: &RowMajorMatrix<u32>) -> (r: Option<
    Vec<InstructionReceipt<u32>>,
>)
    requires
        constraints.wf(),
    ensures
        r is Some <==> matrix_width(*trace) == constraints.width,
        r matches Some(entries) ==> entries@ == ledger_of(
            *constraints,
            *trace,
            matrix_height(*trace),
        ),
{
    if width_of(trace) != constraints.width {
        return None;
    }
    let rows: usize = height_of(trace);
    let mut entries: Vec<InstructionReceipt<u32>> = Vec::new();
    let mut r: usize = 0;
    while r < rows
        invariant
            r <= rows,
            rows == matrix_height(*trace),
            constraints.wf(),
            matrix_width(*trace) == constraints.width,
            entries@ == ledger_of(*constraints, *trace, r as nat),
        decreases rows - r,
    {
        proof {
            lemma_row_in_bounds(
                matrix_cells(*trace).len() as int,
                matrix_width(*trace) as int,
                r as int,
            );
        }
        let receipts: Vec<InstructionReceipt<u32>> = match read_row(trace, r) {
            Some(row) => match constraints.contributions(&row) {
                Some(receipts) => receipts,
                None => Vec::new(),
            },
            None => Vec::new(),
        };
        assert(receipts@ == constraints.receipts_on(matrix_row(*trace, r as int)));
        let ghost before = entries@;
        let mut k: usize = 0;
        while k < receipts.len()
            invariant
                k <= receipts.len(),
                entries@ == before + active(receipts@.take(k as int)),
            decreases receipts.len() - k,
        {
            proof {
                let now = receipts@.take(k + 1);
                assert(now.drop_last() =~= receipts@.take(k as int));
                assert(now.last() == receipts@[k as int]);
            }
            if receipts[k].multiplicity != 0 {
                entries.push(receipts[k]);
                assert(entries@ =~= before + active(receipts@.take(k + 1)));
            }
            k = k + 1;
        }
        assert(receipts@.take(receipts.len() as int) =~= receipts@);
        r = r + 1;
    }
    Some(entries)
}

} // verus!
