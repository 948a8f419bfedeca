//! Constraints as data: what a chip asserts of every row of its table, and
//! the instruction receipts it contributes to the shared dispatch ledger.

use crate::field::field_add;
use crate::field::field_mul;
use crate::field::FIELD_ORDER;
use crate::field::field_sub;
use crate::field::is_canonical;
use crate::field::reduce;
use vstd::prelude::*;

verus! {

/// A variable of the current row: the slot in column `column`.
#[derive(Debug, Clone, Copy, PartialEq, Eq, Structural)]
pub struct Var {
    /// The index of the column.
    pub column: usize,
}

/// A polynomial expression over the slots of the current row.
#[derive(Debug, PartialEq, Eq)]
pub enum Expr {
    /// The field element that the integer stands for.
    Constant(u32),
    /// The slot in the given column.
    Slot(Var),
    /// The sum of two expressions.
    Sum(Box<Expr>, Box<Expr>),
    /// The difference of two expressions.
    Difference(Box<Expr>, Box<Expr>),
    /// The product of two expressions.
    Product(Box<Expr>, Box<Expr>),
}

impl Expr {
    /// Whether the expression reads only columns below `width`.
    pub open spec fn fits(self, width: nat) -> bool
        decreases self,
    {
        match self {
            Expr::Constant(_) => true,
            Expr::Slot(var) => var.column < width,
            Expr::Sum(left, right) => left.fits(width) && right.fits(width),
            Expr::Difference(left, right) => left.fits(width) && right.fits(width),
            Expr::Product(left, right) => left.fits(width) && right.fits(width),
        }
    }

    /// The field element that the expression takes on `row`.
    pub open spec fn value(self, row: Seq<u32>) -> u32
        decreases self,
    {
        match self {
            Expr::Constant(c) => reduce(c as int),
            Expr::Slot(var) => reduce(row[var.column as int] as int),
            Expr::Sum(left, right) => reduce(left.value(row) + right.value(row)),
            Expr::Difference(left, right) => reduce(left.value(row) - right.value(row)),
            Expr::Product(left, right) => reduce(left.value(row) * right.value(row)),
        }
    }

    /// Whether the expression reads only columns below `width`.
    pub fn reads_within(&self, width: usize) -> (r: bool)
        ensures
            r == self.fits(width as nat),
        decreases self,
    {
        match self {
            Expr::Constant(_) => true,
            Expr::Slot(var) => var.column < width,
            Expr::Sum(left, right) => left.reads_within(width) && right.reads_within(width),
            Expr::Difference(left, right) => left.reads_within(width) && right.reads_within(width),
            Expr::Product(left, right) => left.reads_within(width) && right.reads_within(width),
        }
    }

    /// The constant zero.
    pub fn zero() -> (e: Expr)
        ensures
            e == Expr::Constant(0),
    {
        Expr::Constant(0)
    }

    /// The constant one.
    pub fn one() -> (e: Expr)
        ensures
            e == Expr::Constant(1),
    {
        Expr::Constant(1)
    }

    /// The field element that the expression takes on `row`.
    pub fn evaluate(&self, row: &Vec<u32>) -> (v: u32)
        requires
            self.fits(row@.len()),
        ensures
            v == self.value(row@),
            is_canonical(v),
        decreases self,
    {
        match self {
            Expr::Constant(c) => *c % FIELD_ORDER,
            Expr::Slot(var) => row[var.column] % FIELD_ORDER,
            Expr::Sum(left, right) => field_add(left.evaluate(row), right.evaluate(row)),
            Expr::Difference(left, right) => field_sub(left.evaluate(row), right.evaluate(row)),
            Expr::Product(left, right) => field_mul(left.evaluate(row), right.evaluate(row)),
        }
    }
}

/// Every value of an expression is a canonical field element.
pub proof fn lemma_value_canonical(e: Expr, row: Seq<u32>)
    ensures
        is_canonical(e.value(row)),
{
}

/// The expression `x * (x - 1)`, which is zero when `x` is zero or one.
pub open spec fn boolean_of(x: Var) -> Expr {
    Expr::Product(
        Box::new(Expr::Slot(x)),
        Box::new(Expr::Difference(Box::new(Expr::Slot(x)), Box::new(Expr::Constant(1)))),
    )
}

/// A slot that holds zero or one satisfies the boolean constraint.
pub proof fn lemma_boolean_of(x: Var, row: Seq<u32>)
    requires
        x.column < row.len(),
        row[x.column as int] == 0 || row[x.column as int] == 1,
    ensures
        boolean_of(x).value(row) == 0,
{
    reveal_with_fuel(Expr::value, 4);
    let slot = Expr::Slot(x);
    let less = Expr::Difference(Box::new(Expr::Slot(x)), Box::new(Expr::Constant(1)));
    assert(slot.value(row) == row[x.column as int]);
    assert(Expr::Constant(1).value(row) == 1);
    assert(less.value(row) == reduce(slot.value(row) - 1));
    assert(boolean_of(x).value(row) == reduce(slot.value(row) * less.value(row)));
    if row[x.column as int] == 0 {
        assert(slot.value(row) * less.value(row) == 0);
    } else {
        assert(less.value(row) == 0);
        assert(slot.value(row) * less.value(row) == 0);
    }
}

/// One receipt of the instruction-dispatch interaction: the tuple that a row
/// claims to have proved, and how many times it claims it.
///
/// Over `Expr` it is what a chip declares of every row; over `u32` it is
/// what one row contributes.
#[derive(Debug, Clone, Copy, PartialEq, Eq)]
pub struct InstructionReceipt<T> {
    /// The program counter of the instruction.
    pub pc: T,
    /// The program counter after the instruction.
    pub next_pc: T,
    /// The opcode of the instruction.
    pub opcode: T,
    /// The first operand.
    pub a: T,
    /// The second operand.
    pub b: T,
    /// The third operand.
    pub c: T,
    /// Whether the first operand is the zero register.
    pub op_a_0: T,
    /// Whether the first operand may not be written.
    pub op_a_immutable: T,
    /// Whether the instruction accesses memory.
    pub is_memory: T,
    /// Whether the instruction is a system call.
    pub is_syscall: T,
    /// Whether the instruction halts the machine.
    pub is_halt: T,
    /// How many times the row contributes the tuple.
    pub multiplicity: T,
}

/// Whether every expression of the receipt reads only columns below `width`.
pub open spec fn receipt_fits(receipt: InstructionReceipt<Expr>, width: nat) -> bool {
    &&& receipt.pc.fits(width)
    &&& receipt.next_pc.fits(width)
    &&& receipt.opcode.fits(width)
    &&& receipt.a.fits(width)
    &&& receipt.b.fits(width)
    &&& receipt.c.fits(width)
    &&& receipt.op_a_0.fits(width)
    &&& receipt.op_a_immutable.fits(width)
    &&& receipt.is_memory.fits(width)
    &&& receipt.is_syscall.fits(width)
    &&& receipt.is_halt.fits(width)
    &&& receipt.multiplicity.fits(width)
}

/// What `row` contributes through the receipt.
pub open spec fn receipt_value(receipt: InstructionReceipt<Expr>, row: Seq<u32>) -> InstructionReceipt<
    u32,
> {
    InstructionReceipt {
        pc: receipt.pc.value(row),
        next_pc: receipt.next_pc.value(row),
        opcode: receipt.opcode.value(row),
        a: receipt.a.value(row),
        b: receipt.b.value(row),
        c: receipt.c.value(row),
        op_a_0: receipt.op_a_0.value(row),
        op_a_immutable: receipt.op_a_immutable.value(row),
        is_memory: receipt.is_memory.value(row),
        is_syscall: receipt.is_syscall.value(row),
        is_halt: receipt.is_halt.value(row),
        multiplicity: receipt.multiplicity.value(row),
    }
}

/// The row of `width` columns whose every slot is zero.
pub open spec fn zero_row(width: nat) -> Seq<u32> {
    Seq::new(width, |c: int| 0u32)
}

/// What a chip asserts of every row of its table.
#[derive(Debug, PartialEq, Eq)]
pub struct Constraints {
    /// The number of columns of the rows that the constraints speak of.
    pub width: usize,
    /// The expressions that are zero on every row.
    pub zeros: Vec<Expr>,
    /// The receipts that every row contributes to the dispatch ledger.
    pub receipts: Vec<InstructionReceipt<Expr>>,
}

impl Constraints {
    /// Whether every expression reads only columns below the width.
    pub open spec fn wf(&self) -> bool {
        &&& forall|k: int| 0 <= k < self.zeros@.len() ==> (#[trigger] self.zeros@[k]).fits(self.width as nat)
        &&& forall|k: int|
            0 <= k < self.receipts@.len() ==> receipt_fits(#[trigger] self.receipts@[k], self.width as nat)
    }

    /// Whether `row` satisfies the constraints: every asserted expression
    /// is zero on it.
    pub open spec fn holds_on(&self, row: Seq<u32>) -> bool {
        forall|k: int| 0 <= k < self.zeros@.len() ==> (#[trigger] self.zeros@[k]).value(row) == 0
    }

    /// What `row` contributes to the dispatch ledger, receipt by receipt.
    pub open spec fn receipts_on(&self, row: Seq<u32>) -> Seq<InstructionReceipt<u32>> {
        Seq::new(self.receipts@.len(), |k: int| receipt_value(self.receipts@[k], row))
    }

    /// Whether `row` contributes nothing: every receipt has multiplicity
    /// zero on it.
    pub open spec fn silent_on(&self, row: Seq<u32>) -> bool {
        forall|k: int|
            0 <= k < self.receipts@.len() ==> (#[trigger] self.receipts@[k]).multiplicity.value(row) == 0
    }

    /// Whether every expression reads only columns below the width.
    pub fn validate(&self) -> (r: bool)
        ensures
            r == self.wf(),
    {
        let mut k: usize = 0;
        while k < self.zeros.len()
            invariant
                k <= self.zeros@.len(),
                forall|j: int| 0 <= j < k ==> (#[trigger] self.zeros@[j]).fits(self.width as nat),
            decreases self.zeros@.len() - k,
        {
            if !self.zeros[k].reads_within(self.width) {
                return false;
            }
            k = k + 1;
        }
        let mut k: usize = 0;
        while k < self.receipts.len()
            invariant
                k <= self.receipts@.len(),
                forall|j: int| 0 <= j < self.zeros@.len() ==> (#[trigger] self.zeros@[j]).fits(self.width as nat),
                forall|j: int|
                    0 <= j < k ==> receipt_fits(#[trigger] self.receipts@[j], self.width as nat),
            decreases self.receipts@.len() - k,
        {
            let receipt = &self.receipts[k];
            let width: usize = self.width;
            let fits: bool = receipt.pc.reads_within(width) && receipt.next_pc.reads_within(width)
                && receipt.opcode.reads_within(width) && receipt.a.reads_within(width)
                && receipt.b.reads_within(width) && receipt.c.reads_within(width)
                && receipt.op_a_0.reads_within(width) && receipt.op_a_immutable.reads_within(width)
                && receipt.is_memory.reads_within(width) && receipt.is_syscall.reads_within(width)
                && receipt.is_halt.reads_within(width) && receipt.multiplicity.reads_within(width);
            if !fits {
                return false;
            }
            k = k + 1;
        }
        true
    }

    /// Creates an empty set of constraints over rows of `width` columns.
    pub fn new(width: usize) -> (constraints: Self)
        ensures
            constraints.width == width,
            constraints.zeros@ == Seq::<Expr>::empty(),
            constraints.receipts@ == Seq::<InstructionReceipt<Expr>>::empty(),
            constraints.wf(),
    {
        Constraints { width, zeros: Vec::new(), receipts: Vec::new() }
    }

    /// Asserts that `expr` is zero on every row.
    pub fn assert_zero(&mut self, expr: Expr)
        requires
            old(self).wf(),
            expr.fits(old(self).width as nat),
        ensures
            final(self).wf(),
            final(self).width == old(self).width,
            final(self).zeros@ == old(self).zeros@.push(expr),
            final(self).receipts@ == old(self).receipts@,
    {
        self.zeros.push(expr);
    }

    /// Asserts that the slot `x` is zero or one on every row: that
    /// `x * (x - 1)` is zero.
    pub fn assert_bool(&mut self, x: Var)
        requires
            old(self).wf(),
            x.column < old(self).width,
        ensures
            final(self).wf(),
            final(self).width == old(self).width,
            final(self).zeros@ == old(self).zeros@.push(boolean_of(x)),
            final(self).receipts@ == old(self).receipts@,
    {
        let expr = Expr::Product(
            Box::new(Expr::Slot(x)),
            Box::new(Expr::Difference(Box::new(Expr::Slot(x)), Box::new(Expr::Constant(1)))),
        );
        proof {
            reveal_with_fuel(Expr::fits, 4);
        }
        self.assert_zero(expr);
    }

    /// Declares that every row contributes `receipt` to the dispatch ledger.
    pub fn receive_instruction(&mut self, receipt: InstructionReceipt<Expr>)
        requires
            old(self).wf(),
            receipt_fits(receipt, old(self).width as nat),
        ensures
            final(self).wf(),
            final(self).width == old(self).width,
            final(self).zeros@ == old(self).zeros@,
            final(self).receipts@ == old(self).receipts@.push(receipt),
    {
        self.receipts.push(receipt);
    }

    /// Whether `row` has the width that the constraints speak of and
    /// satisfies them.
    pub fn check_row(&self, row: &Vec<u32>) -> (holds: bool)
        requires
            self.wf(),
        ensures
            holds == (row@.len() == self.width && self.holds_on(row@)),
    {
        if row.len() != self.width {
            return false;
        }
        let mut k: usize = 0;
        while k < self.zeros.len()
            invariant
                k <= self.zeros@.len(),
                self.wf(),
                row@.len() == self.width,
                forall|j: int| 0 <= j < k ==> (#[trigger] self.zeros@[j]).value(row@) == 0,
            decreases self.zeros@.len() - k,
        {
            if self.zeros[k].evaluate(row) != 0 {
                return false;
            }
            k = k + 1;
        }
        true
    }

    /// What `row` contributes to the dispatch ledger, receipt by receipt.
    /// None where the row does not have the width that the constraints
    /// speak of.
    pub fn contributions(&self, row: &Vec<u32>) -> (r: Option<Vec<InstructionReceipt<u32>>>)
        requires
            self.wf(),
        ensures
            r is Some <==> row@.len() == self.width,
            r matches Some(out) ==> out@ == self.receipts_on(row@),
    {
        if row.len() != self.width {
            return None;
        }
        let mut out: Vec<InstructionReceipt<u32>> = Vec::new();
        let mut k: usize = 0;
        while k < self.receipts.len()
            invariant
                k <= self.receipts@.len(),
                self.wf(),
                row@.len() == self.width,
                out@.len() == k,
                forall|j: int| 0 <= j < k ==> out@[j] == receipt_value(self.receipts@[j], row@),
            decreases self.receipts@.len() - k,
        {
            let receipt = &self.receipts[k];
            out.push(
                InstructionReceipt {
                    pc: receipt.pc.evaluate(row),
                    next_pc: receipt.next_pc.evaluate(row),
                    opcode: receipt.opcode.evaluate(row),
                    a: receipt.a.evaluate(row),
                    b: receipt.b.evaluate(row),
                    c: receipt.c.evaluate(row),
                    op_a_0: receipt.op_a_0.evaluate(row),
                    op_a_immutable: receipt.op_a_immutable.evaluate(row),
                    is_memory: receipt.is_memory.evaluate(row),
                    is_syscall: receipt.is_syscall.evaluate(row),
                    is_halt: receipt.is_halt.evaluate(row),
                    multiplicity: receipt.multiplicity.evaluate(row),
                },
            );
            k = k + 1;
        }
        assert(out@ =~= self.receipts_on(row@));
        Some(out)
    }
}

} // verus!
