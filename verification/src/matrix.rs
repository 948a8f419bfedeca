//! The dense row-major matrix of `p3_matrix`, as the tables of this crate use it.
//!
//! Cells are the canonical representatives of field elements, held as `u32`.
//! Nothing in this module is proved: every contract here restates what the
//! source of `p3_matrix` shows.

use p3_matrix::dense::DenseMatrix;
use p3_matrix::dense::RowMajorMatrix;
use p3_matrix::Matrix;
use vstd::prelude::*;

verus! {

/// `p3_matrix::dense::DenseMatrix`, opaque to the verifier.
#[verifier::external_type_specification]
#[verifier::external_body]
#[verifier::reject_recursive_types(T)]
#[verifier::reject_recursive_types(V)]
pub struct ExDenseMatrix<T, V>(DenseMatrix<T, V>);

/// The cells of a matrix in row-major order: its `values` field.
pub uninterp spec fn matrix_cells(m: DenseMatrix<u32, Vec<u32>>) -> Seq<u32>;

/// The number of columns of a matrix: its `width` field.
pub uninterp spec fn matrix_width(m: DenseMatrix<u32, Vec<u32>>) -> nat;

/// The number of rows of a matrix, as `Matrix::height` computes it.
pub open spec fn matrix_height(m: DenseMatrix<u32, Vec<u32>>) -> nat {
    if matrix_width(m) == 0 {
        0
    } else {
        matrix_cells(m).len() / matrix_width(m)
    }
}

/// `DenseMatrix::new`: stores `values` and `width` as given. The constructor
/// asserts in debug builds that the width divides the number of values.
#[verifier::external_body]
pub(crate) fn new_matrix(values: Vec<u32>, width: usize) -> (m: RowMajorMatrix<u32>)
    requires
        width == 0 || values.len() % width == 0,
    ensures
        matrix_cells(m) == values@,
        matrix_width(m) == width,
{
    RowMajorMatrix::new(values, width)
}

/// `Matrix::width` of a dense matrix: the `width` field.
#[verifier::external_body]
pub(crate) fn width_of(m: &RowMajorMatrix<u32>) -> (w: usize)
    ensures
        w == matrix_width(*m),
{
    m.width()
}

/// `Matrix::height` of a dense matrix: zero for width zero, else the number
/// of values divided by the width.
#[verifier::external_body]
pub(crate) fn height_of(m: &RowMajorMatrix<u32>) -> (h: usize)
    ensures
        h == matrix_height(*m),
{
    m.height()
}

/// `Matrix::get` of a dense matrix: the value at index `r * width + c`.
/// It panics when that index is past the end of the values.
#[verifier::external_body]
pub(crate) fn cell_at(m: &RowMajorMatrix<u32>, r: usize, c: usize) -> (v: u32)
    requires
        r * matrix_width(*m) + c < matrix_cells(*m).len(),
    ensures
        v == matrix_cells(*m)[r * matrix_width(*m) + c],
{
    m.get(r, c)
}

} // verus!
