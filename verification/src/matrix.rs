//! Dense integer matrices, stored in `nalgebra`'s heap-allocated matrix type.
//!
//! The verifier does not read `nalgebra`.  What this module says of a
//! matrix is believed, not proved: the three functions below each make one
//! call into `nalgebra`, and their contracts state what that call does to
//! the entries.

use vstd::prelude::*;
use nalgebra::DMatrix;

verus! {

/// A dense matrix of integers, held in a `nalgebra::DMatrix<i128>`.  The
/// buffer is hidden from the verifier: all that is known of a matrix is what
/// [`matrix_rows`] and [`matrix_ncols`] say of it.
#[verifier::external_body]
pub struct IntMatrix {
    cells: DMatrix<i128>,
}

/// The entries of a matrix, row by row: `matrix_rows(m)[i][j]` is the entry
/// in row `i` and column `j`.
pub uninterp spec fn matrix_rows(m: IntMatrix) -> Seq<Seq<i128>>;

/// The number of columns of a matrix.
pub uninterp spec fn matrix_ncols(m: IntMatrix) -> nat;

/// Every row of the matrix holds one entry for each column.
pub open spec fn well_shaped(m: IntMatrix) -> bool {
    forall|i: int|
        0 <= i < matrix_rows(m).len() ==> (#[trigger] matrix_rows(m)[i]).len() == matrix_ncols(m)
}

/// The matrix has `nrows` rows of `ncols` entries each.
pub open spec fn has_shape(m: IntMatrix, nrows: nat, ncols: nat) -> bool {
    &&& matrix_rows(m).len() == nrows
    &&& matrix_ncols(m) == ncols
    &&& well_shaped(m)
}

/// `DMatrix::zeros(nrows, ncols)`: a matrix of that shape whose entries are
/// all zero.  The bound keeps the buffer of `nrows * ncols` entries of 16
/// bytes within what a vector can hold.
#[verifier::external_body]
pub(crate) fn matrix_zeros(nrows: usize, ncols: usize) -> (m: IntMatrix)
    requires
        nrows * ncols * 16 <= isize::MAX,
    ensures
        has_shape(m, nrows as nat, ncols as nat),
        forall|i: int, j: int|
            0 <= i < nrows && 0 <= j < ncols ==> (#[trigger] matrix_rows(m)[i][j]) == 0,
{
    IntMatrix { cells: DMatrix::zeros(nrows, ncols) }
}

/// `Matrix::index` with a pair `(row, column)`: the entry at that place.
/// The pair lies within the matrix, outside of which the call panics.
#[verifier::external_body]
pub(crate) fn matrix_get(m: &IntMatrix, i: usize, j: usize) -> (v: i128)
    requires
        i < matrix_rows(*m).len(),
        j < matrix_ncols(*m),
    ensures
        v == matrix_rows(*m)[i as int][j as int],
{
    m.cells[(i, j)]
}

/// `Matrix::index_mut` with a pair `(row, column)`, assigned through: that
/// entry becomes `v`, every other entry and the shape stay as they were.
/// The pair lies within the matrix, outside of which the call panics.
#[verifier::external_body]
pub(crate) fn matrix_set(m: &mut IntMatrix, i: usize, j: usize, v: i128)
    requires
        i < matrix_rows(*old(m)).len(),
        j < matrix_ncols(*old(m)),
    ensures
        matrix_rows(*final(m)) == matrix_rows(*old(m)).update(
            i as int,
            matrix_rows(*old(m))[i as int].update(j as int, v),
        ),
        matrix_ncols(*final(m)) == matrix_ncols(*old(m)),
{
    m.cells[(i, j)] = v;
}

} // verus!
