//! Trusted interface to the two-dimensional index grid.
//!
//! The tile map stores its palette indices in an [`array2d::Array2D`].
//! Verus does not read that crate, so the grid's contents and dimensions
//! are named by uninterpreted functions, and each operation the map needs
//! is a thin wrapper whose contract states what the crate's source shows.

use vstd::prelude::*;

verus! {

/// Declares `array2d::Array2D` so it can stand in fields and signatures.
#[verifier::external_type_specification]
#[verifier::external_body]
#[verifier::reject_recursive_types(T)]
pub struct ExArray2D<T>(array2d::Array2D<T>);

/// Declares `array2d::Error` so wrappers can return it.
#[verifier::external_type_specification]
#[verifier::external_body]
pub struct ExArray2DError(array2d::Error);

/// The row-major contents of an index grid.
pub uninterp spec fn grid_cells(g: array2d::Array2D<usize>) -> Seq<usize>;

/// The number of rows of an index grid.
pub uninterp spec fn grid_rows(g: array2d::Array2D<usize>) -> int;

/// The number of columns of an index grid.
pub uninterp spec fn grid_cols(g: array2d::Array2D<usize>) -> int;

/// Result of building an index grid.
pub type GridResult = Result<array2d::Array2D<usize>, array2d::Error>;

/// Relies on `array2d::Array2D::from_row_major`: it stores the given
/// row-major elements under the given dimensions, and errs exactly when
/// `rows * cols` differs from the number of elements.
#[verifier::external_body]
pub(crate) fn grid_from_row_major(cells: &Vec<usize>, rows: usize, cols: usize) -> (g: GridResult)
    requires
        rows * cols <= usize::MAX,
    ensures
        g is Ok <==> rows * cols == cells@.len(),
        g matches Ok(a) ==> grid_cells(a) == cells@ && grid_rows(a) == rows && grid_cols(a)
            == cols,
{
    array2d::Array2D::from_row_major(cells, rows, cols)
}

/// Relies on `array2d::Array2D::get`: in bounds it returns the element at
/// row-major position `row * cols + column`, out of bounds it returns
/// `None`.
#[verifier::external_body]
pub(crate) fn grid_get(g: &array2d::Array2D<usize>, row: usize, column: usize) -> (r: Option<usize>)
    ensures
        row < grid_rows(*g) && column < grid_cols(*g) ==> r == Some(
            grid_cells(*g)[row * grid_cols(*g) + column],
        ),
        !(row < grid_rows(*g) && column < grid_cols(*g)) ==> r is None,
{
    g.get(row, column).copied()
}

/// Relies on `array2d::Array2D::num_rows`.
#[verifier::external_body]
pub(crate) fn grid_num_rows(g: &array2d::Array2D<usize>) -> (r: usize)
    ensures
        r == grid_rows(*g),
{
    g.num_rows()
}

/// Relies on `array2d::Array2D::num_columns`.
#[verifier::external_body]
pub(crate) fn grid_num_columns(g: &array2d::Array2D<usize>) -> (r: usize)
    ensures
        r == grid_cols(*g),
{
    g.num_columns()
}

} // verus!
