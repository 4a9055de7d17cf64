use vstd::prelude::*;

verus! {

/// A square integer array stored in an `ndarray::Array2`.
#[verifier::external_body]
pub struct Grid {
    cells: ndarray::Array2<i32>,
}

/// The cells of a grid in row-major (logical) order.
pub uninterp spec fn grid_cells(g: Grid) -> Seq<i32>;

/// The shape `(rows, columns)` of a grid.
pub uninterp spec fn grid_shape(g: Grid) -> (usize, usize);

/// Relies on `Array2::from_shape_vec` with a plain `(rows, cols)` shape: the
/// vector becomes the cells in row-major order; it fails only when the
/// length differs from `rows * cols`, which `requires` rules out.
#[verifier::external_body]
pub fn grid_from_vec(n: usize, v: Vec<i32>) -> (g: Grid)
    requires
        v@.len() == n * n,
    ensures
        grid_cells(g) == v@,
        grid_shape(g) == (n, n),
{
    Grid { cells: ndarray::Array2::from_shape_vec((n, n), v).unwrap() }
}

/// Relies on indexing an `Array2` by `[row, col]`: the cell at that
/// position in row-major order; `requires` keeps the index in bounds, where
/// indexing would panic.
#[verifier::external_body]
pub fn grid_get(g: &Grid, row: usize, col: usize) -> (r: i32)
    requires
        row < grid_shape(*g).0,
        col < grid_shape(*g).1,
    ensures
        r == grid_cells(*g)[row * grid_shape(*g).1 + col],
{
    g.cells[[row, col]]
}

} // verus!
