//! The two-dimensional buffers of the renderer, kept in an `ndarray` array.

use vstd::prelude::*;

verus! {

/// A rectangle of integer cells, addressed by row and column.
///
/// The cells live in an `ndarray::Array2<i128>`. Verus does not look inside:
/// what it knows of a grid is [`grid_cells`], and what the three functions
/// below say of it.
#[verifier::external_body]
pub struct Grid {
    cells: ndarray::Array2<i128>,
}

/// What a grid holds: its rows from the top, each a sequence of cells from
/// the left.
pub uninterp spec fn grid_cells(g: Grid) -> Seq<Seq<i128>>;

/// Whether `cells` is a rectangle of `rows` rows and `cols` columns.
pub open spec fn has_shape(cells: Seq<Seq<i128>>, rows: int, cols: int) -> bool {
    &&& cells.len() == rows
    &&& forall|r: int| 0 <= r < rows ==> (#[trigger] cells[r]).len() == cols
}

/// A grid of `rows` by `cols` cells, each nought.
///
/// Calls `ndarray::Array2::zeros` with the shape `(rows, cols)`. Not proved:
/// that the array has that shape and holds the zero of `i128` in every cell,
/// as the documentation of `zeros` and of `from_elem` says. `zeros` panics
/// where the product of the axis lengths that are not nought overflows
/// `isize`, and allocating the cells fails where their bytes do. The
/// precondition bounds each axis by itself, so that an empty grid is within
/// bounds too, and the two together, at sixteen bytes to a cell.
#[verifier::external_body]
pub(crate) fn grid_zeros(rows: usize, cols: usize) -> (g: Grid)
    requires
        rows * 16 <= isize::MAX,
        cols * 16 <= isize::MAX,
        rows * cols * 16 <= isize::MAX,
    ensures
        has_shape(grid_cells(g), rows as int, cols as int),
        forall|r: int, c: int|
            0 <= r < rows && 0 <= c < cols ==> #[trigger] grid_cells(g)[r][c] == 0,
{
    Grid { cells: ndarray::Array2::zeros((rows, cols)) }
}

/// The cell at `row` and `col`.
///
/// Indexes the array with `[[row, col]]`, ndarray's `Index` for a pair of
/// indices. Not proved: that this is the cell of that row and column.
/// Indexing panics outside the array's shape; the precondition keeps inside.
#[verifier::external_body]
pub(crate) fn grid_get(g: &Grid, row: usize, col: usize) -> (v: i128)
    requires
        row < grid_cells(*g).len(),
        col < grid_cells(*g)[row as int].len(),
    ensures
        v == grid_cells(*g)[row as int][col as int],
{
    g.cells[[row, col]]
}

/// Stores `v` in the cell at `row` and `col`.
///
/// Assigns through `[[row, col]]`, ndarray's `IndexMut` for a pair of
/// indices. Not proved: that this cell takes the value and every other cell
/// keeps its own. Indexing panics outside the array's shape; the precondition
/// keeps inside.
#[verifier::external_body]
pub(crate) fn grid_set(g: &mut Grid, row: usize, col: usize, v: i128)
    requires
        row < grid_cells(*old(g)).len(),
        col < grid_cells(*old(g))[row as int].len(),
    ensures
        grid_cells(*final(g)) == grid_cells(*old(g)).update(
            row as int,
            grid_cells(*old(g))[row as int].update(col as int, v),
        ),
{
    g.cells[[row, col]] = v;
}

} // verus!
