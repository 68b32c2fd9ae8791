use vstd::prelude::*;
use crate::piece::Piece;

verus! {

/// A rectangular board of cells, kept in an `ndarray::Array2`.
///
/// Nothing is known of a grid but what the functions below say of it.
#[verifier::external_body]
#[derive(Debug, Hash)]
pub struct Grid {
    cells: ndarray::Array2<Piece>,
}

/// The cells of a grid, row by row.
pub uninterp spec fn grid_rows(grid: Grid) -> Seq<Seq<Piece>>;

impl Grid {
    /// `ndarray::ArrayBase::from_elem` with the shape `(rows, cols)`: an array of
    /// that shape in which every cell holds `piece`. The call panics where the
    /// number of cells does not fit in `isize`, which `requires` leaves out.
    #[verifier::external_body]
    pub(crate) fn filled(rows: usize, cols: usize, piece: Piece) -> (grid: Grid)
        requires
            rows >= 1,
            cols >= 1,
            rows * cols <= isize::MAX,
        ensures
            grid_rows(grid).len() == rows,
            forall|i: int| 0 <= i < rows ==> (#[trigger] grid_rows(grid)[i]).len() == cols,
            forall|i: int, j: int|
                0 <= i < rows && 0 <= j < cols ==> (#[trigger] grid_rows(grid)[i][j]) == piece,
    {
        Grid { cells: ndarray::Array2::from_elem((rows, cols), piece) }
    }

    /// `ndarray::ArrayBase::dim` on a two-dimensional array: the number of rows,
    /// and the number of columns, which is the length of every row.
    #[verifier::external_body]
    pub(crate) fn dim(&self) -> (size: (usize, usize))
        ensures
            size.0 == grid_rows(*self).len(),
            forall|i: int| 0 <= i < size.0 ==> (#[trigger] grid_rows(*self)[i]).len() == size.1,
    {
        self.cells.dim()
    }

    /// Indexing an `ndarray` array by `[i, j]`: the cell in row `i`, column `j`.
    /// The index panics outside the array, which `requires` leaves out.
    #[verifier::external_body]
    pub(crate) fn get(&self, i: usize, j: usize) -> (piece: Piece)
        requires
            i < grid_rows(*self).len(),
            j < grid_rows(*self)[i as int].len(),
        ensures
            piece == grid_rows(*self)[i as int][j as int],
    {
        self.cells[[i, j]]
    }

    /// Assigning through the index `[i, j]` of an `ndarray` array: that cell
    /// holds `piece` afterwards and every other cell is as before. The index
    /// panics outside the array, which `requires` leaves out.
    #[verifier::external_body]
    pub(crate) fn set(&mut self, i: usize, j: usize, piece: Piece)
        requires
            i < grid_rows(*old(self)).len(),
            j < grid_rows(*old(self))[i as int].len(),
        ensures
            grid_rows(*final(self)) == grid_rows(*old(self)).update(
                i as int,
                grid_rows(*old(self))[i as int].update(j as int, piece),
            ),
        no_unwind
    {
        self.cells[[i, j]] = piece;
    }

    /// `Clone::clone` of an `ndarray` array: an array with the same cells.
    #[verifier::external_body]
    pub(crate) fn duplicate(&self) -> (copy: Grid)
        ensures
            grid_rows(copy) == grid_rows(*self),
    {
        Grid { cells: self.cells.clone() }
    }
}

} // verus!
