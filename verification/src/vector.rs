use vstd::prelude::*;

verus! {

/// A cell coordinate, or the size of a board: `x` counts rows, `y` counts columns.
#[derive(PartialEq, Eq, Structural, Clone, Copy, Hash, Debug)]
pub struct Vector2 {
    pub x: i32,
    pub y: i32,
}

impl Vector2 {
    pub fn new(x: i32, y: i32) -> (v: Vector2)
        ensures
            v.x == x,
            v.y == y,
    {
        Vector2 { x, y }
    }

    /// Neither coordinate is negative, so both can index a board.
    pub open spec fn is_index(self) -> bool {
        self.x >= 0 && self.y >= 0
    }

    /// The pair `(x, y)` as machine indices.
    pub fn index(&self) -> (at: (usize, usize))
        requires
            self.is_index(),
        ensures
            at.0 == self.x,
            at.1 == self.y,
    {
        (self.x as usize, self.y as usize)
    }

    /// The pair `(x, y)` read as the numbers of rows and columns of a board.
    pub fn dim(&self) -> (size: (usize, usize))
        requires
            self.is_index(),
        ensures
            size.0 == self.x,
            size.1 == self.y,
    {
        self.index()
    }
}

} // verus!
