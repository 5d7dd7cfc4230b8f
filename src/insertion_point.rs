use vstd::prelude::*;

verus! {

/// A cursor position in display coordinates: `x` is the terminal column
/// and `y` the row of the text.
pub struct InsertionPoint {
    pub x: usize,
    pub y: usize,
}

impl InsertionPoint {
    /// The origin, top-left.
    pub fn new() -> (r: InsertionPoint)
        ensures
            r.x == 0,
            r.y == 0,
    {
        InsertionPoint { x: 0, y: 0 }
    }

    /// A copy of this point.
    pub fn clone(&self) -> (r: InsertionPoint)
        ensures
            r.x == self.x,
            r.y == self.y,
    {
        InsertionPoint { x: self.x, y: self.y }
    }
}

} // verus!
