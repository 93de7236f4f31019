use vstd::prelude::*;

verus! {

/// A 2-D pixel coordinate. Finder-pattern centers are reported at whole-pixel
/// resolution, so integer coordinates carry the geometry exactly.
#[derive(Clone, Copy, PartialEq, Eq, Structural, Debug)]
pub struct Point {
    pub x: i64,
    pub y: i64,
}

impl Point {
    pub fn new(x: i64, y: i64) -> (r: Point)
        ensures
            r.x == x,
            r.y == y,
    {
        Point { x, y }
    }
}

} // verus!
