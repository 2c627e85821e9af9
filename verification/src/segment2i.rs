//! Directed grid-aligned segment between two integer points; the unit of
//! boundary geometry produced by contour extraction.

use vstd::prelude::*;
use crate::vector2i::Vector2I;

verus! {

#[derive(Clone, Copy, PartialEq, Eq, Structural, Debug)]
pub struct Segment2I {
    pub from: Vector2I,
    pub to: Vector2I,
}

impl Segment2I {
    /// The displacement from the start point to the end point.
    pub fn diff(&self) -> (r: Vector2I)
        requires
            i32::MIN <= self.to.x - self.from.x <= i32::MAX,
            i32::MIN <= self.to.y - self.from.y <= i32::MAX,
        ensures
            r.x == self.to.x - self.from.x,
            r.y == self.to.y - self.from.y,
    {
        self.to.sub(self.from)
    }
}

} // verus!
