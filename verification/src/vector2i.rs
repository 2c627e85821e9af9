//! Integer 2D vector used for global texel coordinates, chunk-local
//! coordinates and chunk indices.

use vstd::prelude::*;

verus! {

#[derive(Clone, Copy, PartialEq, Eq, Structural, Hash, Debug)]
pub struct Vector2I {
    pub x: i32,
    pub y: i32,
}

impl Vector2I {
    /// Componentwise sum.
    pub fn add(self, rhs: Vector2I) -> (r: Vector2I)
        requires
            i32::MIN <= self.x + rhs.x <= i32::MAX,
            i32::MIN <= self.y + rhs.y <= i32::MAX,
        ensures
            r.x == self.x + rhs.x,
            r.y == self.y + rhs.y,
    {
        Vector2I { x: self.x + rhs.x, y: self.y + rhs.y }
    }

    /// Componentwise difference.
    pub fn sub(self, rhs: Vector2I) -> (r: Vector2I)
        requires
            i32::MIN <= self.x - rhs.x <= i32::MAX,
            i32::MIN <= self.y - rhs.y <= i32::MAX,
        ensures
            r.x == self.x - rhs.x,
            r.y == self.y - rhs.y,
    {
        Vector2I { x: self.x - rhs.x, y: self.y - rhs.y }
    }

    /// Componentwise negation.
    pub fn neg(self) -> (r: Vector2I)
        requires
            self.x > i32::MIN,
            self.y > i32::MIN,
        ensures
            r.x == -self.x,
            r.y == -self.y,
    {
        Vector2I { x: -self.x, y: -self.y }
    }

    /// Componentwise product.
    pub fn mul(self, rhs: Vector2I) -> (r: Vector2I)
        requires
            i32::MIN <= self.x * rhs.x <= i32::MAX,
            i32::MIN <= self.y * rhs.y <= i32::MAX,
        ensures
            r.x == self.x * rhs.x,
            r.y == self.y * rhs.y,
    {
        Vector2I { x: self.x * rhs.x, y: self.y * rhs.y }
    }
}

} // verus!
