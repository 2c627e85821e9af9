//! The smallest terrain unit: a material id plus a cached bitmask over the
//! four orthogonal neighbours (bit set = that neighbour is solid).

use vstd::prelude::*;
use crate::vector2i::Vector2I;

verus! {

pub type TexelID = u8;

pub type NeighbourMask = u8;

/// Material id 0 means empty / no material.
pub const EMPTY_TEXEL_ID: TexelID = 0;

#[derive(Clone, Copy, PartialEq, Eq, Structural, Debug)]
pub struct Texel {
    pub id: TexelID,
    /// Bitmask of solid neighbours, clockwise from the top
    /// (up, right, down, left), least significant bit first.
    pub neighbour_mask: NeighbourMask,
}

impl Default for Texel {
    /// A freshly constructed chunk holds empty texels with clear masks.
    fn default() -> (r: Texel)
        ensures
            r.id == 0,
            r.neighbour_mask == 0,
    {
        Texel { id: 0, neighbour_mask: 0 }
    }
}

impl Texel {
    pub fn is_empty(&self) -> (r: bool)
        ensures
            r == (self.id == 0),
    {
        self.id == 0
    }
}

/// Horizontal step of neighbour direction `d` (0 up, 1 right, 2 down, 3 left).
pub open spec fn neighbour_dx(d: int) -> int {
    if d == 1 {
        1
    } else if d == 3 {
        -1
    } else {
        0
    }
}

/// Vertical step of neighbour direction `d` (0 up, 1 right, 2 down, 3 left).
pub open spec fn neighbour_dy(d: int) -> int {
    if d == 0 {
        -1
    } else if d == 2 {
        1
    } else {
        0
    }
}

/// The direction pointing back: up and down swap, left and right swap.
pub open spec fn reverse_dir(d: int) -> int {
    if d < 2 {
        d + 2
    } else {
        d - 2
    }
}

/// Offset vector of neighbour direction `d`.
pub fn neighbour_offset(d: usize) -> (r: Vector2I)
    requires
        d < 4,
    ensures
        r.x == neighbour_dx(d as int),
        r.y == neighbour_dy(d as int),
{
    if d == 0 {
        Vector2I { x: 0, y: -1 }
    } else if d == 1 {
        Vector2I { x: 1, y: 0 }
    } else if d == 2 {
        Vector2I { x: 0, y: 1 }
    } else {
        Vector2I { x: -1, y: 0 }
    }
}

/// Index of the direction pointing back toward the cell that moved.
pub fn reverse_direction(d: usize) -> (r: usize)
    requires
        d < 4,
    ensures
        r == reverse_dir(d as int),
        r < 4,
{
    if d < 2 {
        d + 2
    } else {
        d - 2
    }
}

} // verus!
