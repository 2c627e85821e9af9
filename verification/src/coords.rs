//! Mapping between global texel coordinates, chunk indices and chunk-local
//! coordinates. Chunks are fixed 64x64 blocks; the wrapping quotient and
//! remainder make the mapping a bijection that is seamless across the origin.

use vstd::prelude::*;
use vstd::arithmetic::div_mod::{lemma_fundamental_div_mod, lemma_div_multiples_vanish};
use crate::math::{wrapping_quotient, wrapping_remainder};
use crate::vector2i::Vector2I;

verus! {

pub const CHUNK_SIZE_X: usize = 64;
pub const CHUNK_SIZE_Y: usize = 64;
pub const CHUNK_AREA: usize = 64 * 64;

/// Whether a chunk-local coordinate lies inside a chunk.
pub open spec fn in_chunk_bounds(p: Vector2I) -> bool {
    0 <= p.x < 64 && 0 <= p.y < 64
}

/// Row-major flat index of an in-bounds chunk-local coordinate.
pub open spec fn texel_index_of(p: Vector2I) -> int {
    p.y * 64 + p.x
}

/// Bounds-checked flat index of a chunk-local coordinate.
pub fn local_to_texel_index(position: &Vector2I) -> (r: Option<usize>)
    ensures
        in_chunk_bounds(*position) ==> r == Some(texel_index_of(*position) as usize),
        !in_chunk_bounds(*position) ==> r is None,
{
    if position.x >= 0 && position.y >= 0 && position.x < 64 && position.y < 64 {
        Some(position.y as usize * CHUNK_SIZE_X + position.x as usize)
    } else {
        None
    }
}

/// Inverse of `local_to_texel_index` on in-range indices.
pub fn texel_index_to_local(i: usize) -> (r: Vector2I)
    requires
        i < CHUNK_AREA,
    ensures
        r.x == i as int % 64,
        r.y == i as int / 64,
        in_chunk_bounds(r),
        texel_index_of(r) == i,
{
    proof {
        lemma_fundamental_div_mod(i as int, 64);
    }
    Vector2I { x: (i % 64) as i32, y: (i / 64) as i32 }
}

/// Chunk-local coordinate of a global coordinate; always in bounds.
pub fn global_to_local(position: &Vector2I) -> (r: Vector2I)
    ensures
        r.x == position.x as int % 64,
        r.y == position.y as int % 64,
        in_chunk_bounds(r),
{
    Vector2I {
        x: wrapping_remainder(position.x, 64),
        y: wrapping_remainder(position.y, 64),
    }
}

/// Index of the chunk that holds a global coordinate.
pub fn global_to_index(position: &Vector2I) -> (r: Vector2I)
    ensures
        r.x == position.x as int / 64,
        r.y == position.y as int / 64,
{
    Vector2I {
        x: wrapping_quotient(position.x, 64),
        y: wrapping_quotient(position.y, 64),
    }
}

/// Global coordinate of a chunk's local origin (its cell (0,0)).
pub fn index_to_global(ci: &Vector2I) -> (r: Vector2I)
    requires
        i32::MIN <= ci.x * 64 <= i32::MAX,
        i32::MIN <= ci.y * 64 <= i32::MAX,
    ensures
        r.x == ci.x * 64,
        r.y == ci.y * 64,
{
    ci.mul(Vector2I { x: 64, y: 64 })
}

/// A global coordinate splits uniquely into its chunk's origin plus its
/// local coordinate: `index_to_global(global_to_index(p)) + global_to_local(p) == p`,
/// componentwise, with the local part always in `[0, 64)`.
pub proof fn lemma_global_decomposition(x: int)
    ensures
        64 * (x / 64) + (x % 64) == x,
        0 <= x % 64 < 64,
{
    lemma_fundamental_div_mod(x, 64);
}

/// Mapping a chunk index to its global origin and back returns the same
/// index: `global_to_index(index_to_global(ci)) == ci`, componentwise.
pub proof fn lemma_index_round_trip(x: int)
    ensures
        (x * 64) / 64 == x,
{
    lemma_div_multiples_vanish(x, 64);
}

} // verus!
