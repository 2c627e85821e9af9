//! Brush painting: writes one material id into every terrain cell of a
//! disc, routing each write through the owning chunk and silently skipping
//! cells whose chunk is not loaded.

use vstd::prelude::*;
use crate::terrain::{lemma_key_index, lemma_key_index_keys, lemma_set_texel_ids, spec_global_index, terrain_id, Terrain};
use crate::texel::TexelID;
use crate::vector2i::Vector2I;

verus! {

/// Whether `p` lies in the painted disc: within `radius - 1` of the origin.
pub open spec fn in_disc(origin: Vector2I, radius: int, p: Vector2I) -> bool {
    (p.x - origin.x) * (p.x - origin.x) + (p.y - origin.y) * (p.y - origin.y) <= (radius - 1) * (
    radius - 1)
}

/// A disc cell is within `radius - 1` of the origin on each axis.
proof fn lemma_disc_range(origin: Vector2I, radius: int, p: Vector2I)
    by (nonlinear_arith)
    requires
        radius >= 1,
        in_disc(origin, radius, p),
    ensures
        origin.x - (radius - 1) <= p.x <= origin.x + (radius - 1),
        origin.y - (radius - 1) <= p.y <= origin.y + (radius - 1),
{
}

/// The paint brush: a circular stamp with an adjustable radius.
pub struct TerrainPainter {
    radius: i32,
}

impl TerrainPainter {
    pub closed spec fn spec_radius(&self) -> int {
        self.radius as int
    }

    pub fn new() -> (r: TerrainPainter)
        ensures
            r.spec_radius() == 6,
    {
        TerrainPainter { radius: 6 }
    }

    /// The current brush radius.
    pub fn radius(&self) -> (r: i32)
        ensures
            r as int == self.spec_radius(),
    {
        self.radius
    }

    /// Replaces the brush radius, clamped to `[1, 128]`.
    pub fn set_radius(&mut self, radius: i32)
        ensures
            1 <= final(self).spec_radius() <= 128,
            radius < 1 ==> final(self).spec_radius() == 1,
            1 <= radius <= 128 ==> final(self).spec_radius() == radius,
            radius > 128 ==> final(self).spec_radius() == 128,
    {
        self.radius = if radius < 1 {
            1
        } else if radius > 128 {
            128
        } else {
            radius
        };
    }

    /// Writes `id` into every loaded cell of the disc around `origin`:
    /// afterwards each loaded disc cell holds `id`, every other cell's id
    /// is untouched, and the chunk set is unchanged.
    pub fn paint_circle(&self, terrain: &mut Terrain, origin: Vector2I, radius: i32, id: TexelID)
        requires
            old(terrain).wf(),
            1 <= radius <= 128,
            i32::MIN + 256 <= origin.x <= i32::MAX - 256,
            i32::MIN + 256 <= origin.y <= i32::MAX - 256,
            forall|k: int|
                0 <= k < old(terrain)@.chunks.len()
                    ==> (#[trigger] old(terrain)@.chunks[k]).1.buffer.time + 66049 <= u64::MAX,
        ensures
            final(terrain).wf(),
            final(terrain)@.chunks.len() == old(terrain)@.chunks.len(),
            forall|k: int|
                0 <= k < old(terrain)@.chunks.len() ==> (#[trigger] final(terrain)@.chunks[k]).0
                    == old(terrain)@.chunks[k].0,
            final(terrain)@.buffer == old(terrain)@.buffer,
            final(terrain)@.listener_map == old(terrain)@.listener_map,
            forall|p: Vector2I|
                in_disc(origin, radius as int, p) ==> #[trigger] terrain_id(
                    final(terrain)@.chunks,
                    p,
                ) == (match terrain_id(old(terrain)@.chunks, p) {
                    Some(_) => Some(id),
                    None => None::<TexelID>,
                }),
            forall|p: Vector2I|
                !in_disc(origin, radius as int, p) ==> #[trigger] terrain_id(
                    final(terrain)@.chunks,
                    p,
                ) == terrain_id(old(terrain)@.chunks, p),
    {
        let ghost tv0 = terrain@;
        let y0 = origin.y - (radius - 1);
        let y_end = origin.y + radius;
        proof {
            assert forall|p: Vector2I| in_disc(origin, radius as int, p) implies p.y >= y0 by {
                lemma_disc_range(origin, radius as int, p);
            }
        }
        let mut y = y0;
        while y < y_end
            invariant
                terrain.wf(),
                y0 <= y <= y_end,
                terrain@.chunks.len() == tv0.chunks.len(),
                forall|k: int|
                    0 <= k < tv0.chunks.len() ==> (#[trigger] terrain@.chunks[k]).0
                        == tv0.chunks[k].0,
                forall|k: int|
                    0 <= k < tv0.chunks.len() ==> (#[trigger] terrain@.chunks[k]).1.buffer.time
                        <= tv0.chunks[k].1.buffer.time + (y - y0) * 256,
                terrain@.buffer == tv0.buffer,
                terrain@.listener_map == tv0.listener_map,
                forall|p: Vector2I|
                    (in_disc(origin, radius as int, p) && p.y < y) ==> #[trigger] terrain_id(
                        terrain@.chunks,
                        p,
                    ) == (match terrain_id(tv0.chunks, p) {
                        Some(_) => Some(id),
                        None => None::<TexelID>,
                    }),
                forall|p: Vector2I|
                    !(in_disc(origin, radius as int, p) && p.y < y) ==> #[trigger] terrain_id(
                        terrain@.chunks,
                        p,
                    ) == terrain_id(tv0.chunks, p),
                1 <= radius <= 128,
                i32::MIN + 256 <= origin.x <= i32::MAX - 256,
                i32::MIN + 256 <= origin.y <= i32::MAX - 256,
                y0 == origin.y - (radius - 1),
                y_end == origin.y + radius,
                forall|k: int|
                    0 <= k < tv0.chunks.len() ==> (#[trigger] tv0.chunks[k]).1.buffer.time + 66049
                        <= u64::MAX,
            decreases y_end - y,
        {
            Self::paint_row(terrain, origin, radius, y, id);
            proof {
                assert forall|p: Vector2I|
                    !(in_disc(origin, radius as int, p) && p.y < y + 1)
                    implies #[trigger] terrain_id(terrain@.chunks, p) == terrain_id(
                    tv0.chunks,
                    p,
                ) by {
                    if in_disc(origin, radius as int, p) {
                        lemma_disc_range(origin, radius as int, p);
                    }
                }
            }
            y = y + 1;
        }
        proof {
            assert forall|p: Vector2I|
                in_disc(origin, radius as int, p) implies #[trigger] terrain_id(
                terrain@.chunks,
                p,
            ) == (match terrain_id(tv0.chunks, p) {
                Some(_) => Some(id),
                None => None::<TexelID>,
            }) by {
                lemma_disc_range(origin, radius as int, p);
            }
        }
    }

    /// Paints the cells of one row of the disc.
    fn paint_row(terrain: &mut Terrain, origin: Vector2I, radius: i32, y: i32, id: TexelID)
        requires
            old(terrain).wf(),
            1 <= radius <= 128,
            i32::MIN + 256 <= origin.x <= i32::MAX - 256,
            i32::MIN + 256 <= origin.y <= i32::MAX - 256,
            origin.y - 128 <= y <= origin.y + 128,
            forall|k: int|
                0 <= k < old(terrain)@.chunks.len()
                    ==> (#[trigger] old(terrain)@.chunks[k]).1.buffer.time + 256 <= u64::MAX,
        ensures
            final(terrain).wf(),
            final(terrain)@.chunks.len() == old(terrain)@.chunks.len(),
            forall|k: int|
                0 <= k < old(terrain)@.chunks.len() ==> (#[trigger] final(terrain)@.chunks[k]).0
                    == old(terrain)@.chunks[k].0,
            forall|k: int|
                0 <= k < old(terrain)@.chunks.len()
                    ==> (#[trigger] final(terrain)@.chunks[k]).1.buffer.time
                    <= old(terrain)@.chunks[k].1.buffer.time + 256,
            final(terrain)@.buffer == old(terrain)@.buffer,
            final(terrain)@.listener_map == old(terrain)@.listener_map,
            forall|p: Vector2I|
                (in_disc(origin, radius as int, p) && p.y == y) ==> #[trigger] terrain_id(
                    final(terrain)@.chunks,
                    p,
                ) == (match terrain_id(old(terrain)@.chunks, p) {
                    Some(_) => Some(id),
                    None => None::<TexelID>,
                }),
            forall|p: Vector2I|
                !(in_disc(origin, radius as int, p) && p.y == y) ==> #[trigger] terrain_id(
                    final(terrain)@.chunks,
                    p,
                ) == terrain_id(old(terrain)@.chunks, p),
    {
        let ghost tvr = old(terrain)@;
        let x0 = origin.x - (radius - 1);
        let x_end = origin.x + radius;
        proof {
            assert forall|p: Vector2I| in_disc(origin, radius as int, p) implies p.x >= x0 by {
                lemma_disc_range(origin, radius as int, p);
            }
        }
        let mut x = x0;
        while x < x_end
            invariant
                terrain.wf(),
                x0 <= x <= x_end,
                terrain@.chunks.len() == tvr.chunks.len(),
                forall|k: int|
                    0 <= k < tvr.chunks.len() ==> (#[trigger] terrain@.chunks[k]).0
                        == tvr.chunks[k].0,
                forall|k: int|
                    0 <= k < tvr.chunks.len() ==> (#[trigger] terrain@.chunks[k]).1.buffer.time
                        <= tvr.chunks[k].1.buffer.time + (x - x0),
                forall|k: int|
                    0 <= k < tvr.chunks.len() ==> (#[trigger] tvr.chunks[k]).1.buffer.time + 256
                        <= u64::MAX,
                terrain@.buffer == tvr.buffer,
                terrain@.listener_map == tvr.listener_map,
                forall|p: Vector2I|
                    (in_disc(origin, radius as int, p) && p.y == y && p.x < x)
                        ==> #[trigger] terrain_id(terrain@.chunks, p) == (match terrain_id(
                        tvr.chunks,
                        p,
                    ) {
                        Some(_) => Some(id),
                        None => None::<TexelID>,
                    }),
                forall|p: Vector2I|
                    !(in_disc(origin, radius as int, p) && p.y == y && p.x < x)
                        ==> #[trigger] terrain_id(terrain@.chunks, p) == terrain_id(
                        tvr.chunks,
                        p,
                    ),
                1 <= radius <= 128,
                i32::MIN + 256 <= origin.x <= i32::MAX - 256,
                i32::MIN + 256 <= origin.y <= i32::MAX - 256,
                origin.y - 128 <= y <= origin.y + 128,
                x0 == origin.x - (radius - 1),
                x_end == origin.x + radius,
            decreases x_end - x,
        {
            let dx = x - origin.x;
            let dy = y - origin.y;
            proof {
                assert(0 <= dx * dx <= 16384 && 0 <= dy * dy <= 16384 && 0 <= (radius - 1) * (
                radius - 1) <= 16129) by (nonlinear_arith)
                    requires
                        -128 <= dx <= 128,
                        -128 <= dy <= 128,
                        1 <= radius <= 128,
                ;
            }
            if dx * dx + dy * dy <= (radius - 1) * (radius - 1) {
                let p = Vector2I { x, y };
                let ghost pre = terrain@;
                proof {
                    lemma_key_index(pre.chunks, spec_global_index(p));
                    lemma_key_index_keys(pre.chunks, tvr.chunks, spec_global_index(p));
                }
                terrain.set_texel(&p, id);
                proof {
                    lemma_set_texel_ids(pre, terrain@, tvr, p, id);
                }
            }
            proof {
                assert forall|p2: Vector2I|
                    !(in_disc(origin, radius as int, p2) && p2.y == y && p2.x < x + 1)
                    implies #[trigger] terrain_id(terrain@.chunks, p2) == terrain_id(
                    tvr.chunks,
                    p2,
                ) by {
                    if in_disc(origin, radius as int, p2) && p2.y == y {
                        lemma_disc_range(origin, radius as int, p2);
                    }
                }
            }
            x = x + 1;
        }
        proof {
            assert forall|p: Vector2I|
                (in_disc(origin, radius as int, p) && p.y == y) implies #[trigger] terrain_id(
                final(terrain)@.chunks,
                p,
            ) == (match terrain_id(tvr.chunks, p) {
                Some(_) => Some(id),
                None => None::<TexelID>,
            }) by {
                lemma_disc_range(origin, radius as int, p);
            }
        }
    }

}

} // verus!
