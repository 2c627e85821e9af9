//! Seeding a terrain from decoded image pixels: each RGBA pixel maps to the
//! nearest entry of a fixed palette (by sum of absolute differences over
//! R, G and B) and is written at its global texel coordinate, creating
//! chunks on demand.

use vstd::prelude::*;
use crate::chunk::Chunk;
use crate::coords::global_to_index;
use crate::terrain::{has_chunk, key_index, lemma_key_index, lemma_key_index_push, lemma_set_texel_ids, spec_global_index, terrain_id, terrain_wf, Terrain};
use crate::texel::TexelID;
use crate::vector2i::Vector2I;

verus! {

/// The seed palette: three background colors map to empty, the two
/// material colors to ids 1 and 2.
pub open spec fn spec_palette() -> Seq<((u8, u8, u8), TexelID)> {
    seq![
        ((172u8, 191u8, 250u8), 0u8),
        ((30u8, 30u8, 30u8), 0u8),
        ((0u8, 0u8, 0u8), 0u8),
        ((158u8, 127u8, 99u8), 1u8),
        ((70u8, 142u8, 71u8), 2u8),
    ]
}

/// Sum of absolute differences over the three channels.
pub open spec fn spec_color_dist(a: (u8, u8, u8), b: (u8, u8, u8)) -> int {
    (if a.0 >= b.0 {
        a.0 - b.0
    } else {
        b.0 - a.0
    }) + (if a.1 >= b.1 {
        a.1 - b.1
    } else {
        b.1 - a.1
    }) + (if a.2 >= b.2 {
        a.2 - b.2
    } else {
        b.2 - a.2
    })
}

/// Index of the palette entry closest to `c` among the first `k + 1`
/// entries; earlier entries win ties.
pub open spec fn closest_upto(c: (u8, u8, u8), k: int) -> int
    decreases k,
{
    if k <= 0 {
        0
    } else {
        let prev = closest_upto(c, k - 1);
        if spec_color_dist(c, spec_palette()[k].0) < spec_color_dist(c, spec_palette()[prev].0) {
            k
        } else {
            prev
        }
    }
}

/// The palette index a color maps to.
pub open spec fn spec_closest_index(c: (u8, u8, u8)) -> int {
    closest_upto(c, 4)
}

/// The material id a color maps to.
pub open spec fn spec_closest_color(c: (u8, u8, u8)) -> TexelID {
    spec_palette()[spec_closest_index(c)].1
}

/// The chosen palette entry really is nearest: no entry is strictly closer.
pub proof fn lemma_closest_is_nearest(c: (u8, u8, u8))
    ensures
        0 <= spec_closest_index(c) < 5,
        forall|j: int|
            0 <= j < 5 ==> spec_color_dist(c, spec_palette()[spec_closest_index(c)].0)
                <= spec_color_dist(c, #[trigger] spec_palette()[j].0),
{
    lemma_closest_upto_minimal(c, 4, 0);
    assert forall|j: int|
        0 <= j < 5 implies spec_color_dist(c, spec_palette()[spec_closest_index(c)].0)
        <= spec_color_dist(c, #[trigger] spec_palette()[j].0) by {
        lemma_closest_upto_minimal(c, 4, j);
    }
}

proof fn lemma_closest_upto_minimal(c: (u8, u8, u8), k: int, j: int)
    requires
        0 <= j <= k <= 4,
    ensures
        0 <= closest_upto(c, k) <= k,
        spec_color_dist(c, spec_palette()[closest_upto(c, k)].0) <= spec_color_dist(
            c,
            spec_palette()[j].0,
        ),
    decreases k,
{
    if k > 0 {
        if j <= k - 1 {
            lemma_closest_upto_minimal(c, k - 1, j);
        } else {
            lemma_closest_upto_minimal(c, k - 1, 0);
        }
    }
}

/// The id of the pixel at image coordinate `(x, y)` under the palette.
pub open spec fn pixel_id(rgba: Seq<u8>, width: int, x: int, y: int) -> TexelID {
    spec_closest_color(
        (
            rgba[(y * width + x) * 4],
            rgba[(y * width + x) * 4 + 1],
            rgba[(y * width + x) * 4 + 2],
        ),
    )
}

/// Sum of absolute channel differences.
pub fn color_dist(a: (u8, u8, u8), b: (u8, u8, u8)) -> (r: u16)
    ensures
        r as int == spec_color_dist(a, b),
{
    let d0: u16 = if a.0 >= b.0 {
        (a.0 - b.0) as u16
    } else {
        (b.0 - a.0) as u16
    };
    let d1: u16 = if a.1 >= b.1 {
        (a.1 - b.1) as u16
    } else {
        (b.1 - a.1) as u16
    };
    let d2: u16 = if a.2 >= b.2 {
        (a.2 - b.2) as u16
    } else {
        (b.2 - a.2) as u16
    };
    d0 + d1 + d2
}

fn palette() -> (r: Vec<((u8, u8, u8), TexelID)>)
    ensures
        r@ == spec_palette(),
{
    let mut r: Vec<((u8, u8, u8), TexelID)> = Vec::new();
    r.push(((172, 191, 250), 0));
    r.push(((30, 30, 30), 0));
    r.push(((0, 0, 0), 0));
    r.push(((158, 127, 99), 1));
    r.push(((70, 142, 71), 2));
    proof {
        assert(r@ =~= spec_palette());
    }
    r
}

/// The palette id nearest to a color; among equally near entries the
/// earliest palette entry wins.
pub fn map_closest_color(color: (u8, u8, u8)) -> (r: TexelID)
    ensures
        r == spec_closest_color(color),
{
    let pal = palette();
    let mut best: usize = 0;
    let mut k: usize = 1;
    while k < 5
        invariant
            1 <= k <= 5,
            pal@ == spec_palette(),
            best as int == closest_upto(color, k - 1),
            best < k,
        decreases 5 - k,
    {
        if color_dist(color, pal[k].0) < color_dist(color, pal[best].0) {
            best = k;
        }
        k = k + 1;
    }
    pal[best].1
}

/// Builds a terrain whose texels mirror a `width` by `height` RGBA image:
/// every pixel's cell holds the palette id nearest to the pixel's color,
/// chunks are created on demand, every cell of a created chunk outside the
/// image stays empty, and no events or listeners exist yet.
pub fn gen_from_pixels(width: usize, height: usize, rgba: &Vec<u8>) -> (r: Terrain)
    requires
        rgba@.len() == width * height * 4,
        width <= 0x7fffffff,
        height <= 0x7fffffff,
        width * height * 4 <= usize::MAX,
    ensures
        r.wf(),
        r@.buffer.time == 0,
        r@.buffer.listeners == Seq::<u64>::empty(),
        r@.buffer.events.len() == 0,
        r@.listener_map.len() == 0,
        forall|p: Vector2I|
            0 <= p.x < width && 0 <= p.y < height ==> #[trigger] terrain_id(r@.chunks, p)
                == Some(pixel_id(rgba@, width as int, p.x as int, p.y as int)),
        forall|p: Vector2I|
            !(0 <= p.x < width && 0 <= p.y < height) ==> (#[trigger] terrain_id(r@.chunks, p)
                is None || terrain_id(r@.chunks, p) == Some(0u8)),
{
    let mut terrain = Terrain::new();
    let mut y: usize = 0;
    while y < height
        invariant
            y <= height,
            rgba@.len() == width * height * 4,
            width <= 0x7fffffff,
            height <= 0x7fffffff,
            width * height * 4 <= usize::MAX,
            terrain.wf(),
            terrain@.buffer.time == 0,
            terrain@.buffer.listeners == Seq::<u64>::empty(),
            terrain@.buffer.events.len() == 0,
            terrain@.listener_map.len() == 0,
            forall|k: int|
                0 <= k < terrain@.chunks.len() ==> (#[trigger] terrain@.chunks[k]).1.buffer.time
                    == 0 && terrain@.chunks[k].1.buffer.listeners.len() == 0,
            forall|p: Vector2I|
                0 <= p.x < width && 0 <= p.y < y ==> #[trigger] terrain_id(terrain@.chunks, p)
                    == Some(pixel_id(rgba@, width as int, p.x as int, p.y as int)),
            forall|p: Vector2I|
                !(0 <= p.x < width && 0 <= p.y < y) ==> (#[trigger] terrain_id(terrain@.chunks, p)
                    is None || terrain_id(terrain@.chunks, p) == Some(0u8)),
        decreases height - y,
    {
        gen_row(&mut terrain, width, height, y, rgba);
        y = y + 1;
    }
    terrain
}

/// Writes one image row into the terrain.
fn gen_row(terrain: &mut Terrain, width: usize, height: usize, y: usize, rgba: &Vec<u8>)
    requires
        rgba@.len() == width * height * 4,
        width <= 0x7fffffff,
        height <= 0x7fffffff,
        width * height * 4 <= usize::MAX,
        y < height,
        old(terrain).wf(),
        old(terrain)@.buffer.time == 0,
        old(terrain)@.buffer.listeners == Seq::<u64>::empty(),
        old(terrain)@.buffer.events.len() == 0,
        old(terrain)@.listener_map.len() == 0,
        forall|k: int|
            0 <= k < old(terrain)@.chunks.len() ==> (#[trigger] old(
                terrain,
            )@.chunks[k]).1.buffer.time == 0 && old(terrain)@.chunks[k].1.buffer.listeners.len()
                == 0,
    ensures
        final(terrain).wf(),
        final(terrain)@.buffer.time == 0,
        final(terrain)@.buffer.listeners == Seq::<u64>::empty(),
        final(terrain)@.buffer.events.len() == 0,
        final(terrain)@.listener_map.len() == 0,
        forall|k: int|
            0 <= k < final(terrain)@.chunks.len()
                ==> (#[trigger] final(terrain)@.chunks[k]).1.buffer.time == 0
                && final(terrain)@.chunks[k].1.buffer.listeners.len() == 0,
        forall|p: Vector2I|
            0 <= p.x < width && p.y == y ==> #[trigger] terrain_id(final(terrain)@.chunks, p)
                == Some(pixel_id(rgba@, width as int, p.x as int, p.y as int)),
        forall|p: Vector2I|
            p.y != y || !(0 <= p.x < width) ==> #[trigger] terrain_id(final(terrain)@.chunks, p)
                == terrain_id(old(terrain)@.chunks, p) || (terrain_id(old(terrain)@.chunks, p)
                is None && terrain_id(final(terrain)@.chunks, p) == Some(0u8)),
    {
    let mut x: usize = 0;
    while x < width
        invariant
            x <= width,
            y < height,
            rgba@.len() == width * height * 4,
            width <= 0x7fffffff,
            height <= 0x7fffffff,
            width * height * 4 <= usize::MAX,
            terrain.wf(),
            terrain@.buffer.time == 0,
            terrain@.buffer.listeners == Seq::<u64>::empty(),
            terrain@.buffer.events.len() == 0,
            terrain@.listener_map.len() == 0,
            forall|k: int|
                0 <= k < terrain@.chunks.len() ==> (#[trigger] terrain@.chunks[k]).1.buffer.time
                    == 0 && terrain@.chunks[k].1.buffer.listeners.len() == 0,
            forall|p: Vector2I|
                0 <= p.x < x && p.y == y ==> #[trigger] terrain_id(terrain@.chunks, p) == Some(
                    pixel_id(rgba@, width as int, p.x as int, p.y as int),
                ),
            forall|p: Vector2I|
                p.y != y || !(0 <= p.x < x) ==> #[trigger] terrain_id(terrain@.chunks, p)
                    == terrain_id(old(terrain)@.chunks, p) || (terrain_id(
                    old(terrain)@.chunks,
                    p,
                ) is None && terrain_id(terrain@.chunks, p) == Some(0u8)),
        decreases width - x,
    {
        proof {
            assert(0 <= y * width + x <= width * height - 1 && (y * width + x) * 4 + 3 < width
                * height * 4) by (nonlinear_arith)
                requires
                    0 <= x < width,
                    0 <= y < height,
            ;
        }
        let base = (y * width + x) * 4;
        let pixel = (rgba[base], rgba[base + 1], rgba[base + 2]);
        let id = map_closest_color(pixel);
        let gp = Vector2I { x: x as i32, y: y as i32 };
        let index = global_to_index(&gp);
        proof {
            assert(index == spec_global_index(gp));
        }
        let ghost pre_add = terrain@;
        if terrain.index_to_chunk(&index).is_none() {
            let fresh = Chunk::new();
            terrain.add_chunk(index, fresh);
            proof {
                lemma_after_add(pre_add, terrain@, index, fresh@);
            }
        }
        let ghost pre_set = terrain@;
        proof {
            lemma_key_index(pre_set.chunks, index);
        }
        terrain.set_texel(&gp, id);
        proof {
            lemma_set_texel_ids(pre_set, terrain@, pre_set, gp, id);
            assert(has_chunk(pre_set.chunks, spec_global_index(gp)));
            assert(terrain_id(terrain@.chunks, gp) == Some(id));
        }
        x = x + 1;
    }
}

/// How adding a fresh all-empty chunk moves the per-cell ids: cells of the
/// new chunk become empty, every other cell is untouched.
proof fn lemma_after_add(
    pre: crate::terrain::TerrainView,
    post: crate::terrain::TerrainView,
    index: Vector2I,
    fresh: crate::chunk::ChunkView,
)
    requires
        terrain_wf(pre),
        !has_chunk(pre.chunks, index),
        post.chunks == pre.chunks.push((index, fresh)),
        forall|j: int| 0 <= j < 4096 ==> (#[trigger] fresh.texels[j]).id == 0,
        fresh.texels.len() == 4096,
    ensures
        forall|p: Vector2I|
            spec_global_index(p) != index ==> #[trigger] terrain_id(post.chunks, p) == terrain_id(
                pre.chunks,
                p,
            ),
        forall|p: Vector2I|
            spec_global_index(p) == index ==> #[trigger] terrain_id(post.chunks, p) == Some(0u8),
{
    assert forall|p: Vector2I|
        spec_global_index(p) != index implies #[trigger] terrain_id(post.chunks, p) == terrain_id(
        pre.chunks,
        p,
    ) by {
        let ci = spec_global_index(p);
        lemma_key_index(pre.chunks, ci);
        lemma_key_index_push(pre.chunks, (index, fresh), ci);
        if has_chunk(pre.chunks, ci) {
            assert(post.chunks[key_index(pre.chunks, ci)] == pre.chunks[key_index(
                pre.chunks,
                ci,
            )]);
        }
    }
    assert forall|p: Vector2I|
        spec_global_index(p) == index implies #[trigger] terrain_id(post.chunks, p) == Some(
        0u8,
    ) by {
        let ci = spec_global_index(p);
        lemma_key_index(pre.chunks, ci);
        lemma_key_index_push(pre.chunks, (index, fresh), ci);
        assert(post.chunks[pre.chunks.len() as int] == (index, fresh));
        assert(0 <= crate::coords::texel_index_of(crate::terrain::spec_global_local(p)) < 4096)
            by {
            vstd::arithmetic::div_mod::lemma_fundamental_div_mod(p.x as int, 64);
            vstd::arithmetic::div_mod::lemma_fundamental_div_mod(p.y as int, 64);
        }
    }
}

} // verus!
