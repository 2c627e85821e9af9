//! Pixel-buffer painting for the render synchronization: each chunk maps to
//! an RGBA buffer of exactly 4 bytes per texel, painted from a fixed
//! material palette, either whole or selectively from texel-update events.

use vstd::prelude::*;
use vstd::pervasive::VecAdditionalExecFns;
use crate::chunk::{Chunk, TexelUpdate};
use crate::coords::{in_chunk_bounds, local_to_texel_index, texel_index_of, CHUNK_AREA};
use crate::texel::TexelID;

verus! {

pub const BYTES_PER_PIXEL: usize = 4;

/// The fixed palette: id 0 is transparent, ids 1 and 2 are the two terrain
/// materials.
pub open spec fn spec_material_color(id: TexelID) -> (u8, u8, u8, u8) {
    if id == 0 {
        (0, 0, 0, 0)
    } else if id == 1 {
        (158, 127, 99, 255)
    } else {
        (70, 142, 71, 255)
    }
}

/// RGBA of a material id. Ids outside the palette are a caller error.
pub fn material_color(id: TexelID) -> (r: (u8, u8, u8, u8))
    requires
        id <= 2,
    ensures
        r == spec_material_color(id),
{
    if id == 0 {
        (0, 0, 0, 0)
    } else if id == 1 {
        (158, 127, 99, 255)
    } else {
        (70, 142, 71, 255)
    }
}

/// Whether the four bytes of pixel `i` in `data` show the color of `id`.
pub open spec fn pixel_shows(data: Seq<u8>, i: int, id: TexelID) -> bool {
    &&& data[4 * i] == spec_material_color(id).0
    &&& data[4 * i + 1] == spec_material_color(id).1
    &&& data[4 * i + 2] == spec_material_color(id).2
    &&& data[4 * i + 3] == spec_material_color(id).3
}

/// Whether pixel `i` of `data` reflects the last update for cell `i` (or is
/// untouched relative to `old_data` when no update names the cell).
pub open spec fn updates_applied(
    changes: Seq<TexelUpdate>,
    old_data: Seq<u8>,
    data: Seq<u8>,
    i: int,
) -> bool {
    match last_update_for(changes, i) {
        Some(u) => pixel_shows(data, i, u.id),
        None => data[4 * i] == old_data[4 * i] && data[4 * i + 1] == old_data[4 * i + 1] && data[4
            * i + 2] == old_data[4 * i + 2] && data[4 * i + 3] == old_data[4 * i + 3],
    }
}

/// The last recorded update for a cell, if any.
pub open spec fn last_update_for(changes: Seq<TexelUpdate>, cell: int) -> Option<TexelUpdate>
    decreases changes.len(),
{
    if changes.len() == 0 {
        None
    } else if texel_index_of(changes.last().position) == cell {
        Some(changes.last())
    } else {
        last_update_for(changes.drop_last(), cell)
    }
}

/// Repaints a whole chunk into an RGBA buffer: afterwards every pixel shows
/// its texel's material color. The buffer must hold exactly 4 bytes per
/// texel (a mismatch is a wiring error the caller must rule out).
pub fn paint_chunk_pixels(chunk: &Chunk, p_data: &mut Vec<u8>)
    requires
        chunk.wf(),
        old(p_data)@.len() == 4096 * 4,
        forall|j: int| 0 <= j < 4096 ==> (#[trigger] chunk@.texels[j]).id <= 2,
    ensures
        final(p_data)@.len() == 4096 * 4,
        forall|i: int| 0 <= i < 4096 ==> pixel_shows(final(p_data)@, i, chunk@.texels[i].id),
{
    let mut xy: usize = 0;
    while xy < CHUNK_AREA
        invariant
            xy <= 4096,
            p_data@.len() == 4096 * 4,
            chunk.wf(),
            forall|j: int| 0 <= j < 4096 ==> (#[trigger] chunk@.texels[j]).id <= 2,
            forall|i: int| 0 <= i < xy ==> pixel_shows(p_data@, i, chunk@.texels[i].id),
        decreases CHUNK_AREA - xy,
    {
        let t = chunk.texel_at(xy);
        let c = material_color(t.id);
        let base = xy * BYTES_PER_PIXEL;
        p_data.set(base, c.0);
        p_data.set(base + 1, c.1);
        p_data.set(base + 2, c.2);
        p_data.set(base + 3, c.3);
        xy = xy + 1;
    }
}

/// Selectively repaints only the changed texels: a cell that some update
/// names ends up showing the color of the last update for it, every other
/// byte of the buffer is untouched.
pub fn apply_texel_updates_to_pixels(changes: &Vec<TexelUpdate>, p_data: &mut Vec<u8>)
    requires
        old(p_data)@.len() == 4096 * 4,
        forall|k: int|
            0 <= k < changes@.len() ==> in_chunk_bounds((#[trigger] changes@[k]).position)
                && changes@[k].id <= 2,
    ensures
        final(p_data)@.len() == 4096 * 4,
        forall|i: int|
            0 <= i < 4096 ==> #[trigger] updates_applied(changes@, old(p_data)@, final(p_data)@, i),
{
    let ghost data0 = old(p_data)@;
    let mut k: usize = 0;
    while k < changes.len()
        invariant
            k <= changes@.len(),
            p_data@.len() == 4096 * 4,
            forall|c: int|
                0 <= c < changes@.len() ==> in_chunk_bounds((#[trigger] changes@[c]).position)
                    && changes@[c].id <= 2,
            forall|i: int|
                0 <= i < 4096 ==> #[trigger] updates_applied(changes@.take(k as int), data0, p_data@, i),
        decreases changes@.len() - k,
    {
        let u = changes[k];
        let i = local_to_texel_index(&u.position).unwrap();
        let c = material_color(u.id);
        let base = i * BYTES_PER_PIXEL;
        let ghost dpre = p_data@;
        p_data.set(base, c.0);
        p_data.set(base + 1, c.1);
        p_data.set(base + 2, c.2);
        p_data.set(base + 3, c.3);
        proof {
            let pre = changes@.take(k + 1);
            assert(pre.drop_last() =~= changes@.take(k as int));
            assert(pre.last() == changes@[k as int]);
            assert(i as int == texel_index_of(changes@[k as int].position));
            assert forall|q: int| 0 <= q < 4096 implies #[trigger] updates_applied(
                pre,
                data0,
                p_data@,
                q,
            ) by {
                assert(updates_applied(changes@.take(k as int), data0, dpre, q));
                if q != i as int {
                    assert(p_data@[4 * q] == dpre[4 * q]);
                    assert(p_data@[4 * q + 1] == dpre[4 * q + 1]);
                    assert(p_data@[4 * q + 2] == dpre[4 * q + 2]);
                    assert(p_data@[4 * q + 3] == dpre[4 * q + 3]);
                }
            }
        }
        k = k + 1;
    }
    proof {
        assert(changes@.take(changes@.len() as int) =~= changes@);
    }
}

} // verus!
