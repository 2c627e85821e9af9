//! A fixed 64x64 block of texels with an owned change log. Writes go through
//! `set_texel`, which records a change event and incrementally maintains the
//! four-neighbour occupancy masks (they are never recomputed from scratch).

use vstd::prelude::*;
use vstd::pervasive::VecAdditionalExecFns;
use crate::change_buffer::{after_consume, after_get_listener, after_push, buffer_inv, consumed_events, BufferSnapshot, ChangeBuffer, Event, Listener};
use crate::coords::{in_chunk_bounds, local_to_texel_index, texel_index_of, CHUNK_AREA};
use crate::texel::{neighbour_dx, neighbour_dy, neighbour_offset, reverse_dir, reverse_direction, Texel, TexelID};
use crate::vector2i::Vector2I;

verus! {

/// One texel-write event: which cell changed and the id it now holds.
#[derive(Clone, Copy, PartialEq, Eq, Structural, Debug)]
pub struct TexelUpdate {
    pub position: Vector2I,
    pub id: TexelID,
}

impl View for TexelUpdate {
    type V = TexelUpdate;

    open spec fn view(&self) -> TexelUpdate {
        *self
    }
}

impl Event for TexelUpdate {
    fn duplicate(&self) -> (r: Self) {
        *self
    }
}

/// Whether the cell at `(x, y)` exists and is solid (non-empty).
pub open spec fn solid_at(t: Seq<Texel>, x: int, y: int) -> bool {
    0 <= x < 64 && 0 <= y < 64 && t[y * 64 + x].id != 0
}

/// 1 when the neighbour of `(x, y)` in direction `d` is in bounds and solid.
pub open spec fn mask_bit(t: Seq<Texel>, x: int, y: int, d: int) -> int {
    if solid_at(t, x + neighbour_dx(d), y + neighbour_dy(d)) {
        1
    } else {
        0
    }
}

/// The mask the cell at `(x, y)` ought to carry: one bit per orthogonal
/// neighbour, clockwise from the top, least significant bit first.
pub open spec fn mask_at(t: Seq<Texel>, x: int, y: int) -> u8 {
    (mask_bit(t, x, y, 0) + 2 * mask_bit(t, x, y, 1) + 4 * mask_bit(t, x, y, 2) + 8 * mask_bit(
        t,
        x,
        y,
        3,
    )) as u8
}

/// The stored mask of the cell at `(x, y)`.
pub open spec fn cell_mask(t: Seq<Texel>, x: int, y: int) -> u8 {
    t[y * 64 + x].neighbour_mask
}

/// The stored id of the cell at `(x, y)`.
pub open spec fn cell_id(t: Seq<Texel>, x: int, y: int) -> u8 {
    t[y * 64 + x].id
}

/// Whether the two cells are orthogonal neighbours.
pub open spec fn adjacent(cx: int, cy: int, x: int, y: int) -> bool {
    ||| (x == cx && (y == cy - 1 || y == cy + 1))
    ||| (y == cy && (x == cx - 1 || x == cx + 1))
}

/// The mask bit of direction `d`.
pub open spec fn dir_bit(d: int) -> u8 {
    if d == 0 {
        1
    } else if d == 1 {
        2
    } else if d == 2 {
        4
    } else {
        8
    }
}

/// Every stored neighbour mask agrees with the occupancy around its cell.
pub open spec fn masks_consistent(t: Seq<Texel>) -> bool {
    forall|x: int, y: int|
        0 <= x < 64 && 0 <= y < 64 ==> #[trigger] cell_mask(t, x, y) == mask_at(t, x, y)
}

/// Flipping one summand of a four-bit mask is the same as xor with that
/// bit's value.
proof fn lemma_mask_xor_flip(m: u8, b0: u8, b1: u8, b2: u8, b3: u8)
    by (bit_vector)
    requires
        b0 <= 1,
        b1 <= 1,
        b2 <= 1,
        b3 <= 1,
        m == b0 + 2 * b1 + 4 * b2 + 8 * b3,
    ensures
        m < 16,
        (m ^ 1u8) == (1 - b0) + 2 * b1 + 4 * b2 + 8 * b3,
        (m ^ 2u8) == b0 + 2 * (1 - b1) + 4 * b2 + 8 * b3,
        (m ^ 4u8) == b0 + 2 * b1 + 4 * (1 - b2) + 8 * b3,
        (m ^ 8u8) == b0 + 2 * b1 + 4 * b2 + 8 * (1 - b3),
{
}

/// How the mask a cell ought to carry changes when exactly the cell at
/// `(cx, cy)` toggles between empty and solid: the bit pointing at the
/// toggled cell flips, every other cell's mask is untouched.
proof fn lemma_mask_at_toggle_cell(
    t1: Seq<Texel>,
    t2: Seq<Texel>,
    x: int,
    y: int,
    cx: int,
    cy: int,
)
    requires
        t1.len() == 4096,
        t2.len() == 4096,
        0 <= x < 64,
        0 <= y < 64,
        0 <= cx < 64,
        0 <= cy < 64,
        forall|j: int| 0 <= j < 4096 && j != cy * 64 + cx ==> (#[trigger] t2[j]).id == t1[j].id,
        (t2[cy * 64 + cx].id == 0) == !(t1[cy * 64 + cx].id == 0),
    ensures
        cx == x && cy == y - 1 ==> mask_at(t2, x, y) == (mask_at(t1, x, y) ^ 1u8),
        cx == x + 1 && cy == y ==> mask_at(t2, x, y) == (mask_at(t1, x, y) ^ 2u8),
        cx == x && cy == y + 1 ==> mask_at(t2, x, y) == (mask_at(t1, x, y) ^ 4u8),
        cx == x - 1 && cy == y ==> mask_at(t2, x, y) == (mask_at(t1, x, y) ^ 8u8),
        !adjacent(cx, cy, x, y) ==> mask_at(t2, x, y) == mask_at(t1, x, y),
{
    let b0 = mask_bit(t1, x, y, 0);
    let b1 = mask_bit(t1, x, y, 1);
    let b2 = mask_bit(t1, x, y, 2);
    let b3 = mask_bit(t1, x, y, 3);
    assert(!(x == cx && y - 1 == cy) ==> mask_bit(t2, x, y, 0) == b0) by {
        if 0 <= y - 1 && !(x == cx && y - 1 == cy) {
            assert((y - 1) * 64 + x != cy * 64 + cx);
        }
    }
    assert(!(x + 1 == cx && y == cy) ==> mask_bit(t2, x, y, 1) == b1) by {
        if x + 1 < 64 && !(x + 1 == cx && y == cy) {
            assert(y * 64 + x + 1 != cy * 64 + cx);
        }
    }
    assert(!(x == cx && y + 1 == cy) ==> mask_bit(t2, x, y, 2) == b2) by {
        if y + 1 < 64 && !(x == cx && y + 1 == cy) {
            assert((y + 1) * 64 + x != cy * 64 + cx);
        }
    }
    assert(!(x - 1 == cx && y == cy) ==> mask_bit(t2, x, y, 3) == b3) by {
        if 0 <= x - 1 && !(x - 1 == cx && y == cy) {
            assert(y * 64 + x - 1 != cy * 64 + cx);
        }
    }
    lemma_mask_xor_flip(
        mask_at(t1, x, y),
        b0 as u8,
        b1 as u8,
        b2 as u8,
        b3 as u8,
    );
    if x == cx && y - 1 == cy {
        assert(mask_bit(t2, x, y, 0) == 1 - b0);
    } else if x + 1 == cx && y == cy {
        assert(mask_bit(t2, x, y, 1) == 1 - b1);
    } else if x == cx && y + 1 == cy {
        assert(mask_bit(t2, x, y, 2) == 1 - b2);
    } else if x - 1 == cx && y == cy {
        assert(mask_bit(t2, x, y, 3) == 1 - b3);
    }
}

/// The mask a cell ought to carry only depends on which cells are solid: a
/// write that does not change its cell's emptiness changes no mask.
proof fn lemma_mask_at_same_solidity(
    t1: Seq<Texel>,
    t2: Seq<Texel>,
    x: int,
    y: int,
    cx: int,
    cy: int,
)
    requires
        t1.len() == 4096,
        t2.len() == 4096,
        0 <= x < 64,
        0 <= y < 64,
        0 <= cx < 64,
        0 <= cy < 64,
        forall|j: int| 0 <= j < 4096 && j != cy * 64 + cx ==> (#[trigger] t2[j]).id == t1[j].id,
        (t2[cy * 64 + cx].id == 0) == (t1[cy * 64 + cx].id == 0),
    ensures
        mask_at(t2, x, y) == mask_at(t1, x, y),
{
    assert(mask_bit(t2, x, y, 0) == mask_bit(t1, x, y, 0)) by {
        if 0 <= y - 1 && !(x == cx && y - 1 == cy) {
            assert((y - 1) * 64 + x != cy * 64 + cx);
        }
    }
    assert(mask_bit(t2, x, y, 1) == mask_bit(t1, x, y, 1)) by {
        if x + 1 < 64 && !(x + 1 == cx && y == cy) {
            assert(y * 64 + x + 1 != cy * 64 + cx);
        }
    }
    assert(mask_bit(t2, x, y, 2) == mask_bit(t1, x, y, 2)) by {
        if y + 1 < 64 && !(x == cx && y + 1 == cy) {
            assert((y + 1) * 64 + x != cy * 64 + cx);
        }
    }
    assert(mask_bit(t2, x, y, 3) == mask_bit(t1, x, y, 3)) by {
        if 0 <= x - 1 && !(x - 1 == cx && y == cy) {
            assert(y * 64 + x - 1 != cy * 64 + cx);
        }
    }
}

/// Toggling a cell between empty and solid flips, in each in-bounds
/// orthogonal neighbour's mask, exactly the bit of the direction pointing
/// back at the toggled cell; every other cell's mask is untouched. Stated
/// over any two consistent texel grids whose ids differ only at that cell.
pub proof fn lemma_neighbour_mask_flip(t1: Seq<Texel>, t2: Seq<Texel>, cx: int, cy: int)
    requires
        t1.len() == 4096,
        t2.len() == 4096,
        0 <= cx < 64,
        0 <= cy < 64,
        masks_consistent(t1),
        masks_consistent(t2),
        forall|j: int| 0 <= j < 4096 && j != cy * 64 + cx ==> (#[trigger] t2[j]).id == t1[j].id,
        (t2[cy * 64 + cx].id == 0) == !(t1[cy * 64 + cx].id == 0),
    ensures
        forall|d: int|
            0 <= d < 4 && 0 <= cx + neighbour_dx(d) < 64 && 0 <= cy + neighbour_dy(d) < 64
                ==> #[trigger] cell_mask(t2, cx + neighbour_dx(d), cy + neighbour_dy(d)) == (
            cell_mask(t1, cx + neighbour_dx(d), cy + neighbour_dy(d)) ^ dir_bit(reverse_dir(d))),
        forall|x: int, y: int|
            0 <= x < 64 && 0 <= y < 64 && !adjacent(cx, cy, x, y) ==> #[trigger] cell_mask(
                t2,
                x,
                y,
            ) == cell_mask(t1, x, y),
{
    assert forall|d: int|
        0 <= d < 4 && 0 <= cx + neighbour_dx(d) < 64 && 0 <= cy + neighbour_dy(d) < 64
        implies #[trigger] cell_mask(t2, cx + neighbour_dx(d), cy + neighbour_dy(d)) == (
    cell_mask(t1, cx + neighbour_dx(d), cy + neighbour_dy(d)) ^ dir_bit(reverse_dir(d))) by {
        let x = cx + neighbour_dx(d);
        let y = cy + neighbour_dy(d);
        lemma_mask_at_toggle_cell(t1, t2, x, y, cx, cy);
        assert(cell_mask(t1, x, y) == mask_at(t1, x, y));
        assert(cell_mask(t2, x, y) == mask_at(t2, x, y));
    }
    assert forall|x: int, y: int|
        0 <= x < 64 && 0 <= y < 64 && !adjacent(cx, cy, x, y) implies #[trigger] cell_mask(
        t2,
        x,
        y,
    ) == cell_mask(t1, x, y) by {
        lemma_mask_at_toggle_cell(t1, t2, x, y, cx, cy);
        assert(cell_mask(t1, x, y) == mask_at(t1, x, y));
        assert(cell_mask(t2, x, y) == mask_at(t2, x, y));
    }
}

/// Masks are a function of the ids: two consistent grids with the same ids
/// carry bit-for-bit the same masks. Together with `lemma_neighbour_mask_flip`
/// this says that toggling a cell and toggling it back restores every
/// neighbour mask exactly.
pub proof fn lemma_neighbour_mask_round_trip(t1: Seq<Texel>, t2: Seq<Texel>)
    requires
        t1.len() == 4096,
        t2.len() == 4096,
        masks_consistent(t1),
        masks_consistent(t2),
        forall|j: int| 0 <= j < 4096 ==> (#[trigger] t2[j]).id == t1[j].id,
    ensures
        forall|j: int|
            0 <= j < 4096 ==> (#[trigger] t2[j]).neighbour_mask == t1[j].neighbour_mask,
{
    assert forall|j: int|
        0 <= j < 4096 implies (#[trigger] t2[j]).neighbour_mask == t1[j].neighbour_mask by {
        vstd::arithmetic::div_mod::lemma_fundamental_div_mod(j, 64);
        let x = j % 64;
        let y = j / 64;
        assert(0 <= x < 64 && 0 <= y < 64);
        assert(mask_at(t2, x, y) == mask_at(t1, x, y)) by {
            assert(mask_bit(t2, x, y, 0) == mask_bit(t1, x, y, 0));
            assert(mask_bit(t2, x, y, 1) == mask_bit(t1, x, y, 1));
            assert(mask_bit(t2, x, y, 2) == mask_bit(t1, x, y, 2));
            assert(mask_bit(t2, x, y, 3) == mask_bit(t1, x, y, 3));
        }
        assert(cell_mask(t1, x, y) == mask_at(t1, x, y));
        assert(cell_mask(t2, x, y) == mask_at(t2, x, y));
    }
}

/// Mathematical snapshot of a chunk: its texels and its change log.
#[verifier::ext_equal]
pub struct ChunkView {
    pub texels: Seq<Texel>,
    pub buffer: BufferSnapshot<TexelUpdate>,
}

pub struct Chunk {
    pub(crate) texels: Vec<Texel>,
    pub(crate) change_buffer: ChangeBuffer<TexelUpdate>,
}

impl View for Chunk {
    type V = ChunkView;

    closed spec fn view(&self) -> ChunkView {
        ChunkView { texels: self.texels@, buffer: self.change_buffer@ }
    }
}

/// Exactly 64 * 64 texels, stored masks that agree with the occupancy, and
/// a well-formed change log.
pub open spec fn chunk_view_wf(v: ChunkView) -> bool {
    &&& v.texels.len() == 4096
    &&& masks_consistent(v.texels)
    &&& buffer_inv(v.buffer)
}

impl Chunk {
    /// Exactly 64 * 64 texels, stored masks that agree with the occupancy,
    /// and a well-formed change log.
    pub open spec fn wf(&self) -> bool {
        chunk_view_wf(self@)
    }

    /// Registers a listener on the chunk's own change log.
    pub fn acquire_listener(&mut self) -> (r: Listener)
        requires
            old(self).wf(),
        ensures
            final(self).wf(),
            r == old(self)@.buffer.time,
            final(self)@.texels == old(self)@.texels,
            final(self)@.buffer == after_get_listener(old(self)@.buffer),
    {
        self.change_buffer.get_listener()
    }

    /// Drains a listener of the chunk's own change log.
    pub fn consume_listener(&mut self, listener: Listener) -> (r: Option<Vec<TexelUpdate>>)
        requires
            old(self).wf(),
        ensures
            final(self).wf(),
            final(self)@.texels == old(self)@.texels,
            r is Some <==> old(self)@.buffer.listeners.contains(listener),
            !old(self)@.buffer.listeners.contains(listener) ==> final(self)@.buffer == old(
                self,
            )@.buffer,
            old(self)@.buffer.listeners.contains(listener) ==> final(self)@.buffer
                == after_consume(old(self)@.buffer, listener),
            r matches Some(evs) ==> evs@ == consumed_events(old(self)@.buffer, listener),
    {
        let r = self.change_buffer.consume_listener(listener);
        proof {
            if r is Some {
                let evs = r.unwrap();
                assert(evs@ =~= evs@.map_values(|t: TexelUpdate| t@));
            }
        }
        r
    }

    pub fn new() -> (r: Chunk)
        ensures
            r.wf(),
            forall|j: int|
                0 <= j < 4096 ==> (#[trigger] r@.texels[j]).id == 0 && r@.texels[j].neighbour_mask
                    == 0,
            r@.buffer.time == 0,
            r@.buffer.listeners == Seq::<u64>::empty(),
            r@.buffer.events == Seq::<(u64, TexelUpdate)>::empty(),
    {
        let r = Chunk { texels: Self::new_texel_array(), change_buffer: ChangeBuffer::new() };
        proof {
            assert forall|x: int, y: int| 0 <= x < 64 && 0 <= y < 64 implies #[trigger] cell_mask(
                r@.texels,
                x,
                y,
            ) == mask_at(r@.texels, x, y) by {
                assert(0 <= y * 64 + x < 4096);
                assert(mask_bit(r@.texels, x, y, 0) == 0);
                assert(mask_bit(r@.texels, x, y, 1) == 0);
                assert(mask_bit(r@.texels, x, y, 2) == 0);
                assert(mask_bit(r@.texels, x, y, 3) == 0);
            }
        }
        r
    }

    /// A fresh all-empty texel array of exactly 64 * 64 cells.
    pub fn new_texel_array() -> (r: Vec<Texel>)
        ensures
            r@.len() == 4096,
            forall|j: int|
                0 <= j < 4096 ==> (#[trigger] r@[j]).id == 0 && r@[j].neighbour_mask == 0,
    {
        let mut v: Vec<Texel> = Vec::new();
        let mut i: usize = 0;
        while i < CHUNK_AREA
            invariant
                i <= 4096,
                v@.len() == i,
                forall|j: int|
                    0 <= j < i ==> (#[trigger] v@[j]).id == 0 && v@[j].neighbour_mask == 0,
            decreases 4096 - i,
        {
            v.push(Texel::default());
            i = i + 1;
        }
        v
    }

    /// The texel at a flat row-major index.
    pub fn texel_at(&self, i: usize) -> (r: Texel)
        requires
            self.wf(),
            i < CHUNK_AREA,
        ensures
            r == self@.texels[i as int],
    {
        self.texels[i]
    }

    /// Bounds-checked read.
    pub fn get_texel(&self, position: &Vector2I) -> (r: Option<Texel>)
        requires
            self.wf(),
        ensures
            in_chunk_bounds(*position) ==> r == Some(
                self@.texels[texel_index_of(*position)],
            ),
            !in_chunk_bounds(*position) ==> r is None,
    {
        match local_to_texel_index(position) {
            Some(i) => Some(self.texels[i]),
            None => None,
        }
    }

    /// Writes `id` at an in-bounds cell. If the id actually changes, a
    /// `TexelUpdate` is recorded in the chunk's change log; if the cell
    /// toggles between empty and solid, the reverse-direction bit of each
    /// in-bounds orthogonal neighbour's mask is flipped in place.
    pub fn set_texel(&mut self, position: &Vector2I, id: TexelID)
        requires
            old(self).wf(),
            in_chunk_bounds(*position),
            old(self)@.buffer.time < u64::MAX,
        ensures
            final(self).wf(),
            final(self)@.texels.len() == 4096,
            final(self)@.texels[texel_index_of(*position)].id == id,
            forall|j: int|
                0 <= j < 4096 && j != texel_index_of(*position)
                    ==> (#[trigger] final(self)@.texels[j]).id == old(self)@.texels[j].id,
            old(self)@.texels[texel_index_of(*position)].id != id ==> final(self)@.buffer
                == after_push(old(self)@.buffer, TexelUpdate { position: *position, id }),
            old(self)@.texels[texel_index_of(*position)].id == id
                ==> final(self)@.buffer == old(self)@.buffer,
    {
        let ghost t1 = old(self)@.texels;
        let ghost px = position.x as int;
        let ghost py = position.y as int;
        let i = local_to_texel_index(position).unwrap();
        if self.texels[i].id != id {
            self.change_buffer.push_event(TexelUpdate { position: *position, id });
        }
        let update_neighbours = (self.texels[i].id == 0) != (id == 0);
        let mut t = self.texels[i];
        t.id = id;
        self.texels.set(i, t);
        let ghost mid = self.texels@;
        if update_neighbours {
            Self::flip_neighbour_mask(&mut self.texels, position, 0);
            let ghost g1 = self.texels@;
            Self::flip_neighbour_mask(&mut self.texels, position, 1);
            let ghost g2 = self.texels@;
            Self::flip_neighbour_mask(&mut self.texels, position, 2);
            let ghost g3 = self.texels@;
            Self::flip_neighbour_mask(&mut self.texels, position, 3);
            proof {
                let t2 = self.texels@;
                assert forall|x: int, y: int| 0 <= x < 64 && 0 <= y < 64 implies #[trigger] cell_mask(
                    mid,
                    x,
                    y,
                ) == cell_mask(t1, x, y) by {
                    assert(mid[y * 64 + x].neighbour_mask == t1[y * 64 + x].neighbour_mask);
                }
                assert forall|x: int, y: int|
                    0 <= x < 64 && 0 <= y < 64 implies #[trigger] cell_mask(t2, x, y) == mask_at(
                    t2,
                    x,
                    y,
                ) by {
                    lemma_mask_at_toggle_cell(t1, t2, x, y, px, py);
                    assert(cell_mask(t1, x, y) == mask_at(t1, x, y));
                    assert(cell_mask(mid, x, y) == cell_mask(t1, x, y));
                    if x == px && y + 1 == py {
                        // the cell above the toggled one: flipped by direction 0
                        assert(cell_mask(g1, x, y) == (cell_mask(mid, x, y) ^ 4u8));
                        assert(cell_mask(g2, x, y) == cell_mask(g1, x, y));
                        assert(cell_mask(g3, x, y) == cell_mask(g2, x, y));
                        assert(cell_mask(t2, x, y) == cell_mask(g3, x, y));
                    } else if x - 1 == px && y == py {
                        // the cell to the right: flipped by direction 1
                        assert(cell_mask(g1, x, y) == cell_mask(mid, x, y));
                        assert(cell_mask(g2, x, y) == (cell_mask(g1, x, y) ^ 8u8));
                        assert(cell_mask(g3, x, y) == cell_mask(g2, x, y));
                        assert(cell_mask(t2, x, y) == cell_mask(g3, x, y));
                    } else if x == px && y - 1 == py {
                        // the cell below: flipped by direction 2
                        assert(cell_mask(g1, x, y) == cell_mask(mid, x, y));
                        assert(cell_mask(g2, x, y) == cell_mask(g1, x, y));
                        assert(cell_mask(g3, x, y) == (cell_mask(g2, x, y) ^ 1u8));
                        assert(cell_mask(t2, x, y) == cell_mask(g3, x, y));
                    } else if x + 1 == px && y == py {
                        // the cell to the left: flipped by direction 3
                        assert(cell_mask(g1, x, y) == cell_mask(mid, x, y));
                        assert(cell_mask(g2, x, y) == cell_mask(g1, x, y));
                        assert(cell_mask(g3, x, y) == cell_mask(g2, x, y));
                        assert(cell_mask(t2, x, y) == (cell_mask(g3, x, y) ^ 2u8));
                    } else {
                        assert(!adjacent(px, py, x, y));
                        assert(cell_mask(g1, x, y) == cell_mask(mid, x, y));
                        assert(cell_mask(g2, x, y) == cell_mask(g1, x, y));
                        assert(cell_mask(g3, x, y) == cell_mask(g2, x, y));
                        assert(cell_mask(t2, x, y) == cell_mask(g3, x, y));
                    }
                }
            }
        } else {
            proof {
                let t2 = self.texels@;
                assert forall|x: int, y: int|
                    0 <= x < 64 && 0 <= y < 64 implies #[trigger] cell_mask(t2, x, y) == mask_at(
                    t2,
                    x,
                    y,
                ) by {
                    lemma_mask_at_same_solidity(t1, t2, x, y, px, py);
                    assert(cell_mask(t1, x, y) == mask_at(t1, x, y));
                    assert(cell_mask(t2, x, y) == cell_mask(t1, x, y));
                }
            }
        }
    }

    /// Flips, in the neighbour of `position` in direction `d` (when that
    /// neighbour is in bounds), the mask bit of the direction pointing back.
    fn flip_neighbour_mask(texels: &mut Vec<Texel>, position: &Vector2I, d: usize)
        requires
            old(texels)@.len() == 4096,
            in_chunk_bounds(*position),
            d < 4,
        ensures
            final(texels)@.len() == 4096,
            forall|j: int|
                0 <= j < 4096 ==> (#[trigger] final(texels)@[j]).id == old(texels)@[j].id,
            0 <= position.x + neighbour_dx(d as int) < 64 && 0 <= position.y + neighbour_dy(
                d as int,
            ) < 64 ==> cell_mask(
                final(texels)@,
                position.x + neighbour_dx(d as int),
                position.y + neighbour_dy(d as int),
            ) == (cell_mask(
                old(texels)@,
                position.x + neighbour_dx(d as int),
                position.y + neighbour_dy(d as int),
            ) ^ dir_bit(reverse_dir(d as int))),
            forall|x: int, y: int|
                0 <= x < 64 && 0 <= y < 64 && !(x == position.x + neighbour_dx(d as int) && y
                    == position.y + neighbour_dy(d as int)) ==> #[trigger] cell_mask(
                    final(texels)@,
                    x,
                    y,
                ) == cell_mask(old(texels)@, x, y),
    {
        let offset = neighbour_offset(d);
        let npos = position.add(offset);
        match local_to_texel_index(&npos) {
            Some(n) => {
                let r = reverse_direction(d);
                let bit: u8 = if r == 0 {
                    1
                } else if r == 1 {
                    2
                } else if r == 2 {
                    4
                } else {
                    8
                };
                let mut nt = texels[n];
                nt.neighbour_mask = nt.neighbour_mask ^ bit;
                texels.set(n, nt);
                proof {
                    let nx = position.x + neighbour_dx(d as int);
                    let ny = position.y + neighbour_dy(d as int);
                    assert(n == ny * 64 + nx);
                    assert forall|x: int, y: int|
                        0 <= x < 64 && 0 <= y < 64 && !(x == nx && y == ny)
                        implies #[trigger] cell_mask(texels@, x, y) == cell_mask(
                        old(texels)@,
                        x,
                        y,
                    ) by {
                        assert(y * 64 + x != n);
                    }
                }
            },
            None => {},
        }
    }
}

} // verus!
