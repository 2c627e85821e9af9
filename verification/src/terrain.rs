//! The terrain: a sparse map from chunk index to chunk, a terrain-level
//! change log, and the bookkeeping that fans one terrain listener out into
//! one listener per chunk.

use vstd::prelude::*;
use crate::change_buffer::{after_consume, after_get_listener, after_push, buffer_inv, consumed_events, BufferSnapshot, ChangeBuffer, Event, Listener};
use crate::chunk::{chunk_view_wf, Chunk, ChunkView, TexelUpdate};
use vstd::arithmetic::div_mod::lemma_fundamental_div_mod;
use crate::coords::{global_to_index, global_to_local, texel_index_of};
use crate::texel::{Texel, TexelID};
use crate::vector2i::Vector2I;

verus! {

/// A terrain-level change event.
pub enum TerrainUpdate {
    ChunkAdded(Vector2I),
    ChunkRemoved(Vector2I),
    TexelsUpdated(Vector2I, Vec<TexelUpdate>),
}

/// Spec-level value of a `TerrainUpdate`.
pub enum TerrainUpdateView {
    ChunkAdded(Vector2I),
    ChunkRemoved(Vector2I),
    TexelsUpdated(Vector2I, Seq<TexelUpdate>),
}

impl View for TerrainUpdate {
    type V = TerrainUpdateView;

    open spec fn view(&self) -> TerrainUpdateView {
        match self {
            TerrainUpdate::ChunkAdded(i) => TerrainUpdateView::ChunkAdded(*i),
            TerrainUpdate::ChunkRemoved(i) => TerrainUpdateView::ChunkRemoved(*i),
            TerrainUpdate::TexelsUpdated(i, v) => TerrainUpdateView::TexelsUpdated(*i, v@),
        }
    }
}

impl Event for TerrainUpdate {
    fn duplicate(&self) -> (r: Self) {
        match self {
            TerrainUpdate::ChunkAdded(i) => TerrainUpdate::ChunkAdded(*i),
            TerrainUpdate::ChunkRemoved(i) => TerrainUpdate::ChunkRemoved(*i),
            TerrainUpdate::TexelsUpdated(i, v) => {
                let mut copy: Vec<TexelUpdate> = Vec::new();
                let mut k: usize = 0;
                while k < v.len()
                    invariant
                        k <= v@.len(),
                        copy@ == v@.take(k as int),
                    decreases v@.len() - k,
                {
                    copy.push(v[k]);
                    proof {
                        assert(copy@ =~= v@.take(k + 1));
                    }
                    k = k + 1;
                }
                proof {
                    assert(v@.take(v@.len() as int) =~= v@);
                }
                TerrainUpdate::TexelsUpdated(*i, copy)
            },
        }
    }
}

/// Index of the first chunk entry carrying `index` (the length if none).
pub open spec fn key_index(chunks: Seq<(Vector2I, ChunkView)>, index: Vector2I) -> int
    decreases chunks.len(),
{
    if chunks.len() == 0 {
        0
    } else if chunks[0].0 == index {
        0
    } else {
        1 + key_index(chunks.drop_first(), index)
    }
}

pub proof fn lemma_key_index(chunks: Seq<(Vector2I, ChunkView)>, index: Vector2I)
    ensures
        0 <= key_index(chunks, index) <= chunks.len(),
        forall|j: int| 0 <= j < key_index(chunks, index) ==> (#[trigger] chunks[j]).0 != index,
        key_index(chunks, index) < chunks.len() ==> chunks[key_index(chunks, index)].0 == index,
    decreases chunks.len(),
{
    if chunks.len() == 0 {
    } else if chunks[0].0 == index {
    } else {
        lemma_key_index(chunks.drop_first(), index);
        assert forall|j: int| 0 <= j < key_index(chunks, index) implies (#[trigger] chunks[j]).0
            != index by {
            if j > 0 {
                assert(chunks[j] == chunks.drop_first()[j - 1]);
            }
        }
    }
}

/// Whether a chunk with that index is present.
pub open spec fn has_chunk(chunks: Seq<(Vector2I, ChunkView)>, index: Vector2I) -> bool {
    key_index(chunks, index) < chunks.len()
}

/// The chunk stored under `index`.
pub open spec fn chunk_at(chunks: Seq<(Vector2I, ChunkView)>, index: Vector2I) -> ChunkView {
    chunks[key_index(chunks, index)].1
}

/// The chunk index of a global coordinate.
pub open spec fn spec_global_index(p: Vector2I) -> Vector2I {
    Vector2I { x: (p.x as int / 64) as i32, y: (p.y as int / 64) as i32 }
}

/// The chunk-local coordinate of a global coordinate.
pub open spec fn spec_global_local(p: Vector2I) -> Vector2I {
    Vector2I { x: (p.x as int % 64) as i32, y: (p.y as int % 64) as i32 }
}

/// The texel the terrain holds at a global coordinate, if its chunk exists.
pub open spec fn terrain_texel(chunks: Seq<(Vector2I, ChunkView)>, p: Vector2I) -> Option<Texel> {
    if has_chunk(chunks, spec_global_index(p)) {
        Some(
            chunk_at(chunks, spec_global_index(p)).texels[texel_index_of(spec_global_local(p))],
        )
    } else {
        None
    }
}

/// Index of the first listener-map entry carrying `id` (the length if none).
pub open spec fn lm_key_index(lm: Seq<(u64, Seq<(Vector2I, u64)>)>, id: u64) -> int
    decreases lm.len(),
{
    if lm.len() == 0 {
        0
    } else if lm[0].0 == id {
        0
    } else {
        1 + lm_key_index(lm.drop_first(), id)
    }
}

pub proof fn lemma_lm_key_index(lm: Seq<(u64, Seq<(Vector2I, u64)>)>, id: u64)
    ensures
        0 <= lm_key_index(lm, id) <= lm.len(),
        forall|j: int| 0 <= j < lm_key_index(lm, id) ==> (#[trigger] lm[j]).0 != id,
        lm_key_index(lm, id) < lm.len() ==> lm[lm_key_index(lm, id)].0 == id,
    decreases lm.len(),
{
    if lm.len() == 0 {
    } else if lm[0].0 == id {
    } else {
        lemma_lm_key_index(lm.drop_first(), id);
        assert forall|j: int| 0 <= j < lm_key_index(lm, id) implies (#[trigger] lm[j]).0 != id by {
            if j > 0 {
                assert(lm[j] == lm.drop_first()[j - 1]);
            }
        }
    }
}

/// The per-chunk listeners recorded under a terrain listener (empty when
/// the terrain listener is unknown).
pub open spec fn listener_entries(lm: Seq<(u64, Seq<(Vector2I, u64)>)>, id: u64) -> Seq<
    (Vector2I, u64),
> {
    if lm_key_index(lm, id) < lm.len() {
        lm[lm_key_index(lm, id)].1
    } else {
        Seq::empty()
    }
}

/// One per-chunk listener for every chunk, in storage order, each holding
/// the chunk log's current time.
pub open spec fn listener_entries_of(chunks: Seq<(Vector2I, ChunkView)>) -> Seq<(Vector2I, u64)> {
    Seq::new(chunks.len(), |k: int| (chunks[k].0, chunks[k].1.buffer.time))
}

/// Draining one recorded chunk listener: if its chunk still exists and the
/// listener is still outstanding there, the chunk log is consumed, and a
/// non-empty result is recorded in the terrain log as a `TexelsUpdated`
/// event before the terrain log itself is drained.
pub open spec fn drain_step(
    chunks: Seq<(Vector2I, ChunkView)>,
    buf: BufferSnapshot<TerrainUpdateView>,
    entry: (Vector2I, u64),
) -> (Seq<(Vector2I, ChunkView)>, BufferSnapshot<TerrainUpdateView>) {
    let ki = key_index(chunks, entry.0);
    if ki < chunks.len() && chunks[ki].1.buffer.listeners.contains(entry.1) {
        let cv = chunks[ki].1;
        let evs = consumed_events(cv.buffer, entry.1);
        let cv2 = ChunkView { texels: cv.texels, buffer: after_consume(cv.buffer, entry.1) };
        let chunks2 = chunks.update(ki, (entry.0, cv2));
        if evs.len() > 0 {
            (chunks2, after_push(buf, TerrainUpdateView::TexelsUpdated(entry.0, evs)))
        } else {
            (chunks2, buf)
        }
    } else {
        (chunks, buf)
    }
}

/// Draining a list of recorded chunk listeners, in order.
pub open spec fn drain_all(
    chunks: Seq<(Vector2I, ChunkView)>,
    buf: BufferSnapshot<TerrainUpdateView>,
    entries: Seq<(Vector2I, u64)>,
) -> (Seq<(Vector2I, ChunkView)>, BufferSnapshot<TerrainUpdateView>)
    decreases entries.len(),
{
    if entries.len() == 0 {
        (chunks, buf)
    } else {
        let prev = drain_all(chunks, buf, entries.drop_last());
        drain_step(prev.0, prev.1, entries.last())
    }
}

/// Draining chunk listeners records events in the terrain log but touches
/// no terrain-log listener, and advances its clock at most once per entry.
pub proof fn lemma_drain_all_log(
    chunks: Seq<(Vector2I, ChunkView)>,
    buf: BufferSnapshot<TerrainUpdateView>,
    entries: Seq<(Vector2I, u64)>,
)
    requires
        buf.time + entries.len() <= u64::MAX,
    ensures
        drain_all(chunks, buf, entries).1.listeners == buf.listeners,
        buf.time <= drain_all(chunks, buf, entries).1.time <= buf.time + entries.len(),
    decreases entries.len(),
{
    if entries.len() > 0 {
        lemma_drain_all_log(chunks, buf, entries.drop_last());
    }
}

/// The material id the terrain holds at a global coordinate, if its chunk
/// exists.
pub open spec fn terrain_id(chunks: Seq<(Vector2I, ChunkView)>, p: Vector2I) -> Option<TexelID> {
    match terrain_texel(chunks, p) {
        Some(t) => Some(t.id),
        None => None,
    }
}

/// Position in the chunk storage depends only on the keys.
pub proof fn lemma_key_index_keys(
    c1: Seq<(Vector2I, ChunkView)>,
    c2: Seq<(Vector2I, ChunkView)>,
    index: Vector2I,
)
    requires
        c1.len() == c2.len(),
        forall|k: int| 0 <= k < c1.len() ==> (#[trigger] c1[k]).0 == c2[k].0,
    ensures
        key_index(c1, index) == key_index(c2, index),
    decreases c1.len(),
{
    if c1.len() > 0 && c1[0].0 != index {
        assert(c1[0].0 == c2[0].0);
        lemma_key_index_keys(c1.drop_first(), c2.drop_first(), index);
        assert forall|k: int|
            0 <= k < c1.drop_first().len() implies (#[trigger] c1.drop_first()[k]).0
            == c2.drop_first()[k].0 by {
            assert(c1[k + 1].0 == c2[k + 1].0);
        }
    }
}

/// A global coordinate is determined by its chunk index and its flat local
/// index.
pub proof fn lemma_global_coord_unique(p: Vector2I, q: Vector2I)
    requires
        spec_global_index(p) == spec_global_index(q),
        texel_index_of(spec_global_local(p)) == texel_index_of(spec_global_local(q)),
    ensures
        p == q,
{
    lemma_fundamental_div_mod(p.x as int, 64);
    lemma_fundamental_div_mod(p.y as int, 64);
    lemma_fundamental_div_mod(q.x as int, 64);
    lemma_fundamental_div_mod(q.y as int, 64);
    assert(0 <= p.x as int % 64 < 64);
    assert(0 <= q.x as int % 64 < 64);
    assert(0 <= p.y as int % 64 < 64);
    assert(0 <= q.y as int % 64 < 64);
    assert(p.x as int % 64 == q.x as int % 64 && p.y as int % 64 == q.y as int % 64);
    assert(p.x as int / 64 == q.x as int / 64 && p.y as int / 64 == q.y as int / 64);
}


/// Appending a new chunk entry leaves every existing index's position as it
/// was; the new key is found at the old length.
pub proof fn lemma_key_index_push(
    chunks: Seq<(Vector2I, ChunkView)>,
    e: (Vector2I, ChunkView),
    index: Vector2I,
)
    ensures
        has_chunk(chunks, index) ==> key_index(chunks.push(e), index) == key_index(chunks, index),
        !has_chunk(chunks, index) && e.0 == index ==> key_index(chunks.push(e), index)
            == chunks.len(),
        !has_chunk(chunks, index) && e.0 != index ==> key_index(chunks.push(e), index)
            == chunks.len() + 1,
    decreases chunks.len(),
{
    lemma_key_index(chunks, index);
    if chunks.len() == 0 {
        assert(chunks.push(e)[0] == e);
        assert(chunks.push(e).drop_first() =~= Seq::<(Vector2I, ChunkView)>::empty());
        assert(key_index(Seq::<(Vector2I, ChunkView)>::empty(), index) == 0);
        if e.0 != index {
            assert(key_index(chunks.push(e), index) == 1 + key_index(
                chunks.push(e).drop_first(),
                index,
            ));
        }
    } else if chunks[0].0 == index {
        assert(chunks.push(e)[0] == chunks[0]);
    } else {
        lemma_key_index_push(chunks.drop_first(), e, index);
        lemma_key_index(chunks.drop_first(), index);
        assert(chunks.push(e)[0] == chunks[0]);
        assert(chunks.push(e).drop_first() =~= chunks.drop_first().push(e));
        assert(key_index(chunks.push(e), index) == 1 + key_index(
            chunks.drop_first().push(e),
            index,
        ));
        assert(key_index(chunks, index) == 1 + key_index(chunks.drop_first(), index));
    }
}

/// The terrain-listener ids recorded in the fan-out bookkeeping, in order.
pub open spec fn lm_keys(lm: Seq<(u64, Seq<(Vector2I, u64)>)>) -> Seq<u64> {
    lm.map_values(|e: (u64, Seq<(Vector2I, u64)>)| e.0)
}

/// Mathematical snapshot of the terrain.
#[verifier::ext_equal]
pub struct TerrainView {
    pub chunks: Seq<(Vector2I, ChunkView)>,
    pub buffer: BufferSnapshot<TerrainUpdateView>,
    pub listener_map: Seq<(u64, Seq<(Vector2I, u64)>)>,
}

/// Chunk indices are unique keys, every chunk is well-formed, and the
/// terrain-level log is well-formed.
pub open spec fn terrain_wf(tv: TerrainView) -> bool {
    &&& forall|k1: int, k2: int|
        0 <= k1 < k2 < tv.chunks.len() ==> (#[trigger] tv.chunks[k1]).0 != (
        #[trigger] tv.chunks[k2]).0
    &&& forall|k: int| 0 <= k < tv.chunks.len() ==> chunk_view_wf((#[trigger] tv.chunks[k]).1)
    &&& buffer_inv(tv.buffer)
}

/// Every terrain listener is recorded in the fan-out bookkeeping exactly as
/// often as it is outstanding in the terrain log, so a consume either finds
/// both records or neither.
pub open spec fn listeners_balanced(tv: TerrainView) -> bool {
    lm_keys(tv.listener_map).to_multiset() == tv.buffer.listeners.to_multiset()
}

pub struct Terrain {
    chunk_map: Vec<(Vector2I, Chunk)>,
    change_buffer: ChangeBuffer<TerrainUpdate>,
    /// Maps a single terrain listener to its per-chunk listeners.
    chunk_listener_map: Vec<(Listener, Vec<(Vector2I, Listener)>)>,
}

impl View for Terrain {
    type V = TerrainView;

    closed spec fn view(&self) -> TerrainView {
        TerrainView {
            chunks: self.chunk_map@.map_values(|e: (Vector2I, Chunk)| (e.0, e.1@)),
            buffer: self.change_buffer@,
            listener_map: self.chunk_listener_map@.map_values(
                |e: (Listener, Vec<(Vector2I, Listener)>)| (e.0, e.1@),
            ),
        }
    }
}

impl Terrain {
    pub open spec fn wf(&self) -> bool {
        terrain_wf(self@) && listeners_balanced(self@)
    }

    /// An empty terrain: no chunks, a fresh log, no listeners.
    pub fn new() -> (r: Terrain)
        ensures
            r.wf(),
            r@.chunks == Seq::<(Vector2I, ChunkView)>::empty(),
            r@.buffer.time == 0,
            r@.buffer.listeners == Seq::<u64>::empty(),
            r@.buffer.events == Seq::<(u64, TerrainUpdateView)>::empty(),
            r@.listener_map == Seq::<(u64, Seq<(Vector2I, u64)>)>::empty(),
    {
        let r = Terrain {
            chunk_map: Vec::new(),
            chunk_listener_map: Vec::new(),
            change_buffer: ChangeBuffer::new(),
        };
        proof {
            assert(r@.chunks =~= Seq::<(Vector2I, ChunkView)>::empty());
            assert(r@.listener_map =~= Seq::<(u64, Seq<(Vector2I, u64)>)>::empty());
            assert(lm_keys(r@.listener_map) =~= r@.buffer.listeners);
        }
        r
    }

    /// How many chunks the terrain holds.
    pub fn chunk_count(&self) -> (r: usize)
        ensures
            r == self@.chunks.len(),
    {
        self.chunk_map.len()
    }

    /// The index of the `k`-th chunk, in storage order.
    pub fn chunk_index_at(&self, k: usize) -> (r: Vector2I)
        requires
            k < self@.chunks.len(),
        ensures
            r == self@.chunks[k as int].0,
    {
        proof {
            assert(self@.chunks[k as int] == (self.chunk_map@[k as int].0, self.chunk_map@[k as int].1@));
        }
        self.chunk_map[k].0
    }

    /// Position of `index` in the chunk storage, or the chunk count when absent.
    fn find_chunk(&self, index: &Vector2I) -> (r: usize)
        ensures
            r as int == key_index(self@.chunks, *index),
    {
        let ghost chunks = self@.chunks;
        let mut k: usize = 0;
        while k < self.chunk_map.len() && self.chunk_map[k].0 != *index
            invariant
                k <= chunks.len(),
                chunks.len() == self.chunk_map@.len(),
                chunks == self@.chunks,
                forall|j: int| 0 <= j < k ==> (#[trigger] chunks[j]).0 != *index,
            decreases self.chunk_map.len() - k,
        {
            proof {
                assert(chunks[k as int] == (self.chunk_map@[k as int].0, self.chunk_map@[k as int].1@));
            }
            k = k + 1;
        }
        proof {
            lemma_key_index(chunks, *index);
            if k < self.chunk_map.len() {
                assert(chunks[k as int] == (self.chunk_map@[k as int].0, self.chunk_map@[k as int].1@));
                assert(chunks[k as int].0 == *index);
                let ki = key_index(chunks, *index);
                if ki < k {
                    assert(chunks[ki].0 == *index);
                } else if k < ki {
                    assert(chunks[k as int].0 != *index);
                }
            } else {
                if key_index(chunks, *index) < chunks.len() {
                    assert(chunks[key_index(chunks, *index)].0 == *index);
                }
            }
        }
        k
    }

    /// Inserts or replaces the chunk at `index` and records a `ChunkAdded`
    /// event.
    pub fn add_chunk(&mut self, index: Vector2I, chunk: Chunk)
        requires
            old(self).wf(),
            chunk.wf(),
            old(self)@.buffer.time < u64::MAX,
        ensures
            final(self).wf(),
            has_chunk(old(self)@.chunks, index) ==> final(self)@.chunks == old(
                self,
            )@.chunks.update(key_index(old(self)@.chunks, index), (index, chunk@)),
            !has_chunk(old(self)@.chunks, index) ==> final(self)@.chunks == old(
                self,
            )@.chunks.push((index, chunk@)),
            final(self)@.buffer == after_push(
                old(self)@.buffer,
                TerrainUpdateView::ChunkAdded(index),
            ),
            final(self)@.listener_map == old(self)@.listener_map,
    {
        let ghost chunks0 = self@.chunks;
        proof {
            lemma_key_index(chunks0, index);
        }
        let k = self.find_chunk(&index);
        if k < self.chunk_map.len() {
            self.chunk_map.remove(k);
            self.chunk_map.insert(k, (index, chunk));
            proof {
                assert(self@.chunks =~= chunks0.update(key_index(chunks0, index), (index, chunk@)));
                assert(self@.listener_map =~= old(self)@.listener_map);
            }
        } else {
            self.chunk_map.push((index, chunk));
            proof {
                assert(self@.chunks =~= chunks0.push((index, chunk@)));
                assert(self@.listener_map =~= old(self)@.listener_map);
            }
        }
        self.change_buffer.push_event(TerrainUpdate::ChunkAdded(index));
    }

    /// Records a `ChunkRemoved` event and removes the chunk at `index` (the
    /// event is recorded even when no such chunk exists).
    pub fn remove_chunk(&mut self, index: Vector2I)
        requires
            old(self).wf(),
            old(self)@.buffer.time < u64::MAX,
        ensures
            final(self).wf(),
            has_chunk(old(self)@.chunks, index) ==> final(self)@.chunks == old(
                self,
            )@.chunks.remove(key_index(old(self)@.chunks, index)),
            !has_chunk(old(self)@.chunks, index) ==> final(self)@.chunks == old(self)@.chunks,
            final(self)@.buffer == after_push(
                old(self)@.buffer,
                TerrainUpdateView::ChunkRemoved(index),
            ),
            final(self)@.listener_map == old(self)@.listener_map,
    {
        let ghost chunks0 = self@.chunks;
        proof {
            lemma_key_index(chunks0, index);
        }
        self.change_buffer.push_event(TerrainUpdate::ChunkRemoved(index));
        let k = self.find_chunk(&index);
        if k < self.chunk_map.len() {
            self.chunk_map.remove(k);
            proof {
                assert(self@.chunks =~= chunks0.remove(key_index(chunks0, index)));
                assert(self@.listener_map =~= old(self)@.listener_map);
            }
        }
    }

    /// The chunk stored under `index`, if any.
    pub fn index_to_chunk(&self, index: &Vector2I) -> (r: Option<&Chunk>)
        requires
            self.wf(),
        ensures
            r is Some <==> has_chunk(self@.chunks, *index),
            r matches Some(c) ==> c@ == chunk_at(self@.chunks, *index) && c.wf(),
    {
        let k = self.find_chunk(index);
        if k < self.chunk_map.len() {
            proof {
                assert(self@.chunks[k as int] == (
                    self.chunk_map@[k as int].0,
                    self.chunk_map@[k as int].1@,
                ));
            }
            Some(&self.chunk_map[k].1)
        } else {
            None
        }
    }

    /// The chunk that holds the global coordinate `global`, if loaded.
    pub fn global_to_chunk(&self, global: &Vector2I) -> (r: Option<&Chunk>)
        requires
            self.wf(),
        ensures
            r is Some <==> has_chunk(self@.chunks, spec_global_index(*global)),
            r matches Some(c) ==> c@ == chunk_at(self@.chunks, spec_global_index(*global))
                && c.wf(),
    {
        let index = global_to_index(global);
        proof {
            assert(index == spec_global_index(*global));
        }
        self.index_to_chunk(&index)
    }

    /// The texel at a global coordinate, or nothing when its chunk is not
    /// loaded.
    pub fn global_to_texel(&self, global: &Vector2I) -> (r: Option<Texel>)
        requires
            self.wf(),
        ensures
            r == terrain_texel(self@.chunks, *global),
    {
        match self.global_to_chunk(global) {
            Some(chunk) => {
                let local = global_to_local(global);
                proof {
                    assert(local == spec_global_local(*global));
                }
                chunk.get_texel(&local)
            },
            None => None,
        }
    }

    /// Writes `id` at a global coordinate; a coordinate outside every
    /// loaded chunk is silently ignored. Within the addressed chunk this is
    /// exactly `Chunk::set_texel` at the local coordinate.
    pub fn set_texel(&mut self, global: &Vector2I, id: TexelID)
        requires
            old(self).wf(),
            has_chunk(old(self)@.chunks, spec_global_index(*global)) ==> chunk_at(
                old(self)@.chunks,
                spec_global_index(*global),
            ).buffer.time < u64::MAX,
        ensures
            final(self).wf(),
            !has_chunk(old(self)@.chunks, spec_global_index(*global)) ==> final(self)@ == old(
                self,
            )@,
            has_chunk(old(self)@.chunks, spec_global_index(*global)) ==> ({
                let ci = spec_global_index(*global);
                let ki = key_index(old(self)@.chunks, ci);
                let li = texel_index_of(spec_global_local(*global));
                let cv = chunk_at(old(self)@.chunks, ci);
                let cv2 = final(self)@.chunks[ki].1;
                &&& final(self)@.chunks.len() == old(self)@.chunks.len()
                &&& final(self)@.chunks[ki].0 == ci
                &&& forall|k: int|
                    0 <= k < old(self)@.chunks.len() && k != ki
                        ==> #[trigger] final(self)@.chunks[k] == old(self)@.chunks[k]
                &&& cv2.texels.len() == 4096
                &&& cv2.texels[li].id == id
                &&& forall|j: int|
                    0 <= j < 4096 && j != li ==> (#[trigger] cv2.texels[j]).id == cv.texels[j].id
                &&& cv.texels[li].id != id ==> cv2.buffer == after_push(
                    cv.buffer,
                    TexelUpdate { position: spec_global_local(*global), id },
                )
                &&& cv.texels[li].id == id ==> cv2.buffer == cv.buffer
                &&& final(self)@.buffer == old(self)@.buffer
                &&& final(self)@.listener_map == old(self)@.listener_map
            }),
    {
        let ghost chunks0 = self@.chunks;
        let index = global_to_index(global);
        proof {
            assert(index == spec_global_index(*global));
            lemma_key_index(chunks0, index);
        }
        let k = self.find_chunk(&index);
        if k < self.chunk_map.len() {
            let local = global_to_local(global);
            proof {
                assert(local == spec_global_local(*global));
                assert(self@.chunks[k as int] == (
                    self.chunk_map@[k as int].0,
                    self.chunk_map@[k as int].1@,
                ));
            }
            let mut entry = self.chunk_map.remove(k);
            entry.1.set_texel(&local, id);
            self.chunk_map.insert(k, entry);
            proof {
                assert forall|q: int| 0 <= q < self@.chunks.len() implies #[trigger] self@.chunks[q]
                    == (if q == k as int {
                    (index, entry.1@)
                } else {
                    chunks0[q]
                }) by {
                    assert(self@.chunks[q] == (self.chunk_map@[q].0, self.chunk_map@[q].1@));
                }
                assert(self@.listener_map =~= old(self)@.listener_map);
            }
        }
    }

    /// Position of `listener` in the fan-out bookkeeping, or its length
    /// when absent.
    fn find_listener_entry(&self, listener: Listener) -> (r: usize)
        ensures
            r as int == lm_key_index(self@.listener_map, listener),
    {
        let ghost lm = self@.listener_map;
        let mut k: usize = 0;
        while k < self.chunk_listener_map.len() && self.chunk_listener_map[k].0 != listener
            invariant
                k <= lm.len(),
                lm.len() == self.chunk_listener_map@.len(),
                lm == self@.listener_map,
                forall|j: int| 0 <= j < k ==> (#[trigger] lm[j]).0 != listener,
            decreases self.chunk_listener_map.len() - k,
        {
            proof {
                assert(lm[k as int] == (
                    self.chunk_listener_map@[k as int].0,
                    self.chunk_listener_map@[k as int].1@,
                ));
            }
            k = k + 1;
        }
        proof {
            lemma_lm_key_index(lm, listener);
            if k < self.chunk_listener_map.len() {
                assert(lm[k as int] == (
                    self.chunk_listener_map@[k as int].0,
                    self.chunk_listener_map@[k as int].1@,
                ));
                let ki = lm_key_index(lm, listener);
                if ki < k {
                    assert(lm[ki].0 == listener);
                } else if k < ki {
                    assert(lm[k as int].0 != listener);
                }
            } else {
                if lm_key_index(lm, listener) < lm.len() {
                    assert(lm[lm_key_index(lm, listener)].0 == listener);
                }
            }
        }
        k
    }

    /// Issues a terrain listener and, with it, one listener on every
    /// chunk's own log, recording the fan-out so a later
    /// `consume_changes` can drain them together.
    pub fn get_listener(&mut self) -> (r: Listener)
        requires
            old(self).wf(),
        ensures
            final(self).wf(),
            r == old(self)@.buffer.time,
            final(self)@.buffer == after_get_listener(old(self)@.buffer),
            final(self)@.chunks.len() == old(self)@.chunks.len(),
            forall|k: int|
                0 <= k < old(self)@.chunks.len() ==> {
                    &&& (#[trigger] final(self)@.chunks[k]).0 == old(self)@.chunks[k].0
                    &&& final(self)@.chunks[k].1.texels == old(self)@.chunks[k].1.texels
                    &&& final(self)@.chunks[k].1.buffer == after_get_listener(
                        old(self)@.chunks[k].1.buffer,
                    )
                },
            final(self)@.listener_map == old(self)@.listener_map.push(
                (r, listener_entries_of(old(self)@.chunks)),
            ),
    {
        let ghost tv0 = self@;
        let listener = self.change_buffer.get_listener();

        let mut chunk_listeners: Vec<(Vector2I, Listener)> = Vec::new();
        proof {
            assert(chunk_listeners@ =~= listener_entries_of(tv0.chunks).take(0));
        }
        let mut k: usize = 0;
        while k < self.chunk_map.len()
            invariant
                k <= tv0.chunks.len(),
                self.chunk_map@.len() == tv0.chunks.len(),
                self@.buffer == after_get_listener(tv0.buffer),
                self@.listener_map == tv0.listener_map,
                chunk_listeners@ == listener_entries_of(tv0.chunks).take(k as int),
                forall|q: int|
                    0 <= q < k ==> {
                        &&& (#[trigger] self@.chunks[q]).0 == tv0.chunks[q].0
                        &&& self@.chunks[q].1.texels == tv0.chunks[q].1.texels
                        &&& self@.chunks[q].1.buffer == after_get_listener(tv0.chunks[q].1.buffer)
                    },
                forall|q: int| k <= q < tv0.chunks.len() ==> #[trigger] self@.chunks[q]
                    == tv0.chunks[q],
                terrain_wf(self@),
            decreases self.chunk_map.len() - k,
        {
            let ghost pre = self@.chunks;
            proof {
                assert(pre[k as int] == (self.chunk_map@[k as int].0, self.chunk_map@[k as int].1@));
            }
            let mut ce = self.chunk_map.remove(k);
            let l = ce.1.acquire_listener();
            chunk_listeners.push((ce.0, l));
            self.chunk_map.insert(k, ce);
            proof {
                assert forall|q: int| 0 <= q < self@.chunks.len() implies #[trigger] self@.chunks[q]
                    == (if q == k as int {
                    (pre[k as int].0, ce.1@)
                } else {
                    pre[q]
                }) by {
                    assert(self@.chunks[q] == (self.chunk_map@[q].0, self.chunk_map@[q].1@));
                }
                assert(chunk_listeners@ =~= listener_entries_of(tv0.chunks).take(k + 1));
                assert(self@.listener_map =~= tv0.listener_map);
            }
            k = k + 1;
        }
        proof {
            assert(listener_entries_of(tv0.chunks).take(tv0.chunks.len() as int)
                =~= listener_entries_of(tv0.chunks));
        }
        let ghost tve = self@;
        self.chunk_listener_map.push((listener, chunk_listeners));
        proof {
            assert(self@.chunks == tve.chunks);
            assert(self@.buffer == tve.buffer);
            assert(self@.listener_map =~= tv0.listener_map.push(
                (listener, listener_entries_of(tv0.chunks)),
            ));
            assert(listeners_balanced(self@)) by {
                assert(lm_keys(self@.listener_map) =~= lm_keys(tv0.listener_map).push(listener));
                lm_keys(tv0.listener_map).to_multiset_ensures();
                tv0.buffer.listeners.to_multiset_ensures();
                assert(self@.buffer.listeners == tv0.buffer.listeners.push(listener));
                assert(lm_keys(self@.listener_map).to_multiset()
                    =~= self@.buffer.listeners.to_multiset());
            }
            assert forall|k: int| 0 <= k < tv0.chunks.len() implies {
                &&& (#[trigger] self@.chunks[k]).0 == tv0.chunks[k].0
                &&& self@.chunks[k].1.texels == tv0.chunks[k].1.texels
                &&& self@.chunks[k].1.buffer == after_get_listener(tv0.chunks[k].1.buffer)
            } by {
                assert(self@.chunks[k] == tve.chunks[k]);
            }
            assert(terrain_wf(self@)) by {
                assert forall|k: int|
                    0 <= k < self@.chunks.len() implies chunk_view_wf(
                    (#[trigger] self@.chunks[k]).1,
                ) by {
                    assert(self@.chunks[k] == tve.chunks[k]);
                    assert(chunk_view_wf(tve.chunks[k].1));
                }
                assert forall|k1: int, k2: int|
                    0 <= k1 < k2 < self@.chunks.len() implies (#[trigger] self@.chunks[k1]).0 != (
                #[trigger] self@.chunks[k2]).0 by {
                    assert(self@.chunks[k1] == tve.chunks[k1]);
                    assert(self@.chunks[k2] == tve.chunks[k2]);
                }
            }
        }
        listener
    }

    /// Drains every chunk listener recorded under this terrain listener,
    /// folding each non-empty result into the terrain log as a
    /// `TexelsUpdated` event, discards the fan-out bookkeeping, and then
    /// drains the terrain log itself. Fails (`None`) exactly when the
    /// terrain listener is not outstanding; an empty vector means no
    /// changes.
    pub fn consume_changes(&mut self, listener: Listener) -> (r: Option<Vec<TerrainUpdate>>)
        requires
            old(self).wf(),
            old(self)@.buffer.time + listener_entries(old(self)@.listener_map, listener).len()
                <= u64::MAX,
        ensures
            final(self).wf(),
            r is Some <==> old(self)@.buffer.listeners.contains(listener),
            ({
                let entries = listener_entries(old(self)@.listener_map, listener);
                let drained = drain_all(old(self)@.chunks, old(self)@.buffer, entries);
                &&& final(self)@.chunks == drained.0
                &&& (r is Some ==> final(self)@.buffer == after_consume(drained.1, listener))
                &&& (r is None ==> final(self)@.buffer == drained.1)
                &&& (r matches Some(evs) ==> evs@.map_values(|u: TerrainUpdate| u@)
                    == consumed_events(drained.1, listener))
            }),
            lm_key_index(old(self)@.listener_map, listener) < old(self)@.listener_map.len()
                ==> final(self)@.listener_map == old(self)@.listener_map.remove(
                lm_key_index(old(self)@.listener_map, listener),
            ),
            lm_key_index(old(self)@.listener_map, listener) >= old(self)@.listener_map.len()
                ==> final(self)@.listener_map == old(self)@.listener_map,
            !old(self)@.buffer.listeners.contains(listener) ==> final(self)@ == old(self)@,
    {
        let ghost tv0 = self@;
        let ghost entries_s = listener_entries(tv0.listener_map, listener);
        proof {
            lemma_lm_key_index(tv0.listener_map, listener);
            lm_keys(tv0.listener_map).to_multiset_ensures();
            tv0.buffer.listeners.to_multiset_ensures();
        }
        let kl = self.find_listener_entry(listener);
        if kl < self.chunk_listener_map.len() {
            proof {
                assert(tv0.listener_map[kl as int] == (
                    self.chunk_listener_map@[kl as int].0,
                    self.chunk_listener_map@[kl as int].1@,
                ));
            }
            let lentry = self.chunk_listener_map.remove(kl);
            let entries = lentry.1;
            proof {
                assert(entries@ == entries_s);
                assert(self@.listener_map =~= tv0.listener_map.remove(kl as int));
                assert(self@.chunks =~= tv0.chunks);
                assert(self@.chunks == drain_all(tv0.chunks, tv0.buffer, entries_s.take(0)).0);
                assert(self@.buffer == drain_all(tv0.chunks, tv0.buffer, entries_s.take(0)).1);
                assert(lm_keys(tv0.listener_map)[kl as int] == listener);
                assert(lm_keys(self@.listener_map) =~= lm_keys(tv0.listener_map).remove(
                    kl as int,
                ));
                assert(lm_keys(self@.listener_map).to_multiset() =~= tv0.buffer.listeners.to_multiset().remove(listener));
            }
            let mut e: usize = 0;
            while e < entries.len()
                invariant
                    e <= entries_s.len(),
                    entries@ == entries_s,
                    self.chunk_listener_map@.len() == tv0.listener_map.len() - 1,
                    self@.listener_map == tv0.listener_map.remove(kl as int),
                    self@.chunks == drain_all(tv0.chunks, tv0.buffer, entries_s.take(e as int)).0,
                    self@.buffer == drain_all(tv0.chunks, tv0.buffer, entries_s.take(e as int)).1,
                    self@.buffer.time <= tv0.buffer.time + e,
                    tv0.buffer.time + entries_s.len() <= u64::MAX,
                    terrain_wf(self@),
                    self@.buffer.listeners == tv0.buffer.listeners,
                    lm_keys(self@.listener_map).to_multiset()
                        == tv0.buffer.listeners.to_multiset().remove(listener),
                decreases entries@.len() - e,
            {
                let ghost chunks_pre = self@.chunks;
                let ghost buf_pre = self@.buffer;
                let p = entries[e];
                let k2 = self.find_chunk(&p.0);
                proof {
                    lemma_key_index(chunks_pre, p.0);
                }
                if k2 < self.chunk_map.len() {
                    proof {
                        assert(chunks_pre[k2 as int] == (
                            self.chunk_map@[k2 as int].0,
                            self.chunk_map@[k2 as int].1@,
                        ));
                    }
                    let mut ce = self.chunk_map.remove(k2);
                    let ghost cv = ce.1@;
                    let res = ce.1.consume_listener(p.1);
                    self.chunk_map.insert(k2, ce);
                    proof {
                        assert forall|q: int|
                            0 <= q < self@.chunks.len() implies #[trigger] self@.chunks[q] == (
                        if q == k2 as int {
                            (chunks_pre[k2 as int].0, ce.1@)
                        } else {
                            chunks_pre[q]
                        }) by {
                            assert(self@.chunks[q] == (self.chunk_map@[q].0, self.chunk_map@[q].1@));
                        }
                        assert(self@.listener_map =~= tv0.listener_map.remove(kl as int));
                    }
                    match res {
                        Some(changes) => {
                            if changes.len() > 0 {
                                self.change_buffer.push_event(
                                    TerrainUpdate::TexelsUpdated(p.0, changes),
                                );
                            }
                        },
                        None => {},
                    }
                    proof {
                        let pre = entries_s.take(e + 1);
                        assert(pre.drop_last() =~= entries_s.take(e as int));
                        assert(pre.last() == entries_s[e as int]);
                        if cv.buffer.listeners.contains(p.1) {
                            let evs = consumed_events(cv.buffer, p.1);
                            let cv2 = ChunkView {
                                texels: cv.texels,
                                buffer: after_consume(cv.buffer, p.1),
                            };
                            assert(ce.1@ =~= cv2);
                            assert(self@.chunks =~= chunks_pre.update(
                                k2 as int,
                                (p.0, cv2),
                            ));
                        } else {
                            assert(ce.1@ =~= cv);
                            assert(self@.chunks =~= chunks_pre);
                        }
                        assert(self@.chunks == drain_all(
                            tv0.chunks,
                            tv0.buffer,
                            entries_s.take(e + 1),
                        ).0);
                        assert(self@.buffer == drain_all(
                            tv0.chunks,
                            tv0.buffer,
                            entries_s.take(e + 1),
                        ).1);
                    }
                } else {
                    proof {
                        let pre = entries_s.take(e + 1);
                        assert(pre.drop_last() =~= entries_s.take(e as int));
                        assert(pre.last() == entries_s[e as int]);
                    }
                }
                e = e + 1;
            }
            proof {
                assert(entries_s.take(entries_s.len() as int) =~= entries_s);
            }
        } else {
            proof {
                assert(entries_s =~= Seq::<(Vector2I, u64)>::empty());
            }
        }
        proof {
            lemma_drain_all_log(tv0.chunks, tv0.buffer, entries_s);
        }
        let ghost tvd = self@;
        let r = self.change_buffer.consume_listener(listener);
        proof {
            if kl < tv0.listener_map.len() {
                // the listener was recorded, so by balance it was outstanding
                assert(lm_keys(tv0.listener_map)[kl as int] == listener);
                assert(lm_keys(tv0.listener_map).contains(listener));
                assert(tv0.buffer.listeners.to_multiset().count(listener) > 0);
                assert(tv0.buffer.listeners.contains(listener));
                assert(tvd.buffer.listeners.contains(listener));
                assert(listeners_balanced(self@)) by {
                    let bl = tvd.buffer.listeners;
                    bl.index_of_first_ensures(listener);
                    let idx = bl.index_of_first(listener).unwrap();
                    bl.to_multiset_ensures();
                    assert(self@.buffer.listeners == bl.remove(idx));
                    assert(self@.buffer.listeners.to_multiset()
                        =~= tv0.buffer.listeners.to_multiset().remove(listener));
                    assert(lm_keys(self@.listener_map).to_multiset()
                        =~= self@.buffer.listeners.to_multiset());
                }
            } else {
                // unknown listener: nothing was recorded and, by balance,
                // nothing is outstanding, so the whole call is a no-op
                assert(!lm_keys(tv0.listener_map).contains(listener)) by {
                    if lm_keys(tv0.listener_map).contains(listener) {
                        let w = choose|w: int|
                            0 <= w < lm_keys(tv0.listener_map).len() && lm_keys(
                                tv0.listener_map,
                            )[w] == listener;
                        assert(tv0.listener_map[w].0 == listener);
                    }
                }
                assert(tv0.buffer.listeners.to_multiset().count(listener) == 0);
                assert(!tv0.buffer.listeners.contains(listener));
                assert(r is None);
                assert(self@ =~= tv0);
            }
        }
        r
    }
}

/// How one `set_texel` call moves the per-cell ids of the whole terrain.
pub proof fn lemma_set_texel_ids(
pre: TerrainView,
post: TerrainView,
tvr: TerrainView,
    p: Vector2I,
    id: TexelID,
)
    requires
        terrain_wf(pre),
        pre.chunks.len() == tvr.chunks.len(),
        forall|k: int|
            0 <= k < tvr.chunks.len() ==> (#[trigger] pre.chunks[k]).0 == tvr.chunks[k].0,
        // what Terrain::set_texel ensures
        !has_chunk(pre.chunks, spec_global_index(p)) ==> post == pre,
        has_chunk(pre.chunks, spec_global_index(p)) ==> ({
            let ci = spec_global_index(p);
            let ki = key_index(pre.chunks, ci);
            let li = texel_index_of(spec_global_local(p));
            let cv = chunk_at(pre.chunks, ci);
            let cv2 = post.chunks[ki].1;
            &&& post.chunks.len() == pre.chunks.len()
            &&& post.chunks[ki].0 == ci
            &&& forall|k: int|
                0 <= k < pre.chunks.len() && k != ki ==> #[trigger] post.chunks[k]
                    == pre.chunks[k]
            &&& cv2.texels.len() == 4096
            &&& cv2.texels[li].id == id
            &&& forall|j: int|
                0 <= j < 4096 && j != li ==> (#[trigger] cv2.texels[j]).id == cv.texels[j].id
        }),
    ensures
        post.chunks.len() == pre.chunks.len(),
        forall|k: int|
            0 <= k < tvr.chunks.len() ==> (#[trigger] post.chunks[k]).0 == tvr.chunks[k].0,
        terrain_id(post.chunks, p) == (match terrain_id(pre.chunks, p) {
            Some(_) => Some(id),
            None => None::<TexelID>,
        }),
        forall|q: Vector2I|
            q != p ==> #[trigger] terrain_id(post.chunks, q) == terrain_id(pre.chunks, q),
{
    let ci = spec_global_index(p);
    lemma_key_index(pre.chunks, ci);
    if has_chunk(pre.chunks, ci) {
        let ki = key_index(pre.chunks, ci);
        assert forall|k: int|
            0 <= k < tvr.chunks.len() implies (#[trigger] post.chunks[k]).0
            == tvr.chunks[k].0 by {
            if k != ki {
                assert(post.chunks[k] == pre.chunks[k]);
            }
        }
        lemma_key_index_keys(post.chunks, pre.chunks, ci);
        assert(terrain_id(post.chunks, p) == Some(id)) by {
            assert(0 <= texel_index_of(spec_global_local(p)) < 4096);
        }
        assert forall|q: Vector2I|
            q != p implies #[trigger] terrain_id(post.chunks, q) == terrain_id(
            pre.chunks,
            q,
        ) by {
            let cq = spec_global_index(q);
            lemma_key_index(pre.chunks, cq);
            lemma_key_index_keys(post.chunks, pre.chunks, cq);
            if has_chunk(pre.chunks, cq) {
                let kq = key_index(pre.chunks, cq);
                if kq != ki {
                    assert(post.chunks[kq] == pre.chunks[kq]);
                } else {
                    // same chunk: ids only moved at p's own cell
                    let lq = texel_index_of(spec_global_local(q));
                    let li = texel_index_of(spec_global_local(p));
                    assert(pre.chunks[ki].0 == ci);
                    assert(pre.chunks[kq].0 == cq);
                    assert(cq == ci);
                    assert(lq != li) by {
                        if lq == li {
                            lemma_global_coord_unique(p, q);
                        }
                    }
                    assert(0 <= lq < 4096) by {
                        lemma_fundamental_div_mod(q.x as int, 64);
                        lemma_fundamental_div_mod(q.y as int, 64);
                    }
                    assert(chunk_view_wf(pre.chunks[kq].1));
                    assert(pre.chunks[kq].1.texels.len() == 4096);
                }
            }
        }
    }
}

} // verus!
