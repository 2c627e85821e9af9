//! State of the per-tick synchronization systems. Each consumer holds at
//! most one terrain listener between ticks; the chunk-to-entity bookkeeping
//! tracks which chunks already have a composed entity.

use vstd::prelude::*;
use crate::change_buffer::Listener;
use crate::terrain::{has_chunk, Terrain};
use crate::vector2i::Vector2I;

verus! {

/// A chunk's index, as carried by the entity composed for that chunk.
#[derive(Clone, Copy, PartialEq, Eq, Structural, Debug)]
pub struct ChunkIndex {
    pub index: Vector2I,
}

/// The render synchronizer's cross-tick state: the terrain listener it will
/// drain on its next tick, if it holds one.
pub struct TerrainRender {
    terrain_listener: Option<Listener>,
}

impl TerrainRender {
    pub closed spec fn spec_listener(&self) -> Option<Listener> {
        self.terrain_listener
    }

    pub fn new() -> (r: TerrainRender)
        ensures
            r.spec_listener() is None,
    {
        TerrainRender { terrain_listener: None }
    }

    pub fn listener(&self) -> (r: Option<Listener>)
        ensures
            r == self.spec_listener(),
    {
        self.terrain_listener
    }

    pub fn set_listener(&mut self, listener: Listener)
        ensures
            final(self).spec_listener() == Some(listener),
    {
        self.terrain_listener = Some(listener);
    }
}

/// The physics synchronizer's cross-tick state; same protocol as the
/// render one.
pub struct TerrainCollision {
    terrain_listener: Option<Listener>,
}

impl TerrainCollision {
    pub closed spec fn spec_listener(&self) -> Option<Listener> {
        self.terrain_listener
    }

    pub fn new() -> (r: TerrainCollision)
        ensures
            r.spec_listener() is None,
    {
        TerrainCollision { terrain_listener: None }
    }

    pub fn listener(&self) -> (r: Option<Listener>)
        ensures
            r == self.spec_listener(),
    {
        self.terrain_listener
    }

    pub fn set_listener(&mut self, listener: Listener)
        ensures
            final(self).spec_listener() == Some(listener),
    {
        self.terrain_listener = Some(listener);
    }
}

/// Which terrain chunks already have a composed entity.
pub struct TerrainSync {
    chunk_set: Vec<Vector2I>,
}

impl View for TerrainSync {
    type V = Seq<Vector2I>;

    closed spec fn view(&self) -> Seq<Vector2I> {
        self.chunk_set@
    }
}

/// The chunk indices of `chunks` that are not yet in `have`, in storage
/// order.
pub open spec fn spec_missing(
    chunks: Seq<(Vector2I, crate::chunk::ChunkView)>,
    have: Seq<Vector2I>,
) -> Seq<Vector2I>
    decreases chunks.len(),
{
    if chunks.len() == 0 {
        Seq::empty()
    } else {
        let rest = spec_missing(chunks.drop_last(), have);
        if have.contains(chunks.last().0) {
            rest
        } else {
            rest.push(chunks.last().0)
        }
    }
}

/// The elements of `have` whose chunk still exists, in order.
pub open spec fn spec_retained(
    have: Seq<Vector2I>,
    chunks: Seq<(Vector2I, crate::chunk::ChunkView)>,
) -> Seq<Vector2I>
    decreases have.len(),
{
    if have.len() == 0 {
        Seq::empty()
    } else {
        let rest = spec_retained(have.drop_last(), chunks);
        if has_chunk(chunks, have.last()) {
            rest.push(have.last())
        } else {
            rest
        }
    }
}

impl TerrainSync {
    pub fn new() -> (r: TerrainSync)
        ensures
            r@ == Seq::<Vector2I>::empty(),
    {
        TerrainSync { chunk_set: Vec::new() }
    }

    /// Whether a chunk index is already tracked.
    pub fn contains(&self, index: &Vector2I) -> (r: bool)
        ensures
            r == self@.contains(*index),
    {
        let mut k: usize = 0;
        while k < self.chunk_set.len()
            invariant
                k <= self@.len(),
                forall|j: int| 0 <= j < k ==> self@[j] != *index,
            decreases self@.len() - k,
        {
            if self.chunk_set[k] == *index {
                return true;
            }
            k = k + 1;
        }
        false
    }

    /// Starts tracking a chunk index; tracking one twice is a no-op.
    pub fn mark_added(&mut self, index: Vector2I)
        ensures
            old(self)@.contains(index) ==> final(self)@ == old(self)@,
            !old(self)@.contains(index) ==> final(self)@ == old(self)@.push(index),
            final(self)@.contains(index),
    {
        if !self.contains(&index) {
            self.chunk_set.push(index);
            proof {
                assert(self@[self@.len() - 1] == index);
            }
        }
    }

    /// The terrain chunks that do not have an entity yet, in terrain
    /// storage order.
    pub fn missing_chunks(&self, terrain: &Terrain) -> (r: Vec<Vector2I>)
        ensures
            r@ == spec_missing(terrain@.chunks, self@),
    {
        let mut r: Vec<Vector2I> = Vec::new();
        let n = terrain.chunk_count();
        let mut k: usize = 0;
        proof {
            assert(r@ =~= spec_missing(terrain@.chunks.take(0), self@));
        }
        while k < n
            invariant
                k <= terrain@.chunks.len(),
                n == terrain@.chunks.len(),
                r@ == spec_missing(terrain@.chunks.take(k as int), self@),
            decreases n - k,
        {
            let index = terrain.chunk_index_at(k);
            proof {
                let pre = terrain@.chunks.take(k + 1);
                assert(pre.drop_last() =~= terrain@.chunks.take(k as int));
                assert(pre.last() == terrain@.chunks[k as int]);
            }
            if !self.contains(&index) {
                r.push(index);
            }
            k = k + 1;
        }
        proof {
            assert(terrain@.chunks.take(terrain@.chunks.len() as int) =~= terrain@.chunks);
        }
        r
    }

    /// Forgets every tracked chunk whose terrain chunk was removed.
    pub fn retain_existing(&mut self, terrain: &Terrain)
        requires
            terrain.wf(),
        ensures
            final(self)@ == spec_retained(old(self)@, terrain@.chunks),
    {
        let ghost have0 = self@;
        let mut kept: Vec<Vector2I> = Vec::new();
        let mut k: usize = 0;
        proof {
            assert(kept@ =~= spec_retained(have0.take(0), terrain@.chunks));
        }
        while k < self.chunk_set.len()
            invariant
                terrain.wf(),
                k <= have0.len(),
                self@ == have0,
                kept@ == spec_retained(have0.take(k as int), terrain@.chunks),
            decreases have0.len() - k,
        {
            let index = self.chunk_set[k];
            proof {
                let pre = have0.take(k + 1);
                assert(pre.drop_last() =~= have0.take(k as int));
                assert(pre.last() == have0[k as int]);
            }
            if terrain.index_to_chunk(&index).is_some() {
                kept.push(index);
            }
            k = k + 1;
        }
        proof {
            assert(have0.take(have0.len() as int) =~= have0);
        }
        self.chunk_set = kept;
    }
}

} // verus!
