use mst_terrain::chunk::Chunk;
use mst_terrain::terrain::{Terrain, TerrainUpdate};
use mst_terrain::vector2i::Vector2I;

fn terrain_with_chunk(index: Vector2I) -> Terrain {
    let mut terrain = Terrain::new();
    terrain.add_chunk(index, Chunk::new());
    terrain
}

#[test]
fn set_texel_routes_to_the_owning_chunk() {
    let mut terrain = Terrain::new();
    terrain.add_chunk(Vector2I { x: 0, y: 0 }, Chunk::new());
    terrain.add_chunk(Vector2I { x: -1, y: -1 }, Chunk::new());

    terrain.set_texel(&Vector2I { x: 5, y: 5 }, 1);
    terrain.set_texel(&Vector2I { x: -1, y: -1 }, 2);

    assert_eq!(terrain.global_to_texel(&Vector2I { x: 5, y: 5 }).unwrap().id, 1);
    assert_eq!(terrain.global_to_texel(&Vector2I { x: -1, y: -1 }).unwrap().id, 2);
    // the negative cell sits at local (63, 63) of chunk (-1, -1)
    let chunk = terrain.index_to_chunk(&Vector2I { x: -1, y: -1 }).unwrap();
    assert_eq!(chunk.get_texel(&Vector2I { x: 63, y: 63 }).unwrap().id, 2);
}

#[test]
fn out_of_range_writes_are_ignored() {
    let mut terrain = terrain_with_chunk(Vector2I { x: 0, y: 0 });
    terrain.set_texel(&Vector2I { x: 100, y: 100 }, 1);
    assert_eq!(terrain.global_to_texel(&Vector2I { x: 100, y: 100 }), None);
    assert!(terrain.index_to_chunk(&Vector2I { x: 1, y: 1 }).is_none());
    assert_eq!(terrain.chunk_count(), 1);
}

#[test]
fn consume_changes_merges_chunk_events() {
    let mut terrain = terrain_with_chunk(Vector2I { x: 0, y: 0 });
    let listener = terrain.get_listener();
    terrain.set_texel(&Vector2I { x: 3, y: 4 }, 1);
    terrain.set_texel(&Vector2I { x: 5, y: 6 }, 2);

    let events = terrain.consume_changes(listener).unwrap();
    assert_eq!(events.len(), 1);
    match &events[0] {
        TerrainUpdate::TexelsUpdated(index, changes) => {
            assert_eq!(*index, Vector2I { x: 0, y: 0 });
            assert_eq!(changes.len(), 2);
            assert_eq!(changes[0].position, Vector2I { x: 3, y: 4 });
            assert_eq!(changes[0].id, 1);
            assert_eq!(changes[1].position, Vector2I { x: 5, y: 6 });
            assert_eq!(changes[1].id, 2);
        },
        _ => panic!("expected a texel update event"),
    }

    // a listener is retired by its consume
    assert!(terrain.consume_changes(listener).is_none());
}

#[test]
fn consume_changes_sees_chunk_lifecycle_events() {
    let mut terrain = terrain_with_chunk(Vector2I { x: 0, y: 0 });
    let listener = terrain.get_listener();
    terrain.add_chunk(Vector2I { x: 1, y: 0 }, Chunk::new());
    terrain.remove_chunk(Vector2I { x: 1, y: 0 });

    let events = terrain.consume_changes(listener).unwrap();
    assert_eq!(events.len(), 2);
    assert!(matches!(events[0], TerrainUpdate::ChunkAdded(i) if i == Vector2I { x: 1, y: 0 }));
    assert!(matches!(events[1], TerrainUpdate::ChunkRemoved(i) if i == Vector2I { x: 1, y: 0 }));
    assert_eq!(terrain.chunk_count(), 1);
}

#[test]
fn adding_under_an_existing_key_replaces_the_chunk() {
    let mut terrain = Terrain::new();
    let index = Vector2I { x: 0, y: 0 };
    terrain.add_chunk(index, Chunk::new());
    terrain.set_texel(&Vector2I { x: 1, y: 1 }, 2);
    assert_eq!(terrain.global_to_texel(&Vector2I { x: 1, y: 1 }).unwrap().id, 2);

    // a second add under the same key swaps in the fresh chunk
    terrain.add_chunk(index, Chunk::new());
    assert_eq!(terrain.chunk_count(), 1);
    assert_eq!(terrain.global_to_texel(&Vector2I { x: 1, y: 1 }).unwrap().id, 0);
}

#[test]
fn quiet_tick_returns_empty_changes() {
    let mut terrain = terrain_with_chunk(Vector2I { x: 0, y: 0 });
    let listener = terrain.get_listener();
    let events = terrain.consume_changes(listener).unwrap();
    assert_eq!(events.len(), 0);
}

#[test]
fn reacquired_listener_sees_only_new_changes() {
    let mut terrain = terrain_with_chunk(Vector2I { x: 0, y: 0 });
    let l1 = terrain.get_listener();
    terrain.set_texel(&Vector2I { x: 1, y: 1 }, 1);
    let e1 = terrain.consume_changes(l1).unwrap();
    assert_eq!(e1.len(), 1);

    // the consumer re-acquires a listener every tick and sees a gap-free,
    // duplicate-free stream
    let l2 = terrain.get_listener();
    terrain.set_texel(&Vector2I { x: 2, y: 2 }, 2);
    let e2 = terrain.consume_changes(l2).unwrap();
    assert_eq!(e2.len(), 1);
    match &e2[0] {
        TerrainUpdate::TexelsUpdated(_, changes) => {
            assert_eq!(changes.len(), 1);
            assert_eq!(changes[0].position, Vector2I { x: 2, y: 2 });
        },
        _ => panic!("expected a texel update event"),
    }
}
