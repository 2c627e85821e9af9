use mst_terrain::chunk::Chunk;
use mst_terrain::sync::{ChunkIndex, TerrainCollision, TerrainRender, TerrainSync};
use mst_terrain::terrain::Terrain;
use mst_terrain::vector2i::Vector2I;

#[test]
fn sync_systems_start_without_a_listener() {
    assert!(TerrainRender::new().listener().is_none());
    assert!(TerrainCollision::new().listener().is_none());
}

#[test]
fn sync_systems_remember_their_listener() {
    let mut render = TerrainRender::new();
    render.set_listener(7);
    assert_eq!(render.listener(), Some(7));
    let mut collision = TerrainCollision::new();
    collision.set_listener(3);
    assert_eq!(collision.listener(), Some(3));
}

#[test]
fn missing_chunks_reports_untracked_chunks_in_order() {
    let mut terrain = Terrain::new();
    terrain.add_chunk(Vector2I { x: 0, y: 0 }, Chunk::new());
    terrain.add_chunk(Vector2I { x: 1, y: 0 }, Chunk::new());
    terrain.add_chunk(Vector2I { x: 0, y: 1 }, Chunk::new());

    let mut sync = TerrainSync::new();
    assert_eq!(
        sync.missing_chunks(&terrain),
        vec![Vector2I { x: 0, y: 0 }, Vector2I { x: 1, y: 0 }, Vector2I { x: 0, y: 1 }]
    );

    sync.mark_added(Vector2I { x: 1, y: 0 });
    assert_eq!(
        sync.missing_chunks(&terrain),
        vec![Vector2I { x: 0, y: 0 }, Vector2I { x: 0, y: 1 }]
    );
    assert!(sync.contains(&Vector2I { x: 1, y: 0 }));
}

#[test]
fn retain_existing_forgets_removed_chunks() {
    let mut terrain = Terrain::new();
    terrain.add_chunk(Vector2I { x: 0, y: 0 }, Chunk::new());
    terrain.add_chunk(Vector2I { x: 1, y: 0 }, Chunk::new());

    let mut sync = TerrainSync::new();
    sync.mark_added(Vector2I { x: 0, y: 0 });
    sync.mark_added(Vector2I { x: 1, y: 0 });

    terrain.remove_chunk(Vector2I { x: 1, y: 0 });
    sync.retain_existing(&terrain);
    assert!(sync.contains(&Vector2I { x: 0, y: 0 }));
    assert!(!sync.contains(&Vector2I { x: 1, y: 0 }));
}

#[test]
fn chunk_index_carries_its_coordinate() {
    let ci = ChunkIndex { index: Vector2I { x: -2, y: 9 } };
    assert_eq!(ci.index, Vector2I { x: -2, y: 9 });
}
