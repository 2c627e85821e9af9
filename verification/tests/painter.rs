use mst_terrain::chunk::Chunk;
use mst_terrain::painter::TerrainPainter;
use mst_terrain::terrain::Terrain;
use mst_terrain::vector2i::Vector2I;

#[test]
fn new_brush_has_default_radius() {
    let painter = TerrainPainter::new();
    assert_eq!(painter.radius(), 6);
}

#[test]
fn radius_is_clamped() {
    let mut painter = TerrainPainter::new();
    painter.set_radius(0);
    assert_eq!(painter.radius(), 1);
    painter.set_radius(300);
    assert_eq!(painter.radius(), 128);
    painter.set_radius(17);
    assert_eq!(painter.radius(), 17);
}

#[test]
fn paint_circle_paints_exactly_the_disc() {
    let mut terrain = Terrain::new();
    terrain.add_chunk(Vector2I { x: 0, y: 0 }, Chunk::new());
    let painter = TerrainPainter::new();

    painter.paint_circle(&mut terrain, Vector2I { x: 5, y: 5 }, 2, 1);

    // radius 2 paints the origin and its four orthogonal neighbours
    for (x, y) in [(5, 5), (4, 5), (6, 5), (5, 4), (5, 6)] {
        assert_eq!(terrain.global_to_texel(&Vector2I { x, y }).unwrap().id, 1, "({x},{y})");
    }
    for (x, y) in [(4, 4), (6, 6), (4, 6), (6, 4), (7, 5), (3, 5)] {
        assert_eq!(terrain.global_to_texel(&Vector2I { x, y }).unwrap().id, 0, "({x},{y})");
    }
}

#[test]
fn paint_circle_skips_unloaded_chunks() {
    let mut terrain = Terrain::new();
    terrain.add_chunk(Vector2I { x: 0, y: 0 }, Chunk::new());
    let painter = TerrainPainter::new();

    // the disc straddles the chunk border at x = 64; only the loaded side
    // takes paint
    painter.paint_circle(&mut terrain, Vector2I { x: 63, y: 10 }, 3, 2);
    assert_eq!(terrain.global_to_texel(&Vector2I { x: 63, y: 10 }).unwrap().id, 2);
    assert_eq!(terrain.global_to_texel(&Vector2I { x: 62, y: 10 }).unwrap().id, 2);
    assert_eq!(terrain.global_to_texel(&Vector2I { x: 64, y: 10 }), None);
    assert_eq!(terrain.chunk_count(), 1);
}

#[test]
fn erasing_restores_empty_terrain() {
    let mut terrain = Terrain::new();
    terrain.add_chunk(Vector2I { x: 0, y: 0 }, Chunk::new());
    let painter = TerrainPainter::new();
    painter.paint_circle(&mut terrain, Vector2I { x: 10, y: 10 }, 4, 1);
    painter.paint_circle(&mut terrain, Vector2I { x: 10, y: 10 }, 4, 0);
    for y in 0..20 {
        for x in 0..20 {
            let t = terrain.global_to_texel(&Vector2I { x, y }).unwrap();
            assert_eq!(t.id, 0);
            assert_eq!(t.neighbour_mask, 0);
        }
    }
}
