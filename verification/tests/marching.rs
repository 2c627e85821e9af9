use mst_terrain::chunk::Chunk;
use mst_terrain::marching_square::{calculate_collisions, extract_islands};
use mst_terrain::vector2i::Vector2I;

#[test]
fn empty_chunk_has_no_islands() {
    let chunk = Chunk::new();
    assert_eq!(extract_islands(&chunk).len(), 0);
    assert_eq!(calculate_collisions(&chunk).len(), 0);
}

#[test]
fn single_cell_yields_one_closed_square() {
    let mut chunk = Chunk::new();
    chunk.set_texel(&Vector2I { x: 5, y: 5 }, 1);

    let islands = extract_islands(&chunk);
    assert_eq!(islands.len(), 1);
    assert_eq!(islands[0].len(), 4);
    // the chain is endpoint-connected and closed
    for w in islands[0].windows(2) {
        assert_eq!(w[0].to, w[1].from);
    }
    assert_eq!(islands[0][3].to, islands[0][0].from);

    let loops = calculate_collisions(&chunk);
    assert_eq!(loops.len(), 1);
    let points = &loops[0];
    assert_eq!(points.first(), points.last());
    let distinct: Vec<Vector2I> = points[..points.len() - 1].to_vec();
    assert_eq!(distinct.len(), 4);
    for corner in [
        Vector2I { x: 5, y: 5 },
        Vector2I { x: 6, y: 5 },
        Vector2I { x: 6, y: 6 },
        Vector2I { x: 5, y: 6 },
    ] {
        assert!(distinct.contains(&corner));
    }
}

#[test]
fn solid_block_with_empty_border_yields_inner_rectangle() {
    let mut chunk = Chunk::new();
    for y in 1..63 {
        for x in 1..63 {
            chunk.set_texel(&Vector2I { x, y }, 1);
        }
    }

    let islands = extract_islands(&chunk);
    assert_eq!(islands.len(), 1);
    // the inner boundary is one closed chain of unit segments
    assert_eq!(islands[0].len(), 62 * 4);
    for w in islands[0].windows(2) {
        assert_eq!(w[0].to, w[1].from);
    }
    assert_eq!(islands[0].last().unwrap().to, islands[0][0].from);

    let loops = calculate_collisions(&chunk);
    assert_eq!(loops.len(), 1);
    let points = &loops[0];
    assert_eq!(points.first(), points.last());
    // after collinear merging only the four rectangle corners remain
    let mut distinct: Vec<Vector2I> = points[..points.len() - 1].to_vec();
    distinct.sort_by_key(|p| (p.x, p.y));
    distinct.dedup();
    let mut expected = vec![
        Vector2I { x: 1, y: 1 },
        Vector2I { x: 63, y: 1 },
        Vector2I { x: 63, y: 63 },
        Vector2I { x: 1, y: 63 },
    ];
    expected.sort_by_key(|p| (p.x, p.y));
    assert_eq!(distinct, expected);
}

#[test]
fn two_separate_cells_yield_two_islands() {
    let mut chunk = Chunk::new();
    chunk.set_texel(&Vector2I { x: 5, y: 5 }, 1);
    chunk.set_texel(&Vector2I { x: 20, y: 20 }, 2);
    let islands = extract_islands(&chunk);
    assert_eq!(islands.len(), 2);
    assert_eq!(calculate_collisions(&chunk).len(), 2);
}
