use mst_terrain::chunk::{Chunk, TexelUpdate};
use mst_terrain::vector2i::Vector2I;

fn mask_at(chunk: &Chunk, x: i32, y: i32) -> u8 {
    chunk.get_texel(&Vector2I { x, y }).unwrap().neighbour_mask
}

#[test]
fn new_chunk_is_empty() {
    let chunk = Chunk::new();
    for (x, y) in [(0, 0), (5, 5), (63, 63)] {
        let t = chunk.get_texel(&Vector2I { x, y }).unwrap();
        assert_eq!(t.id, 0);
        assert_eq!(t.neighbour_mask, 0);
    }
    assert_eq!(chunk.get_texel(&Vector2I { x: 64, y: 0 }), None);
    assert_eq!(chunk.get_texel(&Vector2I { x: 0, y: -1 }), None);
}

#[test]
fn neighbour_masks_flip_and_restore() {
    let mut chunk = Chunk::new();
    chunk.set_texel(&Vector2I { x: 5, y: 5 }, 1);

    // each in-bounds orthogonal neighbour gets the bit pointing back
    assert_eq!(mask_at(&chunk, 5, 4), 0b0100); // cell above: down bit
    assert_eq!(mask_at(&chunk, 6, 5), 0b1000); // cell right: left bit
    assert_eq!(mask_at(&chunk, 5, 6), 0b0001); // cell below: up bit
    assert_eq!(mask_at(&chunk, 4, 5), 0b0010); // cell left: right bit
    // diagonal and distant cells are untouched
    assert_eq!(mask_at(&chunk, 4, 4), 0);
    assert_eq!(mask_at(&chunk, 6, 6), 0);
    assert_eq!(mask_at(&chunk, 5, 5), 0);

    // toggling back restores every mask bit-for-bit
    chunk.set_texel(&Vector2I { x: 5, y: 5 }, 0);
    for (x, y) in [(5, 4), (6, 5), (5, 6), (4, 5), (4, 4), (5, 5)] {
        assert_eq!(mask_at(&chunk, x, y), 0);
    }
}

#[test]
fn masks_accumulate_from_both_neighbours() {
    let mut chunk = Chunk::new();
    chunk.set_texel(&Vector2I { x: 5, y: 4 }, 1);
    chunk.set_texel(&Vector2I { x: 5, y: 6 }, 2);
    // the middle cell sees solid up and down neighbours
    assert_eq!(mask_at(&chunk, 5, 5), 0b0101);
}

#[test]
fn edge_cell_only_flips_in_bounds_neighbours() {
    let mut chunk = Chunk::new();
    chunk.set_texel(&Vector2I { x: 0, y: 0 }, 1);
    assert_eq!(mask_at(&chunk, 1, 0), 0b1000);
    assert_eq!(mask_at(&chunk, 0, 1), 0b0001);
}

#[test]
fn set_texel_records_one_event_per_change() {
    let mut chunk = Chunk::new();
    let listener = chunk.acquire_listener();
    chunk.set_texel(&Vector2I { x: 3, y: 7 }, 2);
    chunk.set_texel(&Vector2I { x: 3, y: 7 }, 2); // same id: no event
    chunk.set_texel(&Vector2I { x: 3, y: 7 }, 0);
    let changes = chunk.consume_listener(listener).unwrap();
    assert_eq!(
        changes,
        vec![
            TexelUpdate { position: Vector2I { x: 3, y: 7 }, id: 2 },
            TexelUpdate { position: Vector2I { x: 3, y: 7 }, id: 0 },
        ]
    );
    assert_eq!(chunk.consume_listener(listener), None);
}

#[test]
fn unwatched_chunk_keeps_no_history() {
    let mut chunk = Chunk::new();
    chunk.set_texel(&Vector2I { x: 1, y: 1 }, 1);
    let listener = chunk.acquire_listener();
    // only changes after the listener was issued are visible
    chunk.set_texel(&Vector2I { x: 2, y: 2 }, 1);
    let changes = chunk.consume_listener(listener).unwrap();
    assert_eq!(changes, vec![TexelUpdate { position: Vector2I { x: 2, y: 2 }, id: 1 }]);
}
