use mst_terrain::chunk::{Chunk, TexelUpdate};
use mst_terrain::render::{apply_texel_updates_to_pixels, material_color, paint_chunk_pixels, BYTES_PER_PIXEL};
use mst_terrain::vector2i::Vector2I;

#[test]
fn palette_colors() {
    assert_eq!(material_color(0), (0, 0, 0, 0));
    assert_eq!(material_color(1), (158, 127, 99, 255));
    assert_eq!(material_color(2), (70, 142, 71, 255));
}

#[test]
fn full_repaint_matches_texels() {
    let mut chunk = Chunk::new();
    chunk.set_texel(&Vector2I { x: 2, y: 1 }, 1);
    chunk.set_texel(&Vector2I { x: 3, y: 1 }, 2);
    let mut buffer: Vec<u8> = vec![9; 64 * 64 * BYTES_PER_PIXEL];

    paint_chunk_pixels(&chunk, &mut buffer);

    let i1 = (1 * 64 + 2) * 4;
    assert_eq!(&buffer[i1..i1 + 4], &[158, 127, 99, 255]);
    let i2 = (1 * 64 + 3) * 4;
    assert_eq!(&buffer[i2..i2 + 4], &[70, 142, 71, 255]);
    // an empty cell is transparent
    assert_eq!(&buffer[0..4], &[0, 0, 0, 0]);
}

#[test]
fn selective_repaint_touches_only_named_cells() {
    let mut buffer: Vec<u8> = vec![9; 64 * 64 * BYTES_PER_PIXEL];
    let changes = vec![
        TexelUpdate { position: Vector2I { x: 0, y: 0 }, id: 1 },
        TexelUpdate { position: Vector2I { x: 1, y: 0 }, id: 2 },
    ];
    apply_texel_updates_to_pixels(&changes, &mut buffer);
    assert_eq!(&buffer[0..4], &[158, 127, 99, 255]);
    assert_eq!(&buffer[4..8], &[70, 142, 71, 255]);
    // every other byte is untouched
    assert!(buffer[8..].iter().all(|b| *b == 9));
}

#[test]
fn later_updates_win() {
    let mut buffer: Vec<u8> = vec![0; 64 * 64 * BYTES_PER_PIXEL];
    let changes = vec![
        TexelUpdate { position: Vector2I { x: 5, y: 5 }, id: 1 },
        TexelUpdate { position: Vector2I { x: 5, y: 5 }, id: 2 },
    ];
    apply_texel_updates_to_pixels(&changes, &mut buffer);
    let i = (5 * 64 + 5) * 4;
    assert_eq!(&buffer[i..i + 4], &[70, 142, 71, 255]);
}
