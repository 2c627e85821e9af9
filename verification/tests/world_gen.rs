use mst_terrain::vector2i::Vector2I;
use mst_terrain::world_gen::{color_dist, gen_from_pixels, map_closest_color};

#[test]
fn color_distance_is_sum_of_absolute_differences() {
    assert_eq!(color_dist((0, 0, 0), (0, 0, 0)), 0);
    assert_eq!(color_dist((10, 20, 30), (30, 20, 10)), 40);
    assert_eq!(color_dist((255, 0, 255), (0, 255, 0)), 765);
}

#[test]
fn exact_palette_colors_map_to_their_ids() {
    assert_eq!(map_closest_color((172, 191, 250)), 0);
    assert_eq!(map_closest_color((30, 30, 30)), 0);
    assert_eq!(map_closest_color((0, 0, 0)), 0);
    assert_eq!(map_closest_color((158, 127, 99)), 1);
    assert_eq!(map_closest_color((70, 142, 71)), 2);
}

#[test]
fn nearby_colors_map_to_the_nearest_entry() {
    assert_eq!(map_closest_color((160, 126, 100)), 1);
    assert_eq!(map_closest_color((69, 140, 75)), 2);
    assert_eq!(map_closest_color((5, 5, 5)), 0);
}

#[test]
fn terrain_mirrors_the_seed_image() {
    // a 2 x 2 image: material 1, background, material 2, sky
    let rgba: Vec<u8> = vec![
        158, 127, 99, 255, // (0, 0)
        0, 0, 0, 255, // (1, 0)
        70, 142, 71, 255, // (0, 1)
        172, 191, 250, 255, // (1, 1)
    ];
    let terrain = gen_from_pixels(2, 2, &rgba);
    assert_eq!(terrain.chunk_count(), 1);
    assert_eq!(terrain.global_to_texel(&Vector2I { x: 0, y: 0 }).unwrap().id, 1);
    assert_eq!(terrain.global_to_texel(&Vector2I { x: 1, y: 0 }).unwrap().id, 0);
    assert_eq!(terrain.global_to_texel(&Vector2I { x: 0, y: 1 }).unwrap().id, 2);
    assert_eq!(terrain.global_to_texel(&Vector2I { x: 1, y: 1 }).unwrap().id, 0);
    // the rest of the on-demand chunk stays empty
    assert_eq!(terrain.global_to_texel(&Vector2I { x: 10, y: 10 }).unwrap().id, 0);
}

#[test]
fn seed_spanning_several_chunks() {
    // 65 pixels wide: the last column lands in chunk (1, 0)
    let width = 65usize;
    let mut rgba: Vec<u8> = vec![0; width * 4];
    rgba[64 * 4] = 158;
    rgba[64 * 4 + 1] = 127;
    rgba[64 * 4 + 2] = 99;
    let terrain = gen_from_pixels(width, 1, &rgba);
    assert_eq!(terrain.chunk_count(), 2);
    assert_eq!(terrain.global_to_texel(&Vector2I { x: 64, y: 0 }).unwrap().id, 1);
    assert_eq!(terrain.global_to_texel(&Vector2I { x: 0, y: 0 }).unwrap().id, 0);
}
