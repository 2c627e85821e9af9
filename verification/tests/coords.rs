use mst_terrain::coords::{global_to_index, global_to_local, index_to_global, local_to_texel_index, texel_index_to_local};
use mst_terrain::math::{wrapping_quotient, wrapping_remainder};
use mst_terrain::vector2i::Vector2I;

#[test]
fn wrapping_quotient_values() {
    assert_eq!(wrapping_quotient(-1, 64), -1);
    assert_eq!(wrapping_quotient(-64, 64), -1);
    assert_eq!(wrapping_quotient(-65, 64), -2);
    assert_eq!(wrapping_quotient(0, 4), 0);
    assert_eq!(wrapping_quotient(-4, 4), -1);
    assert_eq!(wrapping_quotient(-5, 4), -2);
    assert_eq!(wrapping_quotient(63, 64), 0);
    assert_eq!(wrapping_quotient(64, 64), 1);
}

#[test]
fn wrapping_remainder_values() {
    assert_eq!(wrapping_remainder(-1, 64), 63);
    assert_eq!(wrapping_remainder(0, 4), 0);
    assert_eq!(wrapping_remainder(-4, 4), 0);
    assert_eq!(wrapping_remainder(-5, 4), 3);
    assert_eq!(wrapping_remainder(127, 64), 63);
    for d in [-129, -64, -1, 0, 1, 63, 64, 65, 1000] {
        let r = wrapping_remainder(d, 64);
        assert!(0 <= r && r < 64);
    }
}

#[test]
fn coordinate_round_trip() {
    // index_to_global(global_to_index(p)) + global_to_local(p) == p
    for p in [
        Vector2I { x: -1, y: -1 },
        Vector2I { x: 0, y: 0 },
        Vector2I { x: 63, y: 64 },
        Vector2I { x: -65, y: 129 },
        Vector2I { x: 1000, y: -1000 },
    ] {
        let origin = index_to_global(&global_to_index(&p));
        let local = global_to_local(&p);
        assert_eq!(origin.x + local.x, p.x);
        assert_eq!(origin.y + local.y, p.y);
    }
    // global_to_index(index_to_global(ci)) == ci
    for x in [-3, -1, 0, 1, 5] {
        let ci = Vector2I { x, y: 0 };
        let back = global_to_index(&index_to_global(&ci));
        assert_eq!(back, ci);
        assert_eq!(back.x, wrapping_quotient(x * 64, 64));
    }
}

#[test]
fn texel_index_bounds() {
    assert_eq!(local_to_texel_index(&Vector2I { x: 0, y: 0 }), Some(0));
    assert_eq!(local_to_texel_index(&Vector2I { x: 63, y: 63 }), Some(4095));
    assert_eq!(local_to_texel_index(&Vector2I { x: 5, y: 1 }), Some(69));
    assert_eq!(local_to_texel_index(&Vector2I { x: 64, y: 0 }), None);
    assert_eq!(local_to_texel_index(&Vector2I { x: 0, y: -1 }), None);
}

#[test]
fn texel_index_round_trip() {
    for i in [0usize, 1, 63, 64, 4095] {
        let local = texel_index_to_local(i);
        assert_eq!(local_to_texel_index(&local), Some(i));
    }
    assert_eq!(texel_index_to_local(69), Vector2I { x: 5, y: 1 });
}

#[test]
fn negative_coordinates_map_seamlessly() {
    let p = Vector2I { x: -1, y: -1 };
    assert_eq!(global_to_index(&p), Vector2I { x: -1, y: -1 });
    assert_eq!(global_to_local(&p), Vector2I { x: 63, y: 63 });
}
