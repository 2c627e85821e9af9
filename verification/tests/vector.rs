use mst_terrain::segment2i::Segment2I;
use mst_terrain::vector2i::Vector2I;

#[test]
fn componentwise_arithmetic() {
    let a = Vector2I { x: 3, y: -2 };
    let b = Vector2I { x: -1, y: 5 };
    assert_eq!(a.add(b), Vector2I { x: 2, y: 3 });
    assert_eq!(a.sub(b), Vector2I { x: 4, y: -7 });
    assert_eq!(a.neg(), Vector2I { x: -3, y: 2 });
    assert_eq!(a.mul(b), Vector2I { x: -3, y: -10 });
}

#[test]
fn segment_diff_is_the_displacement() {
    let s = Segment2I { from: Vector2I { x: 1, y: 2 }, to: Vector2I { x: 4, y: 0 } };
    assert_eq!(s.diff(), Vector2I { x: 3, y: -2 });
}
