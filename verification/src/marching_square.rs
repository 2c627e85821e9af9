//! Contour extraction: converts a chunk's occupancy into closed polygon
//! loops for collider generation. Only empty cells contribute boundary
//! segments, one lookup-table entry per 4-bit neighbour mask; segments are
//! stitched into islands by matching endpoints, islands shorter than four
//! segments are dropped, and runs of same-direction segments are merged
//! into single edges.

use vstd::prelude::*;
use vstd::multiset::Multiset;
use crate::chunk::{cell_id, cell_mask, mask_at, mask_bit, Chunk};
use crate::coords::{in_chunk_bounds, CHUNK_AREA};
use crate::segment2i::Segment2I;
use crate::texel::Texel;
use crate::vector2i::Vector2I;

verus! {

/// The unit segment from `(x1, y1)` to `(x2, y2)`.
pub open spec fn unit_seg(x1: int, y1: int, x2: int, y2: int) -> Segment2I {
    Segment2I {
        from: Vector2I { x: x1 as i32, y: y1 as i32 },
        to: Vector2I { x: x2 as i32, y: y2 as i32 },
    }
}

/// The boundary segments an empty cell at `(x, y)` contributes for a given
/// neighbour mask (up, right, down, left; least significant bit first; bit
/// set = that neighbour is solid). Segments wind clockwise around solid
/// area, in the cell's unit square with corners `(x, y)` and `(x+1, y+1)`.
pub open spec fn spec_case_segments(mask: u8, x: int, y: int) -> Seq<Segment2I> {
    if mask == 1 {
        seq![unit_seg(x + 1, y, x, y)]
    } else if mask == 2 {
        seq![unit_seg(x + 1, y + 1, x + 1, y)]
    } else if mask == 3 {
        seq![unit_seg(x + 1, y + 1, x, y)]
    } else if mask == 4 {
        seq![unit_seg(x, y + 1, x + 1, y + 1)]
    } else if mask == 5 {
        seq![unit_seg(x + 1, y, x, y), unit_seg(x, y + 1, x + 1, y + 1)]
    } else if mask == 6 {
        seq![unit_seg(x, y + 1, x + 1, y)]
    } else if mask == 7 {
        seq![unit_seg(x, y + 1, x, y)]
    } else if mask == 8 {
        seq![unit_seg(x, y, x, y + 1)]
    } else if mask == 9 {
        seq![unit_seg(x + 1, y, x, y + 1)]
    } else if mask == 10 {
        seq![unit_seg(x + 1, y + 1, x + 1, y), unit_seg(x, y, x, y + 1)]
    } else if mask == 11 {
        seq![unit_seg(x + 1, y + 1, x, y + 1)]
    } else if mask == 12 {
        seq![unit_seg(x, y, x + 1, y + 1)]
    } else if mask == 13 {
        seq![unit_seg(x + 1, y, x + 1, y + 1)]
    } else if mask == 14 {
        seq![unit_seg(x, y, x + 1, y)]
    } else {
        Seq::empty()
    }
}

/// Whether `s` is a segment that some empty cell of `t` contributes under
/// its stored neighbour mask.
pub open spec fn is_boundary_segment(t: Seq<Texel>, s: Segment2I) -> bool {
    exists|x: int, y: int|
        0 <= x < 64 && 0 <= y < 64 && cell_id(t, x, y) == 0 && #[trigger] spec_case_segments(
            cell_mask(t, x, y),
            x,
            y,
        ).contains(s)
}

/// Consecutive segments of an island are endpoint-connected.
pub open spec fn island_connected(s: Seq<Segment2I>) -> bool {
    forall|i: int| 0 <= i && i + 1 < s.len() ==> (#[trigger] s[i]).to == s[i + 1].from
}

/// Sign of an integer.
pub open spec fn sgn(a: int) -> int {
    if a > 0 {
        1
    } else if a < 0 {
        -1
    } else {
        0
    }
}

/// Whether two segments point the same way (componentwise equal direction
/// signs). On the unit grid segments of the case table this is exactly
/// equality of their angles.
pub open spec fn same_direction(a: Segment2I, b: Segment2I) -> bool {
    sgn(a.to.x - a.from.x) == sgn(b.to.x - b.from.x) && sgn(a.to.y - a.from.y) == sgn(
        b.to.y - b.from.y,
    )
}

/// Whether `p` is an endpoint of some boundary segment of `t`.
pub open spec fn boundary_endpoint(t: Seq<Texel>, p: Vector2I) -> bool {
    exists|s: Segment2I| #[trigger] is_boundary_segment(t, s) && (p == s.from || p == s.to)
}

/// Whether `p` is an endpoint of one of the island's segments.
pub open spec fn point_on_island(p: Vector2I, isl: Seq<Segment2I>) -> bool {
    exists|j: int| 0 <= j < isl.len() && (p == (#[trigger] isl[j]).from || p == isl[j].to)
}

/// Joining two connected chains whose ends meet yields a connected chain.
proof fn lemma_connected_concat(s1: Seq<Segment2I>, s2: Seq<Segment2I>)
    requires
        island_connected(s1),
        island_connected(s2),
        s1.len() >= 1,
        s2.len() >= 1,
        s1.last().to == s2[0].from,
    ensures
        island_connected(s1 + s2),
{
    let s = s1 + s2;
    assert forall|i: int| 0 <= i && i + 1 < s.len() implies (#[trigger] s[i]).to == s[i + 1].from by {
        if i + 1 < s1.len() {
            assert(s[i] == s1[i]);
            assert(s[i + 1] == s1[i + 1]);
        } else if i + 1 == s1.len() {
            assert(s[i] == s1.last());
            assert(s[i + 1] == s2[0]);
        } else {
            assert(s[i] == s2[i - s1.len()]);
            assert(s[i + 1] == s2[i + 1 - s1.len()]);
        }
    }
}

/// The table entry for a cell's mask, translated to the cell's position.
fn case_segments(mask: u8, local: Vector2I) -> (r: Vec<Segment2I>)
    requires
        mask < 16,
        in_chunk_bounds(local),
    ensures
        r@ == spec_case_segments(mask, local.x as int, local.y as int),
{
    let x = local.x;
    let y = local.y;
    let zero = Vector2I { x, y };
    let right = Vector2I { x: x + 1, y };
    let down = Vector2I { x, y: y + 1 };
    let one = Vector2I { x: x + 1, y: y + 1 };
    let ghost xi = x as int;
    let ghost yi = y as int;
    let r: Vec<Segment2I> = if mask == 1 {
        vec![Segment2I { from: right, to: zero }]
    } else if mask == 2 {
        vec![Segment2I { from: one, to: right }]
    } else if mask == 3 {
        vec![Segment2I { from: one, to: zero }]
    } else if mask == 4 {
        vec![Segment2I { from: down, to: one }]
    } else if mask == 5 {
        vec![Segment2I { from: right, to: zero }, Segment2I { from: down, to: one }]
    } else if mask == 6 {
        vec![Segment2I { from: down, to: right }]
    } else if mask == 7 {
        vec![Segment2I { from: down, to: zero }]
    } else if mask == 8 {
        vec![Segment2I { from: zero, to: down }]
    } else if mask == 9 {
        vec![Segment2I { from: right, to: down }]
    } else if mask == 10 {
        vec![Segment2I { from: one, to: right }, Segment2I { from: zero, to: down }]
    } else if mask == 11 {
        vec![Segment2I { from: one, to: down }]
    } else if mask == 12 {
        vec![Segment2I { from: zero, to: one }]
    } else if mask == 13 {
        vec![Segment2I { from: right, to: one }]
    } else if mask == 14 {
        vec![Segment2I { from: zero, to: right }]
    } else {
        Vec::new()
    };
    proof {
        assert(r@ =~= spec_case_segments(mask, xi, yi));
    }
    r
}

/// The boundary segments one cell contributes: the translated table entry
/// of an empty cell's mask, nothing for a solid cell.
pub open spec fn cell_segments(t: Seq<Texel>, i: int) -> Seq<Segment2I> {
    if cell_id(t, i % 64, i / 64) == 0 {
        spec_case_segments(cell_mask(t, i % 64, i / 64), i % 64, i / 64)
    } else {
        Seq::empty()
    }
}

/// The boundary segments of the first `n` cells, in scan order.
pub open spec fn segments_upto(t: Seq<Texel>, n: int) -> Seq<Segment2I>
    decreases n,
{
    if n <= 0 {
        Seq::empty()
    } else {
        segments_upto(t, n - 1) + cell_segments(t, n - 1)
    }
}

/// Every segment held by a set of islands, with multiplicity.
pub open spec fn islands_segments(isl: Seq<Vec<Segment2I>>) -> Multiset<Segment2I>
    decreases isl.len(),
{
    if isl.len() == 0 {
        Multiset::empty()
    } else {
        islands_segments(isl.drop_last()).add(isl.last()@.to_multiset())
    }
}

proof fn lemma_to_multiset_concat(a: Seq<Segment2I>, b: Seq<Segment2I>)
    ensures
        (a + b).to_multiset() == a.to_multiset().add(b.to_multiset()),
    decreases b.len(),
{
    a.to_multiset_ensures();
    b.to_multiset_ensures();
    if b.len() == 0 {
        assert(a + b =~= a);
        assert(b.to_multiset() =~= Multiset::<Segment2I>::empty()) by {
            assert forall|x: Segment2I| b.to_multiset().count(x) == 0 by {
                assert(!b.contains(x));
            }
        }
        assert((a + b).to_multiset() =~= a.to_multiset().add(b.to_multiset()));
    } else {
        lemma_to_multiset_concat(a, b.drop_last());
        (a + b.drop_last()).to_multiset_ensures();
        b.drop_last().to_multiset_ensures();
        assert(a + b =~= (a + b.drop_last()).push(b.last()));
        assert(b =~= b.drop_last().push(b.last()));
        assert((a + b).to_multiset() =~= a.to_multiset().add(b.to_multiset()));
    }
}

proof fn lemma_to_multiset_empty(s: Seq<Segment2I>)
    requires
        s.len() == 0,
    ensures
        s.to_multiset() == Multiset::<Segment2I>::empty(),
{
    s.to_multiset_ensures();
    assert forall|x: Segment2I| s.to_multiset().count(x) == 0 by {
        assert(!s.contains(x));
    }
    assert(s.to_multiset() =~= Multiset::<Segment2I>::empty());
}

proof fn lemma_islands_segments_remove(isl: Seq<Vec<Segment2I>>, k: int)
    requires
        0 <= k < isl.len(),
    ensures
        islands_segments(isl.remove(k)).add(isl[k]@.to_multiset()) == islands_segments(isl),
    decreases isl.len(),
{
    if k == isl.len() - 1 {
        assert(isl.remove(k) =~= isl.drop_last());
        assert(islands_segments(isl.remove(k)).add(isl[k]@.to_multiset()) =~= islands_segments(
            isl,
        ));
    } else {
        lemma_islands_segments_remove(isl.drop_last(), k);
        assert(isl.remove(k).drop_last() =~= isl.drop_last().remove(k));
        assert(isl.remove(k).last() == isl.last());
        assert(islands_segments(isl.remove(k)).add(isl[k]@.to_multiset()) =~= islands_segments(
            isl,
        ));
    }
}

proof fn lemma_islands_segments_insert(isl: Seq<Vec<Segment2I>>, k: int, v: Vec<Segment2I>)
    requires
        0 <= k <= isl.len(),
    ensures
        islands_segments(isl.insert(k, v)) == islands_segments(isl).add(v@.to_multiset()),
    decreases isl.len(),
{
    if k == isl.len() {
        assert(isl.insert(k, v).drop_last() =~= isl);
        assert(isl.insert(k, v).last() == v);
    } else {
        lemma_islands_segments_insert(isl.drop_last(), k, v);
        assert(isl.insert(k, v).drop_last() =~= isl.drop_last().insert(k, v));
        assert(isl.insert(k, v).last() == isl.last());
        assert(islands_segments(isl.insert(k, v)) =~= islands_segments(isl).add(
            v@.to_multiset(),
        ));
    }
}

/// The islands as plain sequences.
pub open spec fn islands_view(isl: Seq<Vec<Segment2I>>) -> Seq<Seq<Segment2I>> {
    isl.map_values(|v: Vec<Segment2I>| v@)
}

/// Index of the first island whose end meets the segment's start (the
/// count if none does).
pub open spec fn attach_index(isl: Seq<Seq<Segment2I>>, side: Segment2I) -> int
    decreases isl.len(),
{
    if isl.len() == 0 {
        0
    } else if isl[0].len() > 0 && isl[0].last().to == side.from {
        0
    } else {
        1 + attach_index(isl.drop_first(), side)
    }
}

proof fn lemma_attach_index(isl: Seq<Seq<Segment2I>>, side: Segment2I)
    ensures
        0 <= attach_index(isl, side) <= isl.len(),
        forall|j: int|
            0 <= j < attach_index(isl, side) ==> !((#[trigger] isl[j]).len() > 0 && isl[j].last().to
                == side.from),
        attach_index(isl, side) < isl.len() ==> isl[attach_index(isl, side)].len() > 0
            && isl[attach_index(isl, side)].last().to == side.from,
    decreases isl.len(),
{
    if isl.len() == 0 {
    } else if isl[0].len() > 0 && isl[0].last().to == side.from {
    } else {
        lemma_attach_index(isl.drop_first(), side);
        assert forall|j: int|
            0 <= j < attach_index(isl, side) implies !((#[trigger] isl[j]).len() > 0
            && isl[j].last().to == side.from) by {
            if j > 0 {
                assert(isl[j] == isl.drop_first()[j - 1]);
            }
        }
    }
}

/// One segment joins the assembly: it extends the first island whose end
/// meets its start, or starts a new island.
pub open spec fn spec_attach(isl: Seq<Seq<Segment2I>>, side: Segment2I) -> Seq<Seq<Segment2I>> {
    let k = attach_index(isl, side);
    if k < isl.len() {
        isl.update(k, isl[k].push(side))
    } else {
        isl.push(seq![side])
    }
}

/// First island after `b - 1` whose start meets the end of island `a` (the
/// count if none does).
pub open spec fn merge_b_from(isl: Seq<Seq<Segment2I>>, a: int, b: int) -> int
    decreases isl.len() - b,
{
    if b < 0 || b >= isl.len() {
        isl.len() as int
    } else if b != a && isl[a].len() > 0 && isl[b].len() > 0 && isl[a].last().to == isl[b][0].from {
        b
    } else {
        merge_b_from(isl, a, b + 1)
    }
}

/// The first pair of islands whose ends meet, scanning targets in order
/// and, for each, every possible dependent ((count, count) if none).
pub open spec fn merge_pair_from(isl: Seq<Seq<Segment2I>>, a: int) -> (int, int)
    decreases isl.len() - a,
{
    if a < 0 || a >= isl.len() {
        (isl.len() as int, isl.len() as int)
    } else {
        let b = merge_b_from(isl, a, 0);
        if b < isl.len() {
            (a, b)
        } else {
            merge_pair_from(isl, a + 1)
        }
    }
}

/// One merge round: the first pair of islands whose ends meet is spliced
/// into one (the dependent appended to the target), if any pair exists.
pub open spec fn spec_merge(isl: Seq<Seq<Segment2I>>) -> Seq<Seq<Segment2I>> {
    let p = merge_pair_from(isl, 0);
    if p.0 < isl.len() {
        let src = isl[p.1];
        let removed = isl.remove(p.1);
        let dst = if p.0 > p.1 {
            p.0 - 1
        } else {
            p.0
        };
        removed.update(dst, removed[dst] + src)
    } else {
        isl
    }
}

/// One assembly step: attach the segment, then splice once.
pub open spec fn spec_assemble_step(isl: Seq<Seq<Segment2I>>, side: Segment2I) -> Seq<
    Seq<Segment2I>,
> {
    spec_merge(spec_attach(isl, side))
}

/// Folding a cell's segments into the assembly, in table order.
pub open spec fn assemble_sides(isl: Seq<Seq<Segment2I>>, sides: Seq<Segment2I>) -> Seq<
    Seq<Segment2I>,
>
    decreases sides.len(),
{
    if sides.len() == 0 {
        isl
    } else {
        spec_assemble_step(assemble_sides(isl, sides.drop_last()), sides.last())
    }
}

/// The islands after the first `n` cells of the scan.
pub open spec fn assembled_islands(t: Seq<Texel>, n: int) -> Seq<Seq<Segment2I>>
    decreases n,
{
    if n <= 0 {
        Seq::empty()
    } else {
        assemble_sides(assembled_islands(t, n - 1), cell_segments(t, n - 1))
    }
}

/// The islands that survive the degeneracy filter, in order.
pub open spec fn big_islands(isl: Seq<Seq<Segment2I>>) -> Seq<Seq<Segment2I>>
    decreases isl.len(),
{
    if isl.len() == 0 {
        Seq::empty()
    } else {
        let rest = big_islands(isl.drop_last());
        if isl.last().len() >= 4 {
            rest.push(isl.last())
        } else {
            rest
        }
    }
}

/// The corner points of the first `i` segments of an island: the chain's
/// start, then each segment's end, where a segment pointing the same way as
/// its predecessor moves the previous corner instead of adding one.
pub open spec fn merged_points_upto(island: Seq<Segment2I>, i: int) -> Seq<Vector2I>
    decreases i,
{
    if i <= 0 {
        seq![island[0].from]
    } else {
        let pts = merged_points_upto(island, i - 1);
        if i >= 2 && same_direction(island[i - 2], island[i - 1]) {
            pts.update(pts.len() - 1, island[i - 1].to)
        } else {
            pts.push(island[i - 1].to)
        }
    }
}

/// The finished point list of an island: the merged corners and, when the
/// chain closed inside a straight run, the loop re-closed at the next
/// corner.
pub open spec fn spec_finalize(island: Seq<Segment2I>) -> Seq<Vector2I> {
    let pts = merged_points_upto(island, island.len() as int);
    if pts.len() >= 3 && pts[0] == pts[pts.len() - 1] && same_direction(
        Segment2I { from: pts[pts.len() - 2], to: pts[pts.len() - 1] },
        Segment2I { from: pts[0], to: pts[1] },
    ) {
        let dropped = pts.drop_first();
        dropped.update(dropped.len() - 1, dropped[0])
    } else {
        pts
    }
}

/// Assembly invariant: every island is a non-empty endpoint-connected chain
/// of boundary segments of `t`.
pub open spec fn islands_wf(isl: Seq<Vec<Segment2I>>, t: Seq<Texel>) -> bool {
    &&& forall|k: int| 0 <= k < isl.len() ==> (#[trigger] isl[k])@.len() >= 1
    &&& forall|k: int| 0 <= k < isl.len() ==> island_connected((#[trigger] isl[k])@)
    &&& forall|k: int, m: int|
        0 <= k < isl.len() && 0 <= m < isl[k]@.len() ==> is_boundary_segment(
            t,
            #[trigger] isl[k]@[m],
        )
}

/// Appends the segment to the first island whose end meets its start, or
/// starts a new island.
#[verifier::loop_isolation(false)]
#[verifier::rlimit(80)]
fn attach_segment(islands: &mut Vec<Vec<Segment2I>>, side: Segment2I, Ghost(t): Ghost<Seq<Texel>>)
    requires
        islands_wf(old(islands)@, t),
        is_boundary_segment(t, side),
    ensures
        islands_wf(final(islands)@, t),
        final(islands)@.len() >= 1,
        islands_segments(final(islands)@) == islands_segments(old(islands)@).insert(side),
        islands_view(final(islands)@) == spec_attach(islands_view(old(islands)@), side),
{
    let ghost isl0 = islands@;
    let ghost v0 = islands_view(isl0);
    let n = islands.len();
    let mut k: usize = 0;
    while k < n && islands[k][islands[k].len() - 1].to != side.from
        invariant
            k <= n,
            forall|j: int|
                0 <= j < k ==> !((#[trigger] v0[j]).len() > 0 && v0[j].last().to == side.from),
        decreases n - k,
    {
        proof {
            assert(v0[k as int] == isl0[k as int]@);
        }
        k = k + 1;
    }
    proof {
        lemma_attach_index(v0, side);
        if k < n {
            assert(v0[k as int] == isl0[k as int]@);
            let ai = attach_index(v0, side);
            if ai < k {
                assert(v0[ai].len() > 0 && v0[ai].last().to == side.from);
            } else if (k as int) < ai {
                assert(!(v0[k as int].len() > 0 && v0[k as int].last().to == side.from));
            }
            assert(k as int == attach_index(v0, side));
        } else {
            if attach_index(v0, side) < v0.len() {
                assert(v0[attach_index(v0, side)].len() > 0 && v0[attach_index(
                    v0,
                    side,
                )].last().to == side.from);
            }
            assert(attach_index(v0, side) == v0.len());
        }
    }
    if k < n {
        let mut isl = islands.remove(k);
        let ghost pre = isl@;
        isl.push(side);
        proof {
            assert(island_connected(isl@)) by {
                assert(pre.last().to == side.from);
                assert(forall|q: int|
                    0 <= q && q + 1 < pre.len() ==> (#[trigger] pre[q]).to == pre[q + 1].from);
            }
        }
        islands.insert(k, isl);
        proof {
            lemma_islands_segments_remove(isl0, k as int);
            lemma_islands_segments_insert(isl0.remove(k as int), k as int, isl);
            pre.to_multiset_ensures();
            assert(isl@ == pre.push(side));
            assert(islands_segments(islands@) =~= islands_segments(isl0).insert(side));
            assert(islands_view(islands@) =~= v0.update(k as int, v0[k as int].push(side)));
        }
    } else {
        let mut isl: Vec<Segment2I> = Vec::new();
        isl.push(side);
        islands.push(isl);
        proof {
            assert(islands@ =~= isl0.insert(isl0.len() as int, isl));
            lemma_islands_segments_insert(isl0, isl0.len() as int, isl);
            assert(isl@ =~= Seq::<Segment2I>::empty().push(side));
            Seq::<Segment2I>::empty().to_multiset_ensures();
            lemma_to_multiset_empty(Seq::<Segment2I>::empty());
            assert(islands_segments(islands@) =~= islands_segments(isl0).insert(side));
            assert(isl@ =~= seq![side]);
            assert(islands_view(islands@) =~= v0.push(seq![side]));
        }
    }
}

/// First island after `b - 1` whose start meets the end of island `a`.
#[verifier::loop_isolation(false)]
fn find_merge_b(islands: &Vec<Vec<Segment2I>>, a: usize) -> (r: usize)
    requires
        a < islands@.len(),
        forall|k: int| 0 <= k < islands@.len() ==> (#[trigger] islands@[k])@.len() >= 1,
    ensures
        r as int == merge_b_from(islands_view(islands@), a as int, 0),
        r <= islands@.len(),
{
    let ghost v = islands_view(islands@);
    let n = islands.len();
    let mut b: usize = 0;
    while b < n
        invariant
            b <= n,
            merge_b_from(v, a as int, 0) == merge_b_from(v, a as int, b as int),
        decreases n - b,
    {
        proof {
            assert(v[a as int] == islands@[a as int]@);
            assert(v[b as int] == islands@[b as int]@);
        }
        if b != a && islands[a][islands[a].len() - 1].to == islands[b][0].from {
            proof {
                assert(merge_b_from(v, a as int, b as int) == b);
            }
            return b;
        }
        b = b + 1;
    }
    proof {
        assert(merge_b_from(v, a as int, n as int) == n);
    }
    n
}

/// The first pair of islands whose ends meet, in scan order (both
/// components equal to the island count when no pair exists).
#[verifier::loop_isolation(false)]
fn find_merge_pair(islands: &Vec<Vec<Segment2I>>) -> (r: (usize, usize))
    requires
        forall|k: int| 0 <= k < islands@.len() ==> (#[trigger] islands@[k])@.len() >= 1,
    ensures
        r.0 as int == merge_pair_from(islands_view(islands@), 0).0,
        r.1 as int == merge_pair_from(islands_view(islands@), 0).1,
        r.0 <= islands@.len(),
        r.1 <= islands@.len(),
{
    let ghost v = islands_view(islands@);
    let n = islands.len();
    let mut a: usize = 0;
    while a < n
        invariant
            a <= n,
            merge_pair_from(v, 0) == merge_pair_from(v, a as int),
        decreases n - a,
    {
        let b = find_merge_b(islands, a);
        if b < n {
            proof {
                assert(merge_pair_from(v, a as int) == (a as int, b as int));
            }
            return (a, b);
        }
        a = a + 1;
    }
    proof {
        assert(merge_pair_from(v, n as int) == (n as int, n as int));
    }
    (n, n)
}

/// Splices the first pair of islands whose ends meet, if any.
#[verifier::loop_isolation(false)]
#[verifier::rlimit(80)]
fn merge_islands_once(islands: &mut Vec<Vec<Segment2I>>, Ghost(t): Ghost<Seq<Texel>>)
    requires
        islands_wf(old(islands)@, t),
    ensures
        islands_wf(final(islands)@, t),
        final(islands)@.len() >= 1 || old(islands)@.len() == 0,
        islands_segments(final(islands)@) == islands_segments(old(islands)@),
        islands_view(final(islands)@) == spec_merge(islands_view(old(islands)@)),
{
    let ghost isl0 = islands@;
    let ghost v0 = islands_view(isl0);
    let p = find_merge_pair(islands);
    let ma = p.0;
    let mb = p.1;
    if ma < islands.len() {
        proof {
            lemma_merge_pair_found(v0, 0);
            assert(v0[ma as int] == isl0[ma as int]@);
            assert(v0[mb as int] == isl0[mb as int]@);
            assert(ma != mb && isl0[ma as int]@.len() > 0 && isl0[mb as int]@.len() > 0
                && isl0[ma as int]@.last().to == isl0[mb as int]@[0].from);
        }
        let src = islands.remove(mb);
        let dst = if ma > mb {
            ma - 1
        } else {
            ma
        };
        let ghost isl1 = islands@;
        let mut target = islands.remove(dst);
        let ghost t_before = target@;
        let mut q: usize = 0;
        while q < src.len()
            invariant
                q <= src@.len(),
                target@ == t_before + src@.take(q as int),
            decreases src.len() - q,
        {
            target.push(src[q]);
            proof {
                assert(target@ =~= t_before + src@.take(q + 1));
            }
            q = q + 1;
        }
        proof {
            assert(src@.take(src@.len() as int) =~= src@);
            lemma_connected_concat(t_before, src@);
        }
        islands.insert(dst, target);
        proof {
            lemma_islands_segments_remove(isl0, mb as int);
            lemma_islands_segments_remove(isl1, dst as int);
            lemma_islands_segments_insert(isl1.remove(dst as int), dst as int, target);
            lemma_to_multiset_concat(t_before, src@);
            assert(islands_segments(islands@) =~= islands_segments(isl0));
            assert(islands_view(isl1) =~= v0.remove(mb as int));
            assert(t_before == v0.remove(mb as int)[dst as int]);
            assert(islands_view(islands@) =~= v0.remove(mb as int).update(
                dst as int,
                v0.remove(mb as int)[dst as int] + v0[mb as int],
            ));
        }
    }
}

/// When the pair search finds a pair, it really links two distinct
/// non-empty islands.
proof fn lemma_merge_pair_found(isl: Seq<Seq<Segment2I>>, a: int)
    requires
        0 <= a,
        merge_pair_from(isl, a).0 < isl.len(),
    ensures
        ({
            let p = merge_pair_from(isl, a);
            &&& a <= p.0 < isl.len()
            &&& 0 <= p.1 < isl.len()
            &&& p.0 != p.1
            &&& isl[p.0].len() > 0
            &&& isl[p.1].len() > 0
            &&& isl[p.0].last().to == isl[p.1][0].from
        }),
    decreases isl.len() - a,
{
    if a < isl.len() {
        let b = merge_b_from(isl, a, 0);
        if b < isl.len() {
            lemma_merge_b_found(isl, a, 0);
        } else {
            lemma_merge_pair_found(isl, a + 1);
        }
    }
}

proof fn lemma_merge_b_found(isl: Seq<Seq<Segment2I>>, a: int, b: int)
    requires
        0 <= b,
        merge_b_from(isl, a, b) < isl.len(),
    ensures
        ({
            let r = merge_b_from(isl, a, b);
            &&& b <= r < isl.len()
            &&& r != a
            &&& isl[a].len() > 0
            &&& isl[r].len() > 0
            &&& isl[a].last().to == isl[r][0].from
        }),
    decreases isl.len() - b,
{
    if b < isl.len() {
        if !(b != a && isl[a].len() > 0 && isl[b].len() > 0 && isl[a].last().to == isl[b][0].from) {
            lemma_merge_b_found(isl, a, b + 1);
        }
    }
}

/// Stitches the boundary segments of all empty cells into islands: a
/// segment extends the first island whose end meets its start, otherwise it
/// starts a new island; after each insertion, the first pair of islands
/// whose ends meet is spliced into one. Every produced island is a
/// non-empty, endpoint-connected chain of boundary segments of the chunk,
/// and an all-empty chunk produces no islands.
#[verifier::loop_isolation(false)]
pub fn extract_islands(chunk: &Chunk) -> (r: Vec<Vec<Segment2I>>)
    requires
        chunk.wf(),
    ensures
        forall|k: int| 0 <= k < r@.len() ==> (#[trigger] r@[k])@.len() >= 1,
        forall|k: int| 0 <= k < r@.len() ==> island_connected((#[trigger] r@[k])@),
        forall|k: int, m: int|
            0 <= k < r@.len() && 0 <= m < r@[k]@.len() ==> is_boundary_segment(
                chunk@.texels,
                #[trigger] r@[k]@[m],
            ),
        (forall|j: int| 0 <= j < 4096 ==> (#[trigger] chunk@.texels[j]).id == 0) ==> r@.len()
            == 0,
        islands_segments(r@) == segments_upto(chunk@.texels, 4096).to_multiset(),
        islands_view(r@) == assembled_islands(chunk@.texels, 4096),
{
    let ghost t = chunk@.texels;
    let mut islands: Vec<Vec<Segment2I>> = Vec::new();
    proof {
        lemma_to_multiset_empty(segments_upto(t, 0));
        assert(islands_segments(islands@) =~= segments_upto(t, 0).to_multiset());
        assert(islands_view(islands@) =~= assembled_islands(t, 0));
    }
    let mut i: usize = 0;
    while i < CHUNK_AREA
        invariant
            i <= 4096,
            islands_wf(islands@, t),
            (forall|j: int| 0 <= j < 4096 ==> (#[trigger] t[j]).id == 0) ==> islands@.len() == 0,
            islands_segments(islands@) == segments_upto(t, i as int).to_multiset(),
            islands_view(islands@) == assembled_islands(t, i as int),
        decreases CHUNK_AREA - i,
    {
        let local = crate::coords::texel_index_to_local(i);
        let ghost x = local.x as int;
        let ghost y = local.y as int;
        let texel = chunk.texel_at(i);
        proof {
            assert(texel == t[y * 64 + x]);
            assert(cell_mask(t, x, y) == mask_at(t, x, y));
            assert(mask_at(t, x, y) < 16) by {
                assert(0 <= mask_bit(t, x, y, 0) <= 1);
                assert(0 <= mask_bit(t, x, y, 1) <= 1);
                assert(0 <= mask_bit(t, x, y, 2) <= 1);
                assert(0 <= mask_bit(t, x, y, 3) <= 1);
            }
        }
        if texel.id == 0 && texel.neighbour_mask != 0 {
            proof {
                assert(!(forall|j: int| 0 <= j < 4096 ==> (#[trigger] t[j]).id == 0)) by {
                    if forall|j: int| 0 <= j < 4096 ==> (#[trigger] t[j]).id == 0 {
                        assert(mask_bit(t, x, y, 0) == 0) by {
                            if 0 <= y - 1 {
                                assert(t[(y - 1) * 64 + x].id == 0);
                            }
                        }
                        assert(mask_bit(t, x, y, 1) == 0) by {
                            if x + 1 < 64 {
                                assert(t[y * 64 + x + 1].id == 0);
                            }
                        }
                        assert(mask_bit(t, x, y, 2) == 0) by {
                            if y + 1 < 64 {
                                assert(t[(y + 1) * 64 + x].id == 0);
                            }
                        }
                        assert(mask_bit(t, x, y, 3) == 0) by {
                            if 0 <= x - 1 {
                                assert(t[y * 64 + x - 1].id == 0);
                            }
                        }
                    }
                }
            }
            let sides = case_segments(texel.neighbour_mask, local);
            let mut si: usize = 0;
            proof {
                lemma_to_multiset_empty(sides@.take(0));
                assert(islands_segments(islands@) =~= segments_upto(t, i as int).to_multiset().add(
                    sides@.take(0).to_multiset(),
                ));
                assert(sides@.take(0) =~= Seq::<Segment2I>::empty());
                assert(islands_view(islands@) == assemble_sides(
                    assembled_islands(t, i as int),
                    sides@.take(0),
                ));
            }
            while si < sides.len()
                invariant
                    islands_wf(islands@, t),
                    islands@.len() >= 1 || si == 0,
                    si <= sides@.len(),
                    islands_segments(islands@) == segments_upto(t, i as int).to_multiset().add(
                        sides@.take(si as int).to_multiset(),
                    ),
                    islands_view(islands@) == assemble_sides(
                        assembled_islands(t, i as int),
                        sides@.take(si as int),
                    ),
                decreases sides.len() - si,
            {
                let side = sides[si];
                proof {
                    assert(spec_case_segments(cell_mask(t, x, y), x, y).contains(side)) by {
                        assert(sides@[si as int] == side);
                    }
                    assert(is_boundary_segment(t, side));
                }
                attach_segment(&mut islands, side, Ghost(t));
                merge_islands_once(&mut islands, Ghost(t));
                proof {
                    sides@.take(si as int).to_multiset_ensures();
                    assert(sides@.take(si + 1) =~= sides@.take(si as int).push(side));
                    assert(islands_segments(islands@) =~= segments_upto(
                        t,
                        i as int,
                    ).to_multiset().add(sides@.take(si + 1).to_multiset()));
                    let pre = sides@.take(si + 1);
                    let base = assembled_islands(t, i as int);
                    assert(pre.drop_last() =~= sides@.take(si as int));
                    assert(pre.last() == side);
                    assert(assemble_sides(base, pre) == spec_assemble_step(
                        assemble_sides(base, sides@.take(si as int)),
                        side,
                    ));
                    assert(islands_view(islands@) == assemble_sides(base, pre));
                }
                si = si + 1;
            }
            proof {
                assert(sides@.take(sides@.len() as int) =~= sides@);
                assert(cell_segments(t, i as int) == sides@);
                lemma_to_multiset_concat(segments_upto(t, i as int), cell_segments(t, i as int));
                assert(segments_upto(t, i + 1) == segments_upto(t, i as int) + cell_segments(
                    t,
                    i as int,
                ));
                assert(islands_segments(islands@) =~= segments_upto(t, i + 1).to_multiset());
                assert(islands_view(islands@) == assembled_islands(t, i + 1));
            }
        } else {
            proof {
                assert(cell_segments(t, i as int) == Seq::<Segment2I>::empty()) by {
                    if texel.id == 0 {
                        assert(cell_mask(t, x, y) == 0);
                    }
                }
                lemma_to_multiset_empty(cell_segments(t, i as int));
                lemma_to_multiset_concat(segments_upto(t, i as int), cell_segments(t, i as int));
                assert(segments_upto(t, i + 1) == segments_upto(t, i as int) + cell_segments(
                    t,
                    i as int,
                ));
                assert(islands_segments(islands@) =~= segments_upto(t, i + 1).to_multiset());
                assert(islands_view(islands@) == assembled_islands(t, i + 1));
            }
        }
        i = i + 1;
    }
    islands
}

/// The loops as plain sequences.
pub open spec fn loops_view(r: Seq<Vec<Vector2I>>) -> Seq<Seq<Vector2I>> {
    r.map_values(|p: Vec<Vector2I>| p@)
}

/// The finished point list of every island, in order.
pub open spec fn finalized(isl: Seq<Seq<Segment2I>>) -> Seq<Seq<Vector2I>>
    decreases isl.len(),
{
    if isl.len() == 0 {
        Seq::empty()
    } else {
        finalized(isl.drop_last()).push(spec_finalize(isl.last()))
    }
}

proof fn lemma_finalized_push(b: Seq<Seq<Segment2I>>, x: Seq<Segment2I>)
    ensures
        finalized(b.push(x)) == finalized(b).push(spec_finalize(x)),
{
    assert(b.push(x).drop_last() =~= b);
}

proof fn lemma_loops_view_push(r: Seq<Vec<Vector2I>>, p: Vec<Vector2I>)
    ensures
        loops_view(r.push(p)) == loops_view(r).push(p@),
{
    assert(loops_view(r.push(p)) =~= loops_view(r).push(p@));
}

proof fn lemma_big_islands_step(v: Seq<Seq<Segment2I>>, k: int)
    requires
        0 <= k < v.len(),
    ensures
        v[k].len() >= 4 ==> big_islands(v.take(k + 1)) == big_islands(v.take(k)).push(v[k]),
        v[k].len() < 4 ==> big_islands(v.take(k + 1)) == big_islands(v.take(k)),
{
    assert(v.take(k + 1).drop_last() =~= v.take(k));
    assert(v.take(k + 1).last() == v[k]);
}

/// Direction signs of a segment, computed without arithmetic on the
/// coordinates.
fn seg_direction(s: &Segment2I) -> (r: (i32, i32))
    ensures
        r.0 == sgn(s.to.x - s.from.x),
        r.1 == sgn(s.to.y - s.from.y),
{
    let dx: i32 = if s.to.x > s.from.x {
        1
    } else if s.to.x < s.from.x {
        -1
    } else {
        0
    };
    let dy: i32 = if s.to.y > s.from.y {
        1
    } else if s.to.y < s.from.y {
        -1
    } else {
        0
    };
    (dx, dy)
}

/// Converts one island into its list of corner points: the chain's start,
/// then the end of every segment, with runs of same-direction segments
/// merged into a single edge (on a closed chain, also across the seam where
/// the chain closes). A closed island yields a loop whose last point equals
/// its first; an open chain keeps its two ends.
pub fn finalize_island(island: &Vec<Segment2I>) -> (r: Vec<Vector2I>)
    requires
        island@.len() >= 1,
    ensures
        r@.len() >= 2,
        forall|m: int| 0 <= m < r@.len() ==> point_on_island(#[trigger] r@[m], island@),
        island@[island@.len() - 1].to == island@[0].from ==> r@[0] == r@[r@.len() - 1],
        island@[island@.len() - 1].to != island@[0].from ==> r@[0] == island@[0].from
            && r@[r@.len() - 1] == island@[island@.len() - 1].to,
        r@ == spec_finalize(island@),
{
    let mut points: Vec<Vector2I> = Vec::new();
    points.push(island[0].from);
    proof {
        assert(point_on_island(points@[0], island@)) by {
            assert(points@[0] == island@[0].from);
        }
        assert(points@ =~= merged_points_upto(island@, 0));
    }
    let mut prev: Segment2I = island[0];
    let mut have_prev = false;
    let mut i: usize = 0;
    #[verifier::loop_isolation(false)]
    while i < island.len()
        invariant
            i <= island@.len(),
            points@.len() >= 1,
            i >= 1 ==> points@.len() >= 2,
            points@[0] == island@[0].from,
            i >= 1 ==> points@[points@.len() - 1] == island@[i - 1].to,
            forall|m: int| 0 <= m < points@.len() ==> point_on_island(#[trigger] points@[m], island@),
            have_prev <==> i >= 1,
            have_prev ==> prev == island@[i - 1],
            points@ == merged_points_upto(island@, i as int),
        decreases island@.len() - i,
    {
        let side = island[i];
        let ghost pts_pre = points@;
        let mut merged = false;
        if have_prev {
            let d1 = seg_direction(&prev);
            let d2 = seg_direction(&side);
            if d1.0 == d2.0 && d1.1 == d2.1 {
                let last = points.len() - 1;
                points.set(last, side.to);
                merged = true;
            }
            proof {
                assert((d1.0 == d2.0 && d1.1 == d2.1) == same_direction(
                    island@[i - 1],
                    island@[i as int],
                ));
            }
        }
        if !merged {
            points.push(side.to);
        }
        proof {
            let m = points@.len() - 1;
            assert(points@[m] == island@[i as int].to);
            assert(point_on_island(points@[m], island@)) by {
                assert(0 <= i < island@.len() && points@[m] == island@[i as int].to);
            }
            assert(points@ == merged_points_upto(island@, i + 1)) by {
                assert(merged_points_upto(island@, i + 1) == (if i + 1 >= 2 && same_direction(
                    island@[i - 1],
                    island@[i as int],
                ) {
                    pts_pre.update(pts_pre.len() - 1, island@[i as int].to)
                } else {
                    pts_pre.push(island@[i as int].to)
                }));
            }
        }
        prev = side;
        have_prev = true;
        i = i + 1;
    }
    let ghost raw = merged_points_upto(island@, island@.len() as int);
    proof {
        assert(points@ == raw);
    }
    let mut seam = false;
    if points.len() >= 3 && points[0] == points[points.len() - 1] {
        let d_in = seg_direction(
            &Segment2I { from: points[points.len() - 2], to: points[points.len() - 1] },
        );
        let d_out = seg_direction(&Segment2I { from: points[0], to: points[1] });
        if d_in.0 == d_out.0 && d_in.1 == d_out.1 {
            // the closing point sits inside a straight run: re-close the
            // loop at the next corner instead
            proof {
                assert(same_direction(
                    Segment2I { from: raw[raw.len() - 2], to: raw[raw.len() - 1] },
                    Segment2I { from: raw[0], to: raw[1] },
                ));
            }
            points.remove(0);
            let last = points.len() - 1;
            let new_first = points[0];
            points.set(last, new_first);
            seam = true;
            proof {
                assert forall|m: int| 0 <= m < points@.len() implies point_on_island(
                    #[trigger] points@[m],
                    island@,
                ) by {}
                assert(points@ =~= raw.drop_first().update(
                    raw.drop_first().len() - 1,
                    raw.drop_first()[0],
                ));
            }
        }
    }
    proof {
        if !seam {
            assert(!(raw.len() >= 3 && raw[0] == raw[raw.len() - 1] && same_direction(
                Segment2I { from: raw[raw.len() - 2], to: raw[raw.len() - 1] },
                Segment2I { from: raw[0], to: raw[1] },
            )));
        }
        assert(points@ == spec_finalize(island@));
    }
    points
}

/// Runs contour extraction on a chunk: islands shorter than four segments
/// are dropped as degenerate, the rest become corner-point loops. Every
/// returned point is an endpoint of a boundary segment of the chunk, and an
/// all-empty chunk produces no contours.
#[verifier::loop_isolation(false)]
#[verifier::rlimit(80)]
pub fn calculate_collisions(chunk: &Chunk) -> (r: Vec<Vec<Vector2I>>)
    requires
        chunk.wf(),
    ensures
        forall|k: int| 0 <= k < r@.len() ==> (#[trigger] r@[k])@.len() >= 2,
        forall|k: int, m: int|
            0 <= k < r@.len() && 0 <= m < r@[k]@.len() ==> boundary_endpoint(
                chunk@.texels,
                #[trigger] r@[k]@[m],
            ),
        (forall|j: int| 0 <= j < 4096 ==> (#[trigger] chunk@.texels[j]).id == 0) ==> r@.len()
            == 0,
        loops_view(r@) == finalized(big_islands(assembled_islands(chunk@.texels, 4096))),
{
    let islands = extract_islands(chunk);
    let ghost v = islands_view(islands@);
    let mut result: Vec<Vec<Vector2I>> = Vec::new();
    proof {
        assert(v.take(0) =~= Seq::<Seq<Segment2I>>::empty());
        assert(loops_view(result@) =~= finalized(big_islands(v.take(0))));
    }
    let mut k: usize = 0;
    while k < islands.len()
        invariant
            k <= islands@.len(),
            v == islands_view(islands@),
            forall|q: int| 0 <= q < result@.len() ==> (#[trigger] result@[q])@.len() >= 2,
            forall|q: int, m: int|
                0 <= q < result@.len() && 0 <= m < result@[q]@.len() ==> boundary_endpoint(
                    chunk@.texels,
                    #[trigger] result@[q]@[m],
                ),
            (forall|j: int| 0 <= j < 4096 ==> (#[trigger] chunk@.texels[j]).id == 0)
                ==> result@.len() == 0,
            loops_view(result@) == finalized(big_islands(v.take(k as int))),
        decreases islands@.len() - k,
    {
        let island = &islands[k];
        proof {
            assert(v[k as int] == islands@[k as int]@);
            lemma_big_islands_step(v, k as int);
        }
        if island.len() >= 4 {
            let points = finalize_island(island);
            proof {
                assert forall|m: int| 0 <= m < points@.len() implies boundary_endpoint(
                    chunk@.texels,
                    #[trigger] points@[m],
                ) by {
                    assert(point_on_island(points@[m], island@));
                    let j = choose|j: int|
                        0 <= j < island@.len() && (points@[m] == island@[j].from || points@[m]
                            == island@[j].to);
                    assert(is_boundary_segment(chunk@.texels, island@[j]));
                }
            }
            let ghost result_pre = result@;
            result.push(points);
            proof {
                assert(points@ == spec_finalize(v[k as int]));
                lemma_finalized_push(big_islands(v.take(k as int)), v[k as int]);
                lemma_loops_view_push(result_pre, points);
                assert(loops_view(result@) == finalized(big_islands(v.take(k + 1))));
            }
        } else {
            proof {
                assert(loops_view(result@) == finalized(big_islands(v.take(k + 1))));
            }
        }
        k = k + 1;
    }
    proof {
        assert(v.take(v.len() as int) =~= v);
        assert(v == assembled_islands(chunk@.texels, 4096));
    }
    result
}

} // verus!
