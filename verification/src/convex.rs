//! Containment for convex polygons: every point strictly inside a strictly
//! convex polygon is reported inside by the parity ray cast.
//!
//! Seen from a point strictly left of an edge's supporting line, the
//! leftward ray crosses that edge exactly when the edge rises across the
//! point's height. A strictly convex boundary rises across any height
//! strictly between its lowest and highest vertex exactly once, so the
//! crossing count is one, and one is odd.

use vstd::prelude::*;
use crate::model::Point;
use crate::geometry::{edge_crossed, edge_at, next_index, crossings_upto, polygon_contains};

verus! {

/// Twice the signed area of the triangle `a`, `b`, `q`: positive exactly
/// when `q` lies strictly left of the directed line from `a` to `b`.
pub open spec fn cross(a: Point, b: Point, q: Point) -> int {
    (b.x - a.x) * (q.y - a.y) - (b.y - a.y) * (q.x - a.x)
}

/// Index of the vertex that precedes `i` on the implicitly closed polygon.
pub open spec fn prev_index(i: int, n: int) -> int {
    if i == 0 {
        n - 1
    } else {
        i - 1
    }
}

/// The vertices are in strictly convex position, listed counterclockwise:
/// every vertex lies strictly left of every directed edge it does not end.
pub open spec fn strictly_convex_ccw(poly: Seq<Point>) -> bool {
    forall|i: int, k: int|
        0 <= i < poly.len() && 0 <= k < poly.len() && k != i && k != next_index(
            i,
            poly.len() as int,
        ) ==> #[trigger] cross(poly[i], poly[next_index(i, poly.len() as int)], poly[k]) > 0
}

/// Strictly inside a counterclockwise polygon: strictly left of every
/// directed edge.
pub open spec fn strictly_inside(p: Point, poly: Seq<Point>) -> bool {
    forall|i: int|
        0 <= i < poly.len() ==> #[trigger] cross(
            poly[i],
            poly[next_index(i, poly.len() as int)],
            p,
        ) > 0
}

/// Whether edge `i` rises across the height of `p`: it starts at or below
/// it and ends strictly above it.
pub open spec fn rise_at(p: Point, poly: Seq<Point>, i: int) -> bool {
    poly[i].y <= p.y < poly[next_index(i, poly.len() as int)].y
}

/// Number of rising edges among the first `k`.
pub open spec fn rises_upto(p: Point, poly: Seq<Point>, k: int) -> nat
    decreases k,
{
    if k <= 0 {
        0
    } else {
        rises_upto(p, poly, k - 1) + (if rise_at(p, poly, k - 1) {
            1nat
        } else {
            0nat
        })
    }
}

/// Seen from a point strictly left of the edge's supporting line, the
/// leftward ray crosses the edge exactly when the edge rises across the
/// point's height.
proof fn lemma_left_of_edge_crossed_iff_rise(p: Point, a: Point, b: Point)
    requires
        cross(a, b, p) > 0,
    ensures
        edge_crossed(p.x as int, p.y as int, a.x as int, a.y as int, b.x as int, b.y as int) == (
        a.y <= p.y < b.y),
{
    assert((p.x - a.x) * (b.y - a.y) == (b.y - a.y) * (p.x - a.x)) by (nonlinear_arith);
    assert((p.y - a.y) * (b.x - a.x) == (b.x - a.x) * (p.y - a.y)) by (nonlinear_arith);
}

/// Strictly inside the polygon, crossings and rises coincide edge by edge.
proof fn lemma_crossings_eq_rises(p: Point, poly: Seq<Point>, k: int)
    requires
        0 <= k <= poly.len(),
        strictly_inside(p, poly),
    ensures
        crossings_upto(p, poly, k) == rises_upto(p, poly, k),
    decreases k,
{
    if k > 0 {
        lemma_crossings_eq_rises(p, poly, k - 1);
        let n = poly.len() as int;
        assert(cross(poly[k - 1], poly[next_index(k - 1, n)], p) > 0);
        lemma_left_of_edge_crossed_iff_rise(p, poly[k - 1], poly[next_index(k - 1, n)]);
        assert(edge_at(p, poly, k - 1) == rise_at(p, poly, k - 1));
    }
}

/// Index of a vertex of maximal y among the first `k`.
spec fn argmax_y(poly: Seq<Point>, k: int) -> int
    decreases k,
{
    if k <= 1 {
        0
    } else {
        let r = argmax_y(poly, k - 1);
        if poly[k - 1].y > poly[r].y {
            k - 1
        } else {
            r
        }
    }
}

/// Index of a vertex of minimal y among the first `k`.
spec fn argmin_y(poly: Seq<Point>, k: int) -> int
    decreases k,
{
    if k <= 1 {
        0
    } else {
        let r = argmin_y(poly, k - 1);
        if poly[k - 1].y < poly[r].y {
            k - 1
        } else {
            r
        }
    }
}

proof fn lemma_argmax_y(poly: Seq<Point>, k: int)
    requires
        1 <= k <= poly.len(),
    ensures
        0 <= argmax_y(poly, k) < k,
        forall|j: int| 0 <= j < k ==> (#[trigger] poly[j]).y <= poly[argmax_y(poly, k)].y,
    decreases k,
{
    if k > 1 {
        lemma_argmax_y(poly, k - 1);
    }
}

proof fn lemma_argmin_y(poly: Seq<Point>, k: int)
    requires
        1 <= k <= poly.len(),
    ensures
        0 <= argmin_y(poly, k) < k,
        forall|j: int| 0 <= j < k ==> (#[trigger] poly[j]).y >= poly[argmin_y(poly, k)].y,
    decreases k,
{
    if k > 1 {
        lemma_argmin_y(poly, k - 1);
    }
}

/// At a vertex of maximal height the incoming edge does not descend and the
/// outgoing edge does not ascend; a point strictly left of both edges and
/// of the corner's turn lies strictly below that vertex.
proof fn lemma_below_peak(c: Point, a: Point, b: Point, p: Point)
    requires
        c.y <= a.y,
        b.y <= a.y,
        cross(c, a, p) > 0,
        cross(a, b, p) > 0,
        cross(c, a, b) > 0,
    ensures
        p.y < a.y,
{
    if p.y >= a.y {
        assert(false) by (nonlinear_arith)
            requires
                c.y <= a.y,
                b.y <= a.y,
                p.y >= a.y,
                (a.x - c.x) * (p.y - c.y) - (a.y - c.y) * (p.x - c.x) > 0,
                (b.x - a.x) * (p.y - a.y) - (b.y - a.y) * (p.x - a.x) > 0,
                (a.x - c.x) * (b.y - c.y) - (a.y - c.y) * (b.x - c.x) > 0,
        ;
    }
}

/// The mirror image of `lemma_below_peak` at a vertex of minimal height.
proof fn lemma_above_valley(c: Point, a: Point, b: Point, p: Point)
    requires
        c.y >= a.y,
        b.y >= a.y,
        cross(c, a, p) > 0,
        cross(a, b, p) > 0,
        cross(c, a, b) > 0,
    ensures
        p.y > a.y,
{
    if p.y <= a.y {
        assert(false) by (nonlinear_arith)
            requires
                c.y >= a.y,
                b.y >= a.y,
                p.y <= a.y,
                (a.x - c.x) * (p.y - c.y) - (a.y - c.y) * (p.x - c.x) > 0,
                (b.x - a.x) * (p.y - a.y) - (b.y - a.y) * (p.x - a.x) > 0,
                (a.x - c.x) * (b.y - c.y) - (a.y - c.y) * (b.x - c.x) > 0,
        ;
    }
}

/// Whether `p` lies strictly below vertex `i`.
spec fn above(p: Point, poly: Seq<Point>, i: int) -> bool {
    p.y < poly[i].y
}

/// With no rising edge anywhere, the side flags propagate backward.
proof fn lemma_no_rise_propagates(p: Point, poly: Seq<Point>, i: int, j: int)
    requires
        0 <= j <= i < poly.len(),
        forall|t: int| 0 <= t < poly.len() ==> !#[trigger] rise_at(p, poly, t),
        above(p, poly, i),
    ensures
        above(p, poly, j),
    decreases i - j,
{
    if j < i {
        assert(!rise_at(p, poly, i - 1));
        assert(next_index(i - 1, poly.len() as int) == i);
        lemma_no_rise_propagates(p, poly, i - 1, j);
    }
}

/// A boundary with a vertex strictly above `p` and one at or below it has a
/// rising edge somewhere.
proof fn lemma_exists_rise(p: Point, poly: Seq<Point>, hi: int, lo: int)
    requires
        0 <= hi < poly.len(),
        0 <= lo < poly.len(),
        above(p, poly, hi),
        !above(p, poly, lo),
    ensures
        exists|r: int| 0 <= r < poly.len() && #[trigger] rise_at(p, poly, r),
{
    let n = poly.len() as int;
    if forall|t: int| 0 <= t < poly.len() ==> !#[trigger] rise_at(p, poly, t) {
        lemma_no_rise_propagates(p, poly, hi, 0);
        assert(!rise_at(p, poly, n - 1));
        assert(next_index(n - 1, n) == 0);
        assert(above(p, poly, n - 1));
        lemma_no_rise_propagates(p, poly, n - 1, lo);
        assert(false);
    }
}

/// A rising edge below the cutoff makes the rise count positive.
proof fn lemma_rises_at_least_one(p: Point, poly: Seq<Point>, r: int, k: int)
    requires
        0 <= r < k,
        rise_at(p, poly, r),
    ensures
        rises_upto(p, poly, k) >= 1,
    decreases k,
{
    if r < k - 1 {
        lemma_rises_at_least_one(p, poly, r, k - 1);
    }
}

/// A positive rise count exhibits a rising edge.
proof fn lemma_rise_witness(p: Point, poly: Seq<Point>, k: int)
    requires
        0 <= k,
        rises_upto(p, poly, k) >= 1,
    ensures
        exists|r: int| 0 <= r < k && #[trigger] rise_at(p, poly, r),
    decreases k,
{
    if k > 0 && !rise_at(p, poly, k - 1) {
        lemma_rise_witness(p, poly, k - 1);
    }
}

/// A rise count of two or more exhibits two distinct rising edges.
proof fn lemma_two_rise_witnesses(p: Point, poly: Seq<Point>, k: int)
    requires
        0 <= k,
        rises_upto(p, poly, k) >= 2,
    ensures
        exists|i: int, j: int|
            0 <= i < j < k && #[trigger] rise_at(p, poly, i) && #[trigger] rise_at(p, poly, j),
    decreases k,
{
    if k > 0 {
        if rise_at(p, poly, k - 1) {
            lemma_rise_witness(p, poly, k - 1);
            let i = choose|i: int| 0 <= i < k - 1 && #[trigger] rise_at(p, poly, i);
            assert(0 <= i < k - 1 && rise_at(p, poly, i) && rise_at(p, poly, k - 1));
        } else {
            lemma_two_rise_witnesses(p, poly, k - 1);
        }
    }
}

/// Every point strictly inside a counterclockwise strictly convex polygon
/// is contained: the leftward ray crosses exactly the one edge that rises
/// across the point's height.
pub proof fn lemma_convex_inside_contained(p: Point, poly: Seq<Point>)
    requires
        poly.len() >= 3,
        strictly_convex_ccw(poly),
        strictly_inside(p, poly),
    ensures
        polygon_contains(p, poly),
{
    let n = poly.len() as int;
    lemma_argmax_y(poly, n);
    lemma_argmin_y(poly, n);
    let hi = argmax_y(poly, n);
    let lo = argmin_y(poly, n);

    // p lies strictly below the highest vertex
    let hp = prev_index(hi, n);
    let hn = next_index(hi, n);
    assert(next_index(hp, n) == hi);
    assert(hn != hp && hn != hi && hp != hi);
    assert(cross(poly[hp], poly[next_index(hp, n)], p) > 0);
    assert(cross(poly[hi], poly[next_index(hi, n)], p) > 0);
    assert(cross(poly[hp], poly[next_index(hp, n)], poly[hn]) > 0);
    lemma_below_peak(poly[hp], poly[hi], poly[hn], p);
    assert(above(p, poly, hi));

    // p lies strictly above the lowest vertex
    let lp = prev_index(lo, n);
    let ln = next_index(lo, n);
    assert(next_index(lp, n) == lo);
    assert(ln != lp && ln != lo && lp != lo);
    assert(cross(poly[lp], poly[next_index(lp, n)], p) > 0);
    assert(cross(poly[lo], poly[next_index(lo, n)], p) > 0);
    assert(cross(poly[lp], poly[next_index(lp, n)], poly[ln]) > 0);
    lemma_above_valley(poly[lp], poly[lo], poly[ln], p);
    assert(!above(p, poly, lo));

    // so some edge rises across p's height
    lemma_exists_rise(p, poly, hi, lo);
    let r = choose|r: int| 0 <= r < poly.len() && #[trigger] rise_at(p, poly, r);
    lemma_rises_at_least_one(p, poly, r, n);

    // and no two edges do
    if rises_upto(p, poly, n) >= 2 {
        lemma_two_rise_witnesses(p, poly, n);
        let (i, j) = choose|i: int, j: int|
            0 <= i < j < n && #[trigger] rise_at(p, poly, i) && #[trigger] rise_at(p, poly, j);
        let a = poly[i];
        let b = poly[next_index(i, n)];
        let c = poly[j];
        let d = poly[next_index(j, n)];
        // the four indices are pairwise distinct, so convexity applies to all
        assert(next_index(i, n) != j || !(rise_at(p, poly, i) && rise_at(p, poly, j)));
        assert(next_index(j, n) != i || !(rise_at(p, poly, i) && rise_at(p, poly, j)));
        assert(cross(poly[i], poly[next_index(i, n)], poly[j]) > 0);
        assert(cross(poly[i], poly[next_index(i, n)], poly[next_index(j, n)]) > 0);
        assert(cross(poly[j], poly[next_index(j, n)], poly[i]) > 0);
        assert(cross(poly[j], poly[next_index(j, n)], poly[next_index(i, n)]) > 0);
        // four vertices in strictly convex position cannot alternate sides
        // of a horizontal line in cyclic order
        assert(false) by (nonlinear_arith)
            requires
                a.y <= p.y,
                p.y < b.y,
                c.y <= p.y,
                p.y < d.y,
                (b.x - a.x) * (c.y - a.y) - (b.y - a.y) * (c.x - a.x) > 0,
                (b.x - a.x) * (d.y - a.y) - (b.y - a.y) * (d.x - a.x) > 0,
                (d.x - c.x) * (a.y - c.y) - (d.y - c.y) * (a.x - c.x) > 0,
                (d.x - c.x) * (b.y - c.y) - (d.y - c.y) * (b.x - c.x) > 0,
        ;
    }
    assert(rises_upto(p, poly, n) == 1);
    lemma_crossings_eq_rises(p, poly, n);
}

/// The same containment for a clockwise vertex list: its reversal is
/// counterclockwise, and ray-casting parity is direction-independent.
pub proof fn lemma_convex_inside_contained_cw(p: Point, poly: Seq<Point>)
    requires
        poly.len() >= 3,
        strictly_convex_ccw(poly.reverse()),
        strictly_inside(p, poly.reverse()),
    ensures
        polygon_contains(p, poly),
{
    lemma_convex_inside_contained(p, poly.reverse());
    crate::geometry::lemma_contains_reverse(p, poly);
}

} // verus!
