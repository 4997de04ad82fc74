//! Point-in-polygon containment by parity ray casting.
//!
//! The ray runs from the test point toward negative x. For every edge whose
//! endpoints straddle the ray's height, the test point is compared against
//! the edge's x-intercept at that height; an odd number of crossings means
//! the point is inside. All comparisons are strict, so horizontal edges are
//! skipped and never divide by zero, and points exactly on an edge get a
//! deterministic (though unspecified) side.

use vstd::prelude::*;
use crate::model::{Point, point_bounded, GEOM_LIMIT};

verus! {

/// Whether the horizontal ray from `(px, py)` toward negative x crosses the
/// edge from `(x1, y1)` to `(x2, y2)`.
///
/// The second conjunct is the exact integer form of
/// `px < x1 + (py - y1) / (y2 - y1) * (x2 - x1)`: both sides multiplied by
/// `y2 - y1`, with the comparison flipped when that factor is negative.
/// It is only reached when the first conjunct holds, which forces
/// `y1 != y2`.
pub open spec fn edge_crossed(px: int, py: int, x1: int, y1: int, x2: int, y2: int) -> bool {
    &&& (py < y1) != (py < y2)
    &&& if y1 < y2 {
        (px - x1) * (y2 - y1) < (py - y1) * (x2 - x1)
    } else {
        (px - x1) * (y2 - y1) > (py - y1) * (x2 - x1)
    }
}

/// Index of the vertex that follows `i` on the implicitly closed polygon.
pub open spec fn next_index(i: int, n: int) -> int {
    if i + 1 == n {
        0
    } else {
        i + 1
    }
}

/// Whether the ray from `p` crosses the polygon edge that starts at vertex `i`.
pub open spec fn edge_at(p: Point, poly: Seq<Point>, i: int) -> bool {
    edge_crossed(
        p.x as int,
        p.y as int,
        poly[i].x as int,
        poly[i].y as int,
        poly[next_index(i, poly.len() as int)].x as int,
        poly[next_index(i, poly.len() as int)].y as int,
    )
}

/// Number of ray crossings among the first `k` edges of the closed polygon.
pub open spec fn crossings_upto(p: Point, poly: Seq<Point>, k: int) -> nat
    decreases k,
{
    if k <= 0 {
        0
    } else {
        crossings_upto(p, poly, k - 1) + (if edge_at(p, poly, k - 1) {
            1nat
        } else {
            0nat
        })
    }
}

/// Parity ray casting over all edges: odd crossing count means inside.
pub open spec fn polygon_contains(p: Point, poly: Seq<Point>) -> bool {
    crossings_upto(p, poly, poly.len() as int) % 2 == 1
}

proof fn lemma_mul_bound(a: int, b: int, m: int)
    requires
        0 <= m,
        -m <= a <= m,
        -m <= b <= m,
    ensures
        -(m * m) <= a * b <= m * m,
{
    assert(-(m * m) <= a * b <= m * m) by (nonlinear_arith)
        requires
            0 <= m,
            -m <= a <= m,
            -m <= b <= m,
    ;
}

/// An edge traversed in either direction is crossed by the same rays: the
/// x-intercept is a property of the segment, not of the traversal direction.
pub proof fn lemma_edge_symmetric(px: int, py: int, x1: int, y1: int, x2: int, y2: int)
    ensures
        edge_crossed(px, py, x1, y1, x2, y2) == edge_crossed(px, py, x2, y2, x1, y1),
{
    if (py < y1) != (py < y2) {
        assert((px - x1) * (y2 - y1) - (py - y1) * (x2 - x1) == (px - x2) * (y2 - y1) - (py - y2)
            * (x2 - x1)) by (nonlinear_arith);
        assert((px - x2) * (y1 - y2) == -((px - x2) * (y2 - y1))) by (nonlinear_arith);
        assert((py - y2) * (x1 - x2) == -((py - y2) * (x2 - x1))) by (nonlinear_arith);
    }
}

/// A straddling edge whose endpoints both lie strictly right of the test
/// point is crossed by the leftward ray.
proof fn lemma_edge_cross_left(px: int, py: int, x1: int, y1: int, x2: int, y2: int)
    requires
        (py < y1) != (py < y2),
        px < x1,
        px < x2,
    ensures
        edge_crossed(px, py, x1, y1, x2, y2),
{
    if y1 < y2 {
        assert((px - x1) * (y2 - y1) < (py - y1) * (x2 - x1)) by (nonlinear_arith)
            requires
                y1 <= py < y2,
                px < x1,
                px < x2,
        ;
    } else {
        assert((px - x1) * (y2 - y1) > (py - y1) * (x2 - x1)) by (nonlinear_arith)
            requires
                y2 <= py < y1,
                px < x1,
                px < x2,
        ;
    }
}

/// An edge whose endpoints both lie strictly left of the test point is never
/// crossed: the edge's x-intercept lies at or left of the larger endpoint.
proof fn lemma_edge_no_cross_right(px: int, py: int, x1: int, y1: int, x2: int, y2: int)
    requires
        px > x1,
        px > x2,
    ensures
        !edge_crossed(px, py, x1, y1, x2, y2),
{
    if (py < y1) != (py < y2) {
        if y1 < y2 {
            assert((px - x1) * (y2 - y1) >= (py - y1) * (x2 - x1)) by (nonlinear_arith)
                requires
                    y1 <= py < y2,
                    px > x1,
                    px > x2,
            ;
        } else {
            assert((px - x1) * (y2 - y1) <= (py - y1) * (x2 - x1)) by (nonlinear_arith)
                requires
                    y2 <= py < y1,
                    px > x1,
                    px > x2,
            ;
        }
    }
}

/// Whether the endpoints of edge `i` lie on opposite sides of the ray's height.
pub open spec fn straddle_at(p: Point, poly: Seq<Point>, i: int) -> bool {
    (p.y < poly[i].y) != (p.y < poly[next_index(i, poly.len() as int)].y)
}

/// Number of straddling edges among the first `k` edges.
pub open spec fn straddles_upto(p: Point, poly: Seq<Point>, k: int) -> nat
    decreases k,
{
    if k <= 0 {
        0
    } else {
        straddles_upto(p, poly, k - 1) + (if straddle_at(p, poly, k - 1) {
            1nat
        } else {
            0nat
        })
    }
}

/// Along the open vertex path from vertex 0 to vertex `k`, the number of
/// height straddles is odd exactly when the path's two endpoints lie on
/// opposite sides of the ray's height.
proof fn lemma_straddle_path_parity(p: Point, poly: Seq<Point>, k: int)
    requires
        poly.len() >= 1,
        0 <= k <= poly.len() - 1,
    ensures
        straddles_upto(p, poly, k) % 2 == (if (p.y < poly[0].y) != (p.y < poly[k].y) {
            1nat
        } else {
            0nat
        }),
    decreases k,
{
    if k > 0 {
        lemma_straddle_path_parity(p, poly, k - 1);
        assert(next_index(k - 1, poly.len() as int) == k);
    }
}

/// A closed walk returns to its starting vertex, so it straddles any given
/// height an even number of times.
proof fn lemma_straddles_even(p: Point, poly: Seq<Point>)
    requires
        poly.len() >= 1,
    ensures
        straddles_upto(p, poly, poly.len() as int) % 2 == 0,
{
    let n = poly.len() as int;
    lemma_straddle_path_parity(p, poly, n - 1);
    assert(next_index(n - 1, n) == 0);
    assert(straddles_upto(p, poly, n) == straddles_upto(p, poly, n - 1) + (if straddle_at(
        p,
        poly,
        n - 1,
    ) {
        1nat
    } else {
        0nat
    }));
}

/// If no edge among the first `k` is crossed, the crossing count is zero.
proof fn lemma_crossings_none(p: Point, poly: Seq<Point>, k: int)
    requires
        0 <= k,
        forall|i: int| 0 <= i < k ==> !#[trigger] edge_at(p, poly, i),
    ensures
        crossings_upto(p, poly, k) == 0,
    decreases k,
{
    if k > 0 {
        lemma_crossings_none(p, poly, k - 1);
    }
}

/// Left of every vertex, an edge is crossed exactly when it straddles.
proof fn lemma_crossings_left_eq_straddles(p: Point, poly: Seq<Point>, k: int)
    requires
        0 <= k <= poly.len(),
        forall|i: int| 0 <= i < poly.len() ==> p.x < (#[trigger] poly[i]).x,
    ensures
        crossings_upto(p, poly, k) == straddles_upto(p, poly, k),
    decreases k,
{
    if k > 0 {
        lemma_crossings_left_eq_straddles(p, poly, k - 1);
        let n = poly.len() as int;
        let a = poly[k - 1];
        let b = poly[next_index(k - 1, n)];
        if straddle_at(p, poly, k - 1) {
            lemma_edge_cross_left(
                p.x as int,
                p.y as int,
                a.x as int,
                a.y as int,
                b.x as int,
                b.y as int,
            );
        }
        assert(edge_at(p, poly, k - 1) == straddle_at(p, poly, k - 1));
    }
}

/// A point strictly outside the polygon's bounding box is never contained.
/// Strictly above or below every vertex no edge straddles the ray's height;
/// strictly right of every vertex no edge reaches the leftward ray; strictly
/// left of every vertex the ray crosses exactly the straddling edges, and a
/// closed walk straddles any height an even number of times.
pub proof fn lemma_outside_bounding_box(p: Point, poly: Seq<Point>)
    requires
        poly.len() >= 1,
        (forall|i: int| 0 <= i < poly.len() ==> p.x < (#[trigger] poly[i]).x) || (forall|i: int|
            0 <= i < poly.len() ==> p.x > (#[trigger] poly[i]).x) || (forall|i: int|
            0 <= i < poly.len() ==> p.y < (#[trigger] poly[i]).y) || (forall|i: int|
            0 <= i < poly.len() ==> p.y > (#[trigger] poly[i]).y),
    ensures
        !polygon_contains(p, poly),
{
    let n = poly.len() as int;
    if forall|i: int| 0 <= i < poly.len() ==> p.x < (#[trigger] poly[i]).x {
        lemma_crossings_left_eq_straddles(p, poly, n);
        lemma_straddles_even(p, poly);
    } else if forall|i: int| 0 <= i < poly.len() ==> p.x > (#[trigger] poly[i]).x {
        assert forall|i: int| 0 <= i < n implies !#[trigger] edge_at(p, poly, i) by {
            let a = poly[i];
            let b = poly[next_index(i, n)];
            lemma_edge_no_cross_right(
                p.x as int,
                p.y as int,
                a.x as int,
                a.y as int,
                b.x as int,
                b.y as int,
            );
        }
        lemma_crossings_none(p, poly, n);
    } else {
        assert forall|i: int| 0 <= i < n implies !#[trigger] edge_at(p, poly, i) by {
            let a = poly[i];
            let b = poly[next_index(i, n)];
            assert(!((p.y < a.y) != (p.y < b.y)));
        }
        lemma_crossings_none(p, poly, n);
    }
}

/// Reversing the vertex list turns edge `j` of the reversal into edge
/// `n - 2 - j` of the original (and the closing edge into the closing edge),
/// so the partial crossing counts of the two traversals add up to the count
/// of the original's first `n - 1` edges.
proof fn lemma_crossings_reverse_partial(p: Point, poly: Seq<Point>, k: int)
    requires
        poly.len() >= 1,
        0 <= k <= poly.len() - 1,
    ensures
        crossings_upto(p, poly.reverse(), k) + crossings_upto(p, poly, poly.len() - 1 - k)
            == crossings_upto(p, poly, poly.len() - 1),
    decreases k,
{
    let n = poly.len() as int;
    let rev = poly.reverse();
    if k > 0 {
        lemma_crossings_reverse_partial(p, poly, k - 1);
        assert(next_index(k - 1, n) == k);
        assert(rev[k - 1] == poly[n - k]);
        assert(rev[k] == poly[n - 1 - k]);
        assert(next_index(n - 1 - k, n) == n - k);
        lemma_edge_symmetric(
            p.x as int,
            p.y as int,
            poly[n - 1 - k].x as int,
            poly[n - 1 - k].y as int,
            poly[n - k].x as int,
            poly[n - k].y as int,
        );
        assert(edge_at(p, rev, k - 1) == edge_at(p, poly, n - 1 - k));
        assert(crossings_upto(p, poly, n - k) == crossings_upto(p, poly, n - 1 - k) + (if edge_at(
            p,
            poly,
            n - 1 - k,
        ) {
            1nat
        } else {
            0nat
        }));
    }
}

/// Containment is invariant under traversing the polygon's vertex list in
/// reverse order: ray-casting parity is direction-independent.
pub proof fn lemma_contains_reverse(p: Point, poly: Seq<Point>)
    requires
        poly.len() >= 1,
    ensures
        polygon_contains(p, poly.reverse()) == polygon_contains(p, poly),
{
    let n = poly.len() as int;
    let rev = poly.reverse();
    lemma_crossings_reverse_partial(p, poly, n - 1);
    assert(crossings_upto(p, poly, 0) == 0);
    assert(rev[n - 1] == poly[0]);
    assert(rev[0] == poly[n - 1]);
    assert(next_index(n - 1, n) == 0);
    lemma_edge_symmetric(
        p.x as int,
        p.y as int,
        poly[n - 1].x as int,
        poly[n - 1].y as int,
        poly[0].x as int,
        poly[0].y as int,
    );
    assert(edge_at(p, rev, n - 1) == edge_at(p, poly, n - 1));
    assert(crossings_upto(p, rev, n) == crossings_upto(p, rev, n - 1) + (if edge_at(
        p,
        rev,
        n - 1,
    ) {
        1nat
    } else {
        0nat
    }));
    assert(crossings_upto(p, poly, n) == crossings_upto(p, poly, n - 1) + (if edge_at(
        p,
        poly,
        n - 1,
    ) {
        1nat
    } else {
        0nat
    }));
}

/// Every point strictly inside an axis-aligned rectangle is contained: of
/// the rectangle's four edges the leftward ray crosses exactly the right one.
pub proof fn lemma_rectangle_contains(p: Point, poly: Seq<Point>, x0: int, y0: int, x1: int, y1: int)
    requires
        poly.len() == 4,
        poly[0].x == x0 && poly[0].y == y0,
        poly[1].x == x1 && poly[1].y == y0,
        poly[2].x == x1 && poly[2].y == y1,
        poly[3].x == x0 && poly[3].y == y1,
        x0 < p.x < x1,
        y0 < p.y < y1,
    ensures
        polygon_contains(p, poly),
{
    let px = p.x as int;
    let py = p.y as int;
    assert(!edge_at(p, poly, 0));
    assert((px - x1) * (y1 - y0) < 0) by (nonlinear_arith)
        requires
            px < x1,
            y0 < y1,
    ;
    assert((py - y0) * (x1 - x1) == 0);
    assert(edge_at(p, poly, 1));
    assert(!edge_at(p, poly, 2));
    assert((px - x0) * (y0 - y1) < 0) by (nonlinear_arith)
        requires
            x0 < px,
            y0 < y1,
    ;
    assert((py - y1) * (x0 - x0) == 0);
    assert(!edge_at(p, poly, 3));
    assert(crossings_upto(p, poly, 0) == 0);
    assert(crossings_upto(p, poly, 1) == 0);
    assert(crossings_upto(p, poly, 2) == 1);
    assert(crossings_upto(p, poly, 3) == 1);
    assert(crossings_upto(p, poly, 4) == 1);
}

/// Decides whether `point` lies inside the closed polygon, both given in the
/// same absolute coordinate convention. The polygon's vertex order only
/// defines edge adjacency; the answer does not depend on direction.
pub fn contains(point: &Point, polygon: &Vec<Point>) -> (r: bool)
    requires
        polygon@.len() >= 3,
        point_bounded(*point, GEOM_LIMIT as int),
        forall|i: int| 0 <= i < polygon@.len() ==> point_bounded(#[trigger] polygon@[i], GEOM_LIMIT as int),
    ensures
        r == polygon_contains(*point, polygon@),
{
    let px = point.x;
    let py = point.y;
    let n = polygon.len();
    let mut count: usize = 0;
    let mut i: usize = 0;
    while i < n
        invariant
            n == polygon@.len(),
            3 <= n,
            i <= n,
            count <= i,
            px == point.x,
            py == point.y,
            point_bounded(*point, GEOM_LIMIT as int),
            forall|k: int| 0 <= k < polygon@.len() ==> point_bounded(#[trigger] polygon@[k], GEOM_LIMIT as int),
            count as nat == crossings_upto(*point, polygon@, i as int),
        decreases n - i,
    {
        let x1 = polygon[i].x;
        let y1 = polygon[i].y;
        let j: usize = if i + 1 == n {
            0
        } else {
            i + 1
        };
        let x2 = polygon[j].x;
        let y2 = polygon[j].y;
        let crossed: bool;
        if (py < y1) != (py < y2) {
            proof {
                lemma_mul_bound(px - x1, y2 - y1, 2 * GEOM_LIMIT as int);
                lemma_mul_bound(py - y1, x2 - x1, 2 * GEOM_LIMIT as int);
            }
            let lhs: i128 = (px as i128 - x1 as i128) * (y2 as i128 - y1 as i128);
            let rhs: i128 = (py as i128 - y1 as i128) * (x2 as i128 - x1 as i128);
            crossed = if y1 < y2 {
                lhs < rhs
            } else {
                lhs > rhs
            };
        } else {
            crossed = false;
        }
        proof {
            assert(crossed == edge_at(*point, polygon@, i as int));
        }
        if crossed {
            count = count + 1;
        }
        i = i + 1;
    }
    count % 2 == 1
}

} // verus!
