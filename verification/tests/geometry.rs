use map_geometry::geometry::contains;
use map_geometry::model::Point;

fn pt(x: i64, y: i64) -> Point {
    Point { x, y }
}

fn square_10() -> Vec<Point> {
    vec![pt(0, 0), pt(10, 0), pt(10, 10), pt(0, 10)]
}

#[test]
fn square_contains_interior_point() {
    assert!(contains(&pt(5, 5), &square_10()));
}

#[test]
fn square_excludes_exterior_point() {
    assert!(!contains(&pt(15, 5), &square_10()));
}

#[test]
fn square_edge_point_is_deterministic() {
    // Points exactly on an edge have no mandated side, but the strict
    // comparisons fix one: the right edge counts as outside, the left edge
    // as inside. Both answers are asserted so any change is caught.
    assert!(!contains(&pt(10, 5), &square_10()));
    assert!(contains(&pt(0, 5), &square_10()));
}

#[test]
fn square_vertex_heights_are_deterministic() {
    // Rays exactly through vertices also have a fixed answer: the strict
    // comparisons make the bottom edge count as inside, the top as outside.
    assert!(contains(&pt(5, 0), &square_10()));
    assert!(!contains(&pt(5, 10), &square_10()));
}

#[test]
fn reversed_square_gives_same_answers() {
    let mut rev = square_10();
    rev.reverse();
    for p in [pt(5, 5), pt(15, 5), pt(10, 5), pt(0, 5), pt(-1, 3), pt(3, -7)] {
        assert_eq!(contains(&p, &rev), contains(&p, &square_10()));
    }
}

#[test]
fn triangle_containment() {
    let tri = vec![pt(0, 0), pt(6, 0), pt(3, 6)];
    assert!(contains(&pt(3, 1), &tri));
    assert!(contains(&pt(3, 5), &tri));
    assert!(!contains(&pt(0, 5), &tri));
    assert!(!contains(&pt(6, 5), &tri));
    assert!(!contains(&pt(3, 7), &tri));
    assert!(!contains(&pt(3, -1), &tri));
}

#[test]
fn reversed_triangle_gives_same_answers() {
    let tri = vec![pt(0, 0), pt(6, 0), pt(3, 6)];
    let mut rev = tri.clone();
    rev.reverse();
    for x in -2..9 {
        for y in -2..9 {
            let p = pt(x, y);
            assert_eq!(contains(&p, &rev), contains(&p, &tri));
        }
    }
}

#[test]
fn convex_pentagon_containment() {
    let pent = vec![pt(2, 0), pt(8, 0), pt(10, 5), pt(5, 9), pt(0, 5)];
    assert!(contains(&pt(5, 4), &pent));
    assert!(contains(&pt(2, 2), &pent));
    assert!(!contains(&pt(-1, 4), &pent));
    assert!(!contains(&pt(11, 4), &pent));
    assert!(!contains(&pt(5, 10), &pent));
    assert!(!contains(&pt(5, -1), &pent));
}

#[test]
fn concave_polygon_containment() {
    // A U shape: the notch between the arms is outside.
    let u = vec![
        pt(0, 0),
        pt(9, 0),
        pt(9, 9),
        pt(6, 9),
        pt(6, 3),
        pt(3, 3),
        pt(3, 9),
        pt(0, 9),
    ];
    assert!(contains(&pt(1, 5), &u));
    assert!(contains(&pt(8, 5), &u));
    assert!(contains(&pt(4, 1), &u));
    assert!(!contains(&pt(4, 5), &u));
    assert!(!contains(&pt(4, 10), &u));
}

#[test]
fn negative_coordinates() {
    let sq = vec![pt(-10, -10), pt(-2, -10), pt(-2, -2), pt(-10, -2)];
    assert!(contains(&pt(-5, -5), &sq));
    assert!(!contains(&pt(0, -5), &sq));
    assert!(!contains(&pt(-5, 0), &sq));
}
