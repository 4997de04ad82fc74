use map_geometry::features::{centroid_of, map_boundary};
use map_geometry::geometry::contains;
use map_geometry::locate::{find_layer, starting_point};
use map_geometry::model::{Layer, MapData, MapError, Object, Point};
use map_geometry::normalize::normalize;

fn pt(x: i64, y: i64) -> Point {
    Point { x, y }
}

fn object(name: &str, x: i64, y: i64, polygon: Option<Vec<Point>>) -> Object {
    Object {
        name: name.to_string(),
        ellipse: None,
        height: 0,
        width: 0,
        polygon,
        x,
        y,
    }
}

fn layer(name: &str, objects: Option<Vec<Object>>) -> Layer {
    Layer { name: name.to_string(), objects }
}

fn sample_map() -> MapData {
    MapData {
        width: 32,
        height: 32,
        layers: vec![
            layer("Ground", None),
            layer(
                "Starting Point",
                Some(vec![object("spawn", 100, 200, None)]),
            ),
            layer(
                "Map Boundaries",
                Some(vec![object(
                    "boundary",
                    2,
                    3,
                    Some(vec![pt(0, 0), pt(8, 0), pt(8, 8), pt(0, 8)]),
                )]),
            ),
            layer(
                "Pfufu",
                Some(vec![object(
                    "pfufu",
                    10,
                    20,
                    Some(vec![pt(0, 0), pt(10, 0), pt(10, 10), pt(0, 10)]),
                )]),
            ),
        ],
    }
}

#[test]
fn find_layer_exact_match() {
    let map = sample_map();
    let l = find_layer(&map, "Pfufu").unwrap();
    assert_eq!(l.name, "Pfufu");
}

#[test]
fn find_layer_is_case_sensitive() {
    let map = sample_map();
    let e = find_layer(&map, "pfufu").unwrap_err();
    assert!(matches!(e, MapError::NotFoundError { ref what, ref name }
        if what == "layer" && name == "pfufu"));
}

#[test]
fn find_layer_first_match_wins() {
    let map = MapData {
        width: 1,
        height: 1,
        layers: vec![
            layer("Twin", Some(vec![object("first", 1, 1, None)])),
            layer("Twin", Some(vec![object("second", 2, 2, None)])),
        ],
    };
    let l = find_layer(&map, "Twin").unwrap();
    assert_eq!(l.objects.as_ref().unwrap()[0].name, "first");
}

#[test]
fn starting_point_returns_spawn_anchor() {
    let map = sample_map();
    assert_eq!(starting_point(&map).unwrap(), pt(100, 200));
}

#[test]
fn starting_point_without_layer_fails() {
    let map = MapData { width: 1, height: 1, layers: vec![layer("Ground", None)] };
    let e = starting_point(&map).unwrap_err();
    assert!(matches!(e, MapError::NotFoundError { ref what, ref name }
        if what == "layer" && name == "Starting Point"));
}

#[test]
fn starting_point_without_objects_fails() {
    let map = MapData {
        width: 1,
        height: 1,
        layers: vec![layer("Starting Point", Some(vec![]))],
    };
    let e = starting_point(&map).unwrap_err();
    assert!(matches!(e, MapError::NotFoundError { ref what, ref name }
        if what == "object" && name == "Starting Point"));
}

#[test]
fn centroid_of_rectangle_is_exact_center() {
    // Absolute corners (10, 20) and (20, 30): center (15, 25), exactly.
    let map = sample_map();
    assert_eq!(centroid_of(&map, "Pfufu").unwrap(), pt(15, 25));
}

#[test]
fn centroid_of_odd_span_rounds_down() {
    // Absolute corners (0, 0) and (5, 5): the true center (2.5, 2.5) is not
    // a whole map unit; halving rounds toward negative infinity.
    let map = MapData {
        width: 1,
        height: 1,
        layers: vec![layer(
            "Spot",
            Some(vec![object(
                "spot",
                0,
                0,
                Some(vec![pt(0, 0), pt(5, 0), pt(5, 5), pt(0, 5)]),
            )]),
        )],
    };
    assert_eq!(centroid_of(&map, "Spot").unwrap(), pt(2, 2));
}

#[test]
fn centroid_of_uses_bounding_box_midpoint() {
    // A concave arrowhead: the bounding-box midpoint, not the area-weighted
    // centroid, and not a vertex.
    let map = MapData {
        width: 1,
        height: 1,
        layers: vec![layer(
            "Arrow",
            Some(vec![object(
                "arrow",
                0,
                0,
                Some(vec![pt(0, 0), pt(8, 4), pt(0, 8), pt(2, 4)]),
            )]),
        )],
    };
    assert_eq!(centroid_of(&map, "Arrow").unwrap(), pt(4, 4));
}

#[test]
fn centroid_of_without_polygon_fails() {
    let map = sample_map();
    let e = centroid_of(&map, "Starting Point").unwrap_err();
    assert!(matches!(e, MapError::NotFoundError { ref what, ref name }
        if what == "polygon" && name == "Starting Point"));
}

#[test]
fn centroid_of_empty_polygon_fails() {
    let map = MapData {
        width: 1,
        height: 1,
        layers: vec![layer("Hollow", Some(vec![object("hollow", 0, 0, Some(vec![]))]))],
    };
    let e = centroid_of(&map, "Hollow").unwrap_err();
    assert!(matches!(e, MapError::NotFoundError { ref what, ref name }
        if what == "polygon" && name == "Hollow"));
}

#[test]
fn map_boundary_converts_to_absolute() {
    let map = sample_map();
    let b = map_boundary(&map).unwrap();
    assert_eq!(b, vec![pt(2, 3), pt(10, 3), pt(10, 11), pt(2, 11)]);
}

#[test]
fn map_boundary_missing_layer_fails_not_empty() {
    let map = MapData { width: 1, height: 1, layers: vec![layer("Ground", None)] };
    let r = map_boundary(&map);
    let e = r.unwrap_err();
    assert!(matches!(e, MapError::NotFoundError { ref what, ref name }
        if what == "layer" && name == "Map Boundaries"));
}

#[test]
fn boundary_feeds_containment() {
    let map = sample_map();
    let b = map_boundary(&map).unwrap();
    assert!(contains(&pt(5, 5), &b));
    assert!(!contains(&pt(1, 5), &b));
    assert!(!contains(&pt(11, 5), &b));
}

#[test]
fn normalize_flips_anchor_y() {
    // An object at y = 0 with map height H lands at y = H.
    let map = MapData {
        width: 32,
        height: 32,
        layers: vec![layer("Things", Some(vec![object("thing", 7, 0, None)]))],
    };
    let n = normalize(&map, 1024);
    let o = &n.layers[0].objects.as_ref().unwrap()[0];
    assert_eq!(o.y, 1024);
    assert_eq!(o.x, 7);
}

#[test]
fn normalize_negates_polygon_offsets() {
    // A polygon point at relative y = 5 becomes y = -5, independent of the
    // object's own y.
    let map = MapData {
        width: 32,
        height: 32,
        layers: vec![layer(
            "Things",
            Some(vec![object("thing", 7, 300, Some(vec![pt(1, 5), pt(2, -4)]))]),
        )],
    };
    let n = normalize(&map, 1024);
    let o = &n.layers[0].objects.as_ref().unwrap()[0];
    assert_eq!(o.y, 724);
    let p = o.polygon.as_ref().unwrap();
    assert_eq!(p[0], pt(1, -5));
    assert_eq!(p[1], pt(2, 4));
}

#[test]
fn normalize_preserves_everything_but_y() {
    let map = sample_map();
    let n = normalize(&map, 1024);
    assert_eq!(n.width, map.width);
    assert_eq!(n.height, map.height);
    assert_eq!(n.layers.len(), map.layers.len());
    for (l, nl) in map.layers.iter().zip(n.layers.iter()) {
        assert_eq!(nl.name, l.name);
        assert_eq!(nl.objects.is_some(), l.objects.is_some());
        if let (Some(os), Some(ns)) = (&l.objects, &nl.objects) {
            assert_eq!(ns.len(), os.len());
            for (o, no) in os.iter().zip(ns.iter()) {
                assert_eq!(no.name, o.name);
                assert_eq!(no.ellipse, o.ellipse);
                assert_eq!(no.width, o.width);
                assert_eq!(no.height, o.height);
                assert_eq!(no.x, o.x);
                assert_eq!(no.y, 1024 - o.y);
                assert_eq!(no.polygon.is_some(), o.polygon.is_some());
                if let (Some(ps), Some(nps)) = (&o.polygon, &no.polygon) {
                    assert_eq!(nps.len(), ps.len());
                    for (p, np) in ps.iter().zip(nps.iter()) {
                        assert_eq!(np.x, p.x);
                        assert_eq!(np.y, -p.y);
                    }
                }
            }
        }
    }
}

#[test]
fn normalized_boundary_still_resolves() {
    // The pipeline end to end: normalize, then resolve the boundary and
    // query containment in the flipped system.
    let map = sample_map();
    let n = normalize(&map, 32);
    let b = map_boundary(&n).unwrap();
    // Anchor (2, 3) flips to (2, 29); offsets (dx, dy) become (dx, -dy).
    assert_eq!(b, vec![pt(2, 29), pt(10, 29), pt(10, 21), pt(2, 21)]);
    assert!(contains(&pt(5, 25), &b));
    assert!(!contains(&pt(5, 5), &b));
}
