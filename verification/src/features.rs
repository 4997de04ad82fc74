//! Feature extraction from named layers: the bounding-box-midpoint centroid
//! of a polygonal object, and the absolute-coordinate boundary polygon of
//! the map's dedicated boundary layer.
//!
//! Polygon points are stored relative to their object's anchor; both
//! operations first convert every point to absolute coordinates by adding
//! the anchor, so no geometric test ever mixes the two conventions.

use vstd::prelude::*;
use crate::model::{MapData, Layer, Object, Point, MapError, ANCHOR_LIMIT, map_bounded,
    object_bounded, point_bounded};
use crate::locate::{has_layer, is_first_match, first_object_missing, find_layer};

verus! {

/// Whether the object has no polygon points to take a feature from.
pub open spec fn polygon_missing(o: Object) -> bool {
    o.polygon is None || o.polygon.unwrap()@.len() == 0
}

/// The absolute x coordinates of the object's polygon points.
pub open spec fn abs_xs(o: Object) -> Seq<int> {
    o.polygon.unwrap()@.map_values(|p: Point| o.x + p.x)
}

/// The absolute y coordinates of the object's polygon points.
pub open spec fn abs_ys(o: Object) -> Seq<int> {
    o.polygon.unwrap()@.map_values(|p: Point| o.y + p.y)
}

/// Least element of a non-empty integer sequence.
pub open spec fn seq_min(s: Seq<int>) -> int
    recommends
        s.len() > 0,
    decreases s.len(),
{
    if s.len() <= 1 {
        s[0]
    } else {
        let rest = seq_min(s.drop_last());
        if s.last() < rest {
            s.last()
        } else {
            rest
        }
    }
}

/// Greatest element of a non-empty integer sequence.
pub open spec fn seq_max(s: Seq<int>) -> int
    recommends
        s.len() > 0,
    decreases s.len(),
{
    if s.len() <= 1 {
        s[0]
    } else {
        let rest = seq_max(s.drop_last());
        if s.last() > rest {
            s.last()
        } else {
            rest
        }
    }
}

/// The x of the bounding-box midpoint of the object's absolute polygon
/// points; the division rounds toward negative infinity.
pub open spec fn bbox_mid_x(o: Object) -> int {
    (seq_min(abs_xs(o)) + seq_max(abs_xs(o))) / 2
}

/// The y of the bounding-box midpoint of the object's absolute polygon
/// points; the division rounds toward negative infinity.
pub open spec fn bbox_mid_y(o: Object) -> int {
    (seq_min(abs_ys(o)) + seq_max(abs_ys(o))) / 2
}

/// When a polygon feature cannot be extracted from the named layer: the
/// layer is absent, its first object is absent, or that object's polygon is
/// absent or empty.
pub open spec fn polygon_feature_missing(ls: Seq<Layer>, name: Seq<char>) -> bool {
    !has_layer(ls, name) || (exists|i: int|
        #[trigger] is_first_match(ls, name, i) && (first_object_missing(ls[i])
            || polygon_missing(ls[i].objects.unwrap()@[0])))
}

/// What a failed polygon-feature lookup reports: which of the layer, its
/// first object, or the object's polygon was missing, and under which name
/// it was sought.
pub open spec fn polygon_feature_error(ls: Seq<Layer>, name: Seq<char>, e: MapError) -> bool {
    &&& e matches MapError::NotFoundError { what, name: n } && n@ == name && (what@ == "layer"@
        <==> !has_layer(ls, name)) && (what@ == "object"@ ==> (exists|i: int|
        #[trigger] is_first_match(ls, name, i) && first_object_missing(ls[i]))) && (what@
        == "polygon"@ ==> (exists|i: int|
        #[trigger] is_first_match(ls, name, i) && !first_object_missing(ls[i]) && polygon_missing(
            ls[i].objects.unwrap()@[0],
        ))) && (what@ == "layer"@ || what@ == "object"@ || what@ == "polygon"@)
}

/// Whether `pts` is the object's polygon converted to absolute coordinates,
/// in the original point order.
pub open spec fn absolute_polygon(o: Object, pts: Seq<Point>) -> bool {
    &&& pts.len() == o.polygon.unwrap()@.len()
    &&& forall|k: int|
        0 <= k < pts.len() ==> (#[trigger] pts[k]).x == o.x + o.polygon.unwrap()@[k].x && pts[k].y
            == o.y + o.polygon.unwrap()@[k].y
}

proof fn lemma_feature_literals()
    ensures
        "layer"@ != "object"@,
        "layer"@ != "polygon"@,
        "object"@ != "polygon"@,
{
    reveal_strlit("layer");
    reveal_strlit("object");
    reveal_strlit("polygon");
    assert("layer"@.len() == 5 && "object"@.len() == 6 && "polygon"@.len() == 7);
}

/// On an axis-aligned rectangle the bounding-box midpoint is the exact
/// geometric center: the extrema are the two opposite corners, and when
/// each coordinate pair sums to an even number the halving loses nothing.
pub proof fn lemma_rectangle_centroid(o: Object, a: int, b: int, a2: int, b2: int)
    requires
        o.polygon is Some,
        o.polygon.unwrap()@.len() == 4,
        o.polygon.unwrap()@[0].x == a && o.polygon.unwrap()@[0].y == b,
        o.polygon.unwrap()@[1].x == a2 && o.polygon.unwrap()@[1].y == b,
        o.polygon.unwrap()@[2].x == a2 && o.polygon.unwrap()@[2].y == b2,
        o.polygon.unwrap()@[3].x == a && o.polygon.unwrap()@[3].y == b2,
        a <= a2,
        b <= b2,
        (2 * o.x + a + a2) % 2 == 0,
        (2 * o.y + b + b2) % 2 == 0,
    ensures
        seq_min(abs_xs(o)) == o.x + a && seq_max(abs_xs(o)) == o.x + a2,
        seq_min(abs_ys(o)) == o.y + b && seq_max(abs_ys(o)) == o.y + b2,
        2 * bbox_mid_x(o) == (o.x + a) + (o.x + a2),
        2 * bbox_mid_y(o) == (o.y + b) + (o.y + b2),
{
    let x1 = seq![o.x + a];
    let x2 = seq![o.x + a, o.x + a2];
    let x3 = seq![o.x + a, o.x + a2, o.x + a2];
    let x4 = seq![o.x + a, o.x + a2, o.x + a2, o.x + a];
    assert(abs_xs(o) =~= x4);
    assert(x4.drop_last() =~= x3);
    assert(x3.drop_last() =~= x2);
    assert(x2.drop_last() =~= x1);
    assert(seq_min(x1) == o.x + a && seq_max(x1) == o.x + a);
    assert(seq_min(x2) == o.x + a && seq_max(x2) == o.x + a2);
    assert(seq_min(x3) == o.x + a && seq_max(x3) == o.x + a2);
    assert(seq_min(x4) == o.x + a && seq_max(x4) == o.x + a2);
    let y1 = seq![o.y + b];
    let y2 = seq![o.y + b, o.y + b];
    let y3 = seq![o.y + b, o.y + b, o.y + b2];
    let y4 = seq![o.y + b, o.y + b, o.y + b2, o.y + b2];
    assert(abs_ys(o) =~= y4);
    assert(y4.drop_last() =~= y3);
    assert(y3.drop_last() =~= y2);
    assert(y2.drop_last() =~= y1);
    assert(seq_min(y1) == o.y + b && seq_max(y1) == o.y + b);
    assert(seq_min(y2) == o.y + b && seq_max(y2) == o.y + b);
    assert(seq_min(y3) == o.y + b && seq_max(y3) == o.y + b2);
    assert(seq_min(y4) == o.y + b && seq_max(y4) == o.y + b2);
    vstd::arithmetic::div_mod::lemma_fundamental_div_mod(2 * o.x + a + a2, 2);
    vstd::arithmetic::div_mod::lemma_fundamental_div_mod(2 * o.y + b + b2, 2);
}

/// The location of the first object of the named layer: the midpoint of the
/// bounding box of its polygon's absolute points. This is the cheap
/// bounding-box approximation, not the area-weighted polygon centroid, and
/// is kept exactly so; halving rounds toward negative infinity.
pub fn centroid_of(map: &MapData, layer_name: &str) -> (r: Result<Point, MapError>)
    requires
        map_bounded(*map, ANCHOR_LIMIT as int),
    ensures
        match r {
            Ok(c) => exists|i: int|
                #[trigger] is_first_match(map.layers@, layer_name@, i) && !first_object_missing(
                    map.layers@[i],
                ) && !polygon_missing(map.layers@[i].objects.unwrap()@[0]) && c.x == bbox_mid_x(
                    map.layers@[i].objects.unwrap()@[0],
                ) && c.y == bbox_mid_y(map.layers@[i].objects.unwrap()@[0]),
            Err(e) => polygon_feature_missing(map.layers@, layer_name@) && polygon_feature_error(
                map.layers@,
                layer_name@,
                e,
            ),
        },
{
    proof {
        lemma_feature_literals();
    }
    let layer = match find_layer(map, layer_name) {
        Ok(l) => l,
        Err(e) => {
            return Err(e);
        },
    };
    let ghost li = choose|i: int|
        #[trigger] is_first_match(map.layers@, layer_name@, i) && *layer == map.layers@[i];
    let objects = match &layer.objects {
        Some(objects) if objects.len() > 0 => objects,
        _ => {
            return Err(
                MapError::NotFoundError { what: "object".to_owned(), name: layer_name.to_owned() },
            );
        },
    };
    let obj = &objects[0];
    let poly = match &obj.polygon {
        Some(poly) if poly.len() > 0 => poly,
        _ => {
            return Err(
                MapError::NotFoundError { what: "polygon".to_owned(), name: layer_name.to_owned() },
            );
        },
    };
    proof {
        assert(object_bounded(map.layers@[li].objects.unwrap()@[0], ANCHOR_LIMIT as int));
    }
    let m = poly.len();
    let mut min_x: i64 = obj.x + poly[0].x;
    let mut max_x: i64 = min_x;
    let mut min_y: i64 = obj.y + poly[0].y;
    let mut max_y: i64 = min_y;
    proof {
        assert(abs_xs(*obj).take(1) =~= seq![abs_xs(*obj)[0]]);
        assert(abs_ys(*obj).take(1) =~= seq![abs_ys(*obj)[0]]);
    }
    let mut k: usize = 1;
    while k < m
        invariant
            1 <= k <= m,
            m == poly@.len(),
            obj.polygon == Some(*poly),
            object_bounded(*obj, ANCHOR_LIMIT as int),
            -2 * ANCHOR_LIMIT <= min_x <= 2 * ANCHOR_LIMIT,
            -2 * ANCHOR_LIMIT <= max_x <= 2 * ANCHOR_LIMIT,
            -2 * ANCHOR_LIMIT <= min_y <= 2 * ANCHOR_LIMIT,
            -2 * ANCHOR_LIMIT <= max_y <= 2 * ANCHOR_LIMIT,
            min_x as int == seq_min(abs_xs(*obj).take(k as int)),
            max_x as int == seq_max(abs_xs(*obj).take(k as int)),
            min_y as int == seq_min(abs_ys(*obj).take(k as int)),
            max_y as int == seq_max(abs_ys(*obj).take(k as int)),
        decreases m - k,
    {
        let ax = obj.x + poly[k].x;
        let ay = obj.y + poly[k].y;
        proof {
            let sx = abs_xs(*obj);
            let sy = abs_ys(*obj);
            assert(sx.take(k as int + 1).drop_last() =~= sx.take(k as int));
            assert(sy.take(k as int + 1).drop_last() =~= sy.take(k as int));
            assert(sx.take(k as int + 1).last() == sx[k as int]);
            assert(sy.take(k as int + 1).last() == sy[k as int]);
            assert(sx[k as int] == obj.x + obj.polygon.unwrap()@[k as int].x);
            assert(sy[k as int] == obj.y + obj.polygon.unwrap()@[k as int].y);
        }
        if ax < min_x {
            min_x = ax;
        }
        if ax > max_x {
            max_x = ax;
        }
        if ay < min_y {
            min_y = ay;
        }
        if ay > max_y {
            max_y = ay;
        }
        k = k + 1;
    }
    proof {
        assert(abs_xs(*obj).take(m as int) =~= abs_xs(*obj));
        assert(abs_ys(*obj).take(m as int) =~= abs_ys(*obj));
    }
    let sx = min_x + max_x;
    let sy = min_y + max_y;
    let cx = sx.checked_div_euclid(2).unwrap();
    let cy = sy.checked_div_euclid(2).unwrap();
    proof {
        assert(is_first_match(map.layers@, layer_name@, li) && !first_object_missing(
            map.layers@[li],
        ) && !polygon_missing(map.layers@[li].objects.unwrap()@[0]));
        assert(map.layers@[li].objects.unwrap()@[0] == *obj);
    }
    Ok(Point { x: cx, y: cy })
}

/// The absolute-coordinate polygon of the first object of the layer named
/// "Map Boundaries", in the original point order; that order defines edge
/// adjacency for containment testing.
pub fn map_boundary(map: &MapData) -> (r: Result<Vec<Point>, MapError>)
    requires
        map_bounded(*map, ANCHOR_LIMIT as int),
    ensures
        match r {
            Ok(v) => v@.len() > 0 && exists|i: int|
                #[trigger] is_first_match(map.layers@, "Map Boundaries"@, i)
                    && !first_object_missing(map.layers@[i]) && !polygon_missing(
                    map.layers@[i].objects.unwrap()@[0],
                ) && absolute_polygon(map.layers@[i].objects.unwrap()@[0], v@),
            Err(e) => polygon_feature_missing(map.layers@, "Map Boundaries"@)
                && polygon_feature_error(map.layers@, "Map Boundaries"@, e),
        },
{
    proof {
        lemma_feature_literals();
    }
    let layer = match find_layer(map, "Map Boundaries") {
        Ok(l) => l,
        Err(e) => {
            return Err(e);
        },
    };
    let ghost li = choose|i: int|
        #[trigger] is_first_match(map.layers@, "Map Boundaries"@, i) && *layer == map.layers@[i];
    let objects = match &layer.objects {
        Some(objects) if objects.len() > 0 => objects,
        _ => {
            return Err(
                MapError::NotFoundError {
                    what: "object".to_owned(),
                    name: "Map Boundaries".to_owned(),
                },
            );
        },
    };
    let obj = &objects[0];
    let poly = match &obj.polygon {
        Some(poly) if poly.len() > 0 => poly,
        _ => {
            return Err(
                MapError::NotFoundError {
                    what: "polygon".to_owned(),
                    name: "Map Boundaries".to_owned(),
                },
            );
        },
    };
    proof {
        assert(object_bounded(map.layers@[li].objects.unwrap()@[0], ANCHOR_LIMIT as int));
    }
    let m = poly.len();
    let mut pts: Vec<Point> = Vec::new();
    let mut k: usize = 0;
    while k < m
        invariant
            k <= m,
            m == poly@.len(),
            obj.polygon == Some(*poly),
            object_bounded(*obj, ANCHOR_LIMIT as int),
            pts@.len() == k,
            forall|j: int|
                0 <= j < k ==> (#[trigger] pts@[j]).x == obj.x + obj.polygon.unwrap()@[j].x
                    && pts@[j].y == obj.y + obj.polygon.unwrap()@[j].y,
        decreases m - k,
    {
        proof {
            assert(point_bounded(obj.polygon.unwrap()@[k as int], ANCHOR_LIMIT as int));
        }
        let p = Point { x: obj.x + poly[k].x, y: obj.y + poly[k].y };
        pts.push(p);
        k = k + 1;
    }
    proof {
        assert(is_first_match(map.layers@, "Map Boundaries"@, li) && !first_object_missing(
            map.layers@[li],
        ) && !polygon_missing(map.layers@[li].objects.unwrap()@[0]));
        assert(map.layers@[li].objects.unwrap()@[0] == *obj);
        assert(absolute_polygon(map.layers@[li].objects.unwrap()@[0], pts@));
    }
    Ok(pts)
}

} // verus!
