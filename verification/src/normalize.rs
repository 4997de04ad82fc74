//! Coordinate-system normalization: from top-left-origin y-down to
//! bottom-left-origin y-up.
//!
//! Every object anchor's y becomes `map_height - y`. Every polygon point's
//! y becomes `-y` — not `map_height - y` — because polygon points are
//! anchor-relative offsets, and flipping the offset's sign mirrors it
//! around the already-flipped anchor. No x value, size, flag or name is
//! altered. The input is not mutated; a fresh map document is returned.
//! The transform must not be applied twice to the same document.

use vstd::prelude::*;
use crate::model::{MapData, Layer, Object, Point, COORD_LIMIT, map_bounded, layer_bounded,
    object_bounded, point_bounded};

verus! {

/// How a normalized object relates to its source: the anchor's y is flipped
/// to `h - y`, each polygon point's y keeps its magnitude with the sign
/// flipped, and every other field is carried through unchanged.
pub open spec fn object_normalized(o: Object, n: Object, h: int) -> bool {
    &&& n.name@ == o.name@
    &&& n.ellipse == o.ellipse
    &&& n.width == o.width
    &&& n.height == o.height
    &&& n.x == o.x
    &&& n.y == h - o.y
    &&& (o.polygon is Some <==> n.polygon is Some)
    &&& o.polygon is Some ==> {
        let op = o.polygon.unwrap()@;
        let np = n.polygon.unwrap()@;
        np.len() == op.len() && forall|k: int|
            0 <= k < op.len() ==> (#[trigger] np[k]).x == op[k].x && np[k].y == -op[k].y
    }
}

/// A normalized layer keeps its name and object count; each object is
/// normalized in place order.
pub open spec fn layer_normalized(l: Layer, n: Layer, h: int) -> bool {
    &&& n.name@ == l.name@
    &&& (l.objects is Some <==> n.objects is Some)
    &&& l.objects is Some ==> {
        let os = l.objects.unwrap()@;
        let ns = n.objects.unwrap()@;
        ns.len() == os.len() && forall|k: int|
            0 <= k < os.len() ==> object_normalized(os[k], #[trigger] ns[k], h)
    }
}

/// A normalized map keeps its dimensions, layer count and layer order; each
/// layer is normalized in place order.
pub open spec fn map_normalized(m: MapData, n: MapData, h: int) -> bool {
    &&& n.width == m.width
    &&& n.height == m.height
    &&& n.layers@.len() == m.layers@.len()
    &&& forall|i: int|
        0 <= i < m.layers@.len() ==> layer_normalized(m.layers@[i], #[trigger] n.layers@[i], h)
}

/// Builds the map with the coordinate system flipped from top-left-origin
/// y-down to bottom-left-origin y-up, for a map of height `map_height`.
pub fn normalize(map: &MapData, map_height: i64) -> (r: MapData)
    requires
        map_bounded(*map, COORD_LIMIT as int),
        -COORD_LIMIT <= map_height <= COORD_LIMIT,
    ensures
        map_normalized(*map, r, map_height as int),
        map_bounded(r, 2 * COORD_LIMIT as int),
{
    let mut nlayers: Vec<Layer> = Vec::new();
    let ln = map.layers.len();
    let mut i: usize = 0;
    while i < ln
        invariant
            i <= ln,
            ln == map.layers@.len(),
            map_bounded(*map, COORD_LIMIT as int),
            -COORD_LIMIT <= map_height <= COORD_LIMIT,
            nlayers@.len() == i,
            forall|a: int|
                0 <= a < i ==> layer_normalized(
                    map.layers@[a],
                    #[trigger] nlayers@[a],
                    map_height as int,
                ),
            forall|a: int|
                0 <= a < i ==> layer_bounded(#[trigger] nlayers@[a], 2 * COORD_LIMIT as int),
        decreases ln - i,
    {
        let layer = &map.layers[i];
        proof {
            assert(layer_bounded(map.layers@[i as int], COORD_LIMIT as int));
        }
        let nobjects: Option<Vec<Object>> = match &layer.objects {
            None => None,
            Some(objects) => {
                let on = objects.len();
                let mut nobjs: Vec<Object> = Vec::new();
                let mut j: usize = 0;
                while j < on
                    invariant
                        j <= on,
                        on == objects@.len(),
                        layer.objects == Some(*objects),
                        layer_bounded(*layer, COORD_LIMIT as int),
                        -COORD_LIMIT <= map_height <= COORD_LIMIT,
                        nobjs@.len() == j,
                        forall|b: int|
                            0 <= b < j ==> object_normalized(
                                objects@[b],
                                #[trigger] nobjs@[b],
                                map_height as int,
                            ),
                        forall|b: int|
                            0 <= b < j ==> object_bounded(#[trigger] nobjs@[b], 2 * COORD_LIMIT as int),
                    decreases on - j,
                {
                    let o = &objects[j];
                    proof {
                        assert(object_bounded(layer.objects.unwrap()@[j as int], COORD_LIMIT as int));
                        assert(object_bounded(objects@[j as int], COORD_LIMIT as int));
                    }
                    let npolygon: Option<Vec<Point>> = match &o.polygon {
                        None => None,
                        Some(pts) => {
                            let pn = pts.len();
                            let mut npts: Vec<Point> = Vec::new();
                            let mut k: usize = 0;
                            while k < pn
                                invariant
                                    k <= pn,
                                    pn == pts@.len(),
                                    o.polygon == Some(*pts),
                                    object_bounded(*o, COORD_LIMIT as int),
                                    npts@.len() == k,
                                    forall|c: int|
                                        0 <= c < k ==> (#[trigger] npts@[c]).x == pts@[c].x
                                            && npts@[c].y == -pts@[c].y,
                                    forall|c: int|
                                        0 <= c < k ==> point_bounded(
                                            #[trigger] npts@[c],
                                            2 * COORD_LIMIT as int,
                                        ),
                                decreases pn - k,
                            {
                                proof {
                                    assert(point_bounded(
                                        o.polygon.unwrap()@[k as int],
                                        COORD_LIMIT as int,
                                    ));
                                }
                                let p = &pts[k];
                                npts.push(Point { x: p.x, y: -p.y });
                                k = k + 1;
                            }
                            Some(npts)
                        },
                    };
                    let nobj = Object {
                        name: o.name.clone(),
                        ellipse: o.ellipse,
                        height: o.height,
                        width: o.width,
                        polygon: npolygon,
                        x: o.x,
                        y: map_height - o.y,
                    };
                    proof {
                        assert(object_normalized(objects@[j as int], nobj, map_height as int));
                        assert(object_bounded(nobj, 2 * COORD_LIMIT as int));
                    }
                    nobjs.push(nobj);
                    j = j + 1;
                }
                Some(nobjs)
            },
        };
        let nlayer = Layer { name: layer.name.clone(), objects: nobjects };
        proof {
            assert(layer_normalized(map.layers@[i as int], nlayer, map_height as int));
            assert(layer_bounded(nlayer, 2 * COORD_LIMIT as int));
        }
        nlayers.push(nlayer);
        i = i + 1;
    }
    MapData { width: map.width, height: map.height, layers: nlayers }
}

} // verus!
