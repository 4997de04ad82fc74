//! Named-layer lookup and the starting-point feature.
//!
//! Lookups are exact, case-sensitive string matches against layer names;
//! the first match in layer order wins. A missing layer or object is a
//! loud, typed failure, never a silent default.

use vstd::prelude::*;
use crate::model::{MapData, Layer, Point, MapError};

verus! {

/// Whether some layer in `layers` is named `name`.
pub open spec fn has_layer(layers: Seq<Layer>, name: Seq<char>) -> bool {
    exists|i: int| 0 <= i < layers.len() && (#[trigger] layers[i]).name@ == name
}

/// Whether `i` is the index of the first layer named `name`.
pub open spec fn is_first_match(layers: Seq<Layer>, name: Seq<char>, i: int) -> bool {
    &&& 0 <= i < layers.len()
    &&& layers[i].name@ == name
    &&& forall|j: int| 0 <= j < i ==> (#[trigger] layers[j]).name@ != name
}

/// Whether the layer has no first object to take a feature from.
pub open spec fn first_object_missing(l: Layer) -> bool {
    l.objects is None || l.objects.unwrap()@.len() == 0
}

/// Finds the layer with the given exact, case-sensitive name; the first
/// match in layer order wins.
pub fn find_layer<'a>(map: &'a MapData, name: &str) -> (r: Result<&'a Layer, MapError>)
    ensures
        match r {
            Ok(l) => exists|i: int|
                #[trigger] is_first_match(map.layers@, name@, i) && *l == map.layers@[i],
            Err(e) => {
                &&& !has_layer(map.layers@, name@)
                &&& e matches MapError::NotFoundError { what, name: n } && what@ == "layer"@
                    && n@ == name@
            },
        },
{
    let owned: String = name.to_owned();
    let n = map.layers.len();
    let mut i: usize = 0;
    while i < n
        invariant
            n == map.layers@.len(),
            i <= n,
            owned@ == name@,
            forall|j: int| 0 <= j < i ==> (#[trigger] map.layers@[j]).name@ != name@,
        decreases n - i,
    {
        if map.layers[i].name == owned {
            proof {
                assert(is_first_match(map.layers@, name@, i as int));
            }
            return Ok(&map.layers[i]);
        }
        i = i + 1;
    }
    Err(MapError::NotFoundError { what: "layer".to_owned(), name: name.to_owned() })
}

/// The spawn location: the anchor of the first object of the layer named
/// "Starting Point", as an absolute point.
pub fn starting_point(map: &MapData) -> (r: Result<Point, MapError>)
    ensures
        match r {
            Ok(p) => exists|i: int|
                {
                    &&& #[trigger] is_first_match(map.layers@, "Starting Point"@, i)
                    &&& !first_object_missing(map.layers@[i])
                    &&& p.x == map.layers@[i].objects.unwrap()@[0].x
                    &&& p.y == map.layers@[i].objects.unwrap()@[0].y
                },
            Err(e) => {
                &&& !has_layer(map.layers@, "Starting Point"@) || (exists|i: int|
                    #[trigger] is_first_match(map.layers@, "Starting Point"@, i)
                        && first_object_missing(map.layers@[i]))
                &&& e matches MapError::NotFoundError { what, name } && name@ == "Starting Point"@
                    && (what@ == "layer"@ <==> !has_layer(map.layers@, "Starting Point"@)) && (
                what@ == "layer"@ || what@ == "object"@)
            },
        },
{
    let layer = match find_layer(map, "Starting Point") {
        Ok(l) => l,
        Err(e) => {
            return Err(e);
        },
    };
    match &layer.objects {
        Some(objects) if objects.len() > 0 => {
            let first = &objects[0];
            proof {
                let i = choose|i: int|
                    #[trigger] is_first_match(map.layers@, "Starting Point"@, i) && *layer
                        == map.layers@[i];
                assert(is_first_match(map.layers@, "Starting Point"@, i) && !first_object_missing(
                    map.layers@[i],
                ));
            }
            Ok(Point { x: first.x, y: first.y })
        },
        _ => {
            proof {
                reveal_strlit("object");
                reveal_strlit("layer");
                assert("object"@.len() == 6 && "layer"@.len() == 5);
                assert("object"@ != "layer"@);
                let i = choose|i: int|
                    #[trigger] is_first_match(map.layers@, "Starting Point"@, i) && *layer
                        == map.layers@[i];
                assert(is_first_match(map.layers@, "Starting Point"@, i) && first_object_missing(
                    map.layers@[i],
                ));
            }
            Err(
                MapError::NotFoundError {
                    what: "object".to_owned(),
                    name: "Starting Point".to_owned(),
                },
            )
        },
    }
}

} // verus!
