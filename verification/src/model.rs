//! The map document model: a map is an ordered sequence of named layers, each
//! holding named objects; an object carries an anchor position, a size, an
//! optional ellipse flag and an optional polygon given relative to the anchor.
//!
//! Coordinates are whole map units (pixels). They are held as `i64`; the
//! public operations bound them so that every intermediate sum and product of
//! the pipeline fits its machine type.

use vstd::prelude::*;

verus! {

/// A point: either a polygon-relative offset or an absolute map coordinate,
/// depending on the producing context. Conversion to absolute coordinates
/// always happens at the object boundary, by adding the object's anchor.
#[derive(Clone, Copy, Debug, PartialEq, Eq, Structural)]
pub struct Point {
    pub x: i64,
    pub y: i64,
}

/// A placed feature anchored at `(x, y)` in absolute map coordinates.
/// If `polygon` is present, its points are offsets relative to the anchor.
#[derive(Clone, Debug, PartialEq)]
pub struct Object {
    pub name: String,
    pub ellipse: Option<bool>,
    pub height: i64,
    pub width: i64,
    pub polygon: Option<Vec<Point>>,
    pub x: i64,
    pub y: i64,
}

/// A named group of placed objects within a map. `objects` absent means a
/// layer with no placed objects (for example a pure tile layer).
#[derive(Clone, Debug, PartialEq)]
pub struct Layer {
    pub name: String,
    pub objects: Option<Vec<Object>>,
}

/// A 2D map of `width` by `height` tiles with an ordered sequence of layers.
#[derive(Clone, Debug, PartialEq)]
pub struct MapData {
    pub width: i64,
    pub height: i64,
    pub layers: Vec<Layer>,
}

/// Why an operation on a map failed. Errors are surfaced, never masked:
/// no component substitutes a default value for a missing resource.
#[derive(Clone, Debug, PartialEq)]
pub enum MapError {
    /// The underlying byte source could not be read or written.
    IoError,
    /// The content did not match the expected schema.
    FormatError,
    /// An expected layer, object or polygon was absent. `what` says which of
    /// the three was being sought and `name` the name it was sought under.
    NotFoundError { what: String, name: String },
}

/// Bound on the coordinates of a freshly loaded map document. Far beyond any
/// real map, and small enough that every value the pipeline derives from such
/// a map stays well inside `i64`.
pub const COORD_LIMIT: i64 = 0x0100_0000_0000_0000;

/// Bound on the coordinates of maps handed to the feature extractor and the
/// boundary resolver. Twice `COORD_LIMIT` and more, so normalized maps
/// qualify; anchor plus offset then stays below `GEOM_LIMIT`.
pub const ANCHOR_LIMIT: i64 = 0x0400_0000_0000_0000;

/// Bound on the coordinates of points handed to the containment test. The
/// exact edge comparison multiplies two differences of such coordinates, and
/// that product must fit `i128`.
pub const GEOM_LIMIT: i64 = 0x1000_0000_0000_0000;

pub open spec fn point_bounded(p: Point, b: int) -> bool {
    &&& -b <= p.x <= b
    &&& -b <= p.y <= b
}

pub open spec fn object_bounded(o: Object, b: int) -> bool {
    &&& -b <= o.x <= b
    &&& -b <= o.y <= b
    &&& o.polygon is Some ==> forall|i: int|
        0 <= i < o.polygon.unwrap()@.len() ==> point_bounded(#[trigger] o.polygon.unwrap()@[i], b)
}

pub open spec fn layer_bounded(l: Layer, b: int) -> bool {
    l.objects is Some ==> forall|i: int|
        0 <= i < l.objects.unwrap()@.len() ==> object_bounded(#[trigger] l.objects.unwrap()@[i], b)
}

pub open spec fn map_bounded(m: MapData, b: int) -> bool {
    forall|i: int| 0 <= i < m.layers@.len() ==> layer_bounded(#[trigger] m.layers@[i], b)
}

} // verus!
