//! Geometry pipeline for tile-based 2D maps: a typed map document model,
//! coordinate-system normalization, named-layer lookup, feature extraction
//! (starting point, polygon centroid), boundary resolution, and ray-casting
//! point-in-polygon containment.

pub mod model;
pub mod records;
pub mod normalize;
pub mod locate;
pub mod features;
pub mod geometry;
pub mod convex;
