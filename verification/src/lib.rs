//! A verified ray-tracing core: an incrementally built bounding-volume
//! hierarchy (BVH) over triangles, with exact ray/triangle and ray/box
//! intersection kernels.
//!
//! All geometry uses bounded integer coordinates, so every kernel is exact:
//! intersection parameters are rational numbers represented as
//! numerator/denominator pairs. Callers that work in floating point quantize
//! onto the integer grid before building the tree.
use vstd::prelude::*;

pub mod bmp;
pub mod geom;
pub mod intersect;
pub mod laws;
pub mod mesh;
pub mod query;
pub mod rat;
pub mod slab;
pub mod tree;
pub mod vec3;

verus! {

/// An 8-bit-per-channel RGB color.
#[derive(Debug)]
pub struct Color {
    pub red: u8,
    pub green: u8,
    pub blue: u8,
}

/// A raster image: `rgb` holds `height` rows of `width` pixels each.
pub struct Image {
    height: u64,
    width: u64,
    rgb: Vec<Vec<Color>>,
}

} // verus!
