//! The scene data model shared by the parser and the rasterizer, and the
//! error taxonomy of the pipeline.

use vstd::prelude::*;

verus! {

/// Largest magnitude (in subpixel units, 256 per pixel) a resolved circle
/// coordinate or radius may have; keeps every squared distance the
/// rasterizer forms inside `i64`.
pub const COORD_LIMIT: i64 = 0x200_0000;

/// A color with straight (non-premultiplied) alpha; the pixel buffer stores
/// the premultiplied form.
#[derive(Clone, Copy, PartialEq, Eq, Structural, Debug)]
pub struct Rgba {
    pub red: u8,
    pub green: u8,
    pub blue: u8,
    pub alpha: u8,
}

/// A filled circle with center and radius resolved to canvas space, in
/// subpixel units: one pixel is 256 subunits, so the center of pixel
/// `(x, y)` lies at `(256 x + 128, 256 y + 128)`.
#[derive(Clone, Copy, PartialEq, Eq, Structural, Debug)]
pub struct Circle {
    pub cx: i64,
    pub cy: i64,
    pub radius: i64,
    pub fill: Rgba,
}

/// Geometry within the bounds the rasterizer's arithmetic needs.
pub open spec fn circle_wf(c: Circle) -> bool {
    &&& -COORD_LIMIT <= c.cx <= COORD_LIMIT
    &&& -COORD_LIMIT <= c.cy <= COORD_LIMIT
    &&& 0 <= c.radius <= COORD_LIMIT
}

/// A parsed, validated scene: a canvas size in device pixels and the
/// primitives to paint, in paint order.
pub struct Scene {
    pub width: u32,
    pub height: u32,
    pub circles: Vec<Circle>,
}

impl Scene {
    /// Every primitive's geometry is within the rasterizer's bounds.
    pub open spec fn wf(&self) -> bool {
        forall|i: int| 0 <= i < self.circles@.len() ==> circle_wf(#[trigger] self.circles@[i])
    }
}

/// Why a descriptor was rejected.
#[derive(Clone, Copy, PartialEq, Eq, Structural, Debug)]
pub enum ParseError {
    /// The markup does not follow the supported grammar.
    MalformedMarkup,
    /// The descriptor does not start with the expected root element.
    MissingRoot,
    /// The declared canvas width or height is zero or negative.
    NonPositiveDimensions,
    /// A dimension or a primitive's resolved geometry is out of range.
    InvalidGeometry,
}

/// Why rendering a scene failed.
#[derive(Clone, Copy, PartialEq, Eq, Structural, Debug)]
pub enum RenderError {
    /// The canvas is empty or larger than the pixel-count cap.
    AllocationError,
    /// Serializing the pixel buffer failed; the verified encoder never
    /// reports it.
    EncodingError,
}

} // verus!
