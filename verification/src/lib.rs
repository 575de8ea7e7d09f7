//! A small vector-graphics rendering pipeline: a parser for a circle-only
//! markup subset, an integer rasterizer with anti-aliased edge coverage, and
//! a lossless PNG encoder, each with a full functional contract.

use vstd::prelude::*;

pub mod codec;
pub mod laws;
pub mod model;
pub mod parse;
pub mod raster;

use crate::codec::{encode_png, png_bytes, EncodedImage};
use crate::model::{Circle, ParseError, RenderError, Scene};
use crate::parse::{parse, spec_parse};
use crate::raster::{painted_bytes, rasterize, MAX_AREA};
use vstd::string::StringSliceAdditionalSpecFns;

verus! {

/// Why a descriptor could not be turned into an image.
#[derive(Clone, Copy, PartialEq, Eq, Structural, Debug)]
pub enum ImageError {
    Parse(ParseError),
    Render(RenderError),
}

/// Rasterize a scene and encode it: the image is the PNG encoding of the
/// scene's circles painted in order on a transparent canvas of the scene's
/// size. An empty canvas or one past the area cap is an allocation error;
/// the verified encoder itself cannot fail.
pub fn render(scene: &Scene) -> (r: Result<EncodedImage, RenderError>)
    requires
        scene.wf(),
    ensures
        match r {
            Ok(img) => {
                &&& scene.width > 0 && scene.height > 0
                &&& (scene.width as int) * (scene.height as int) <= MAX_AREA
                &&& img.bytes@ == png_bytes(
                    scene.width,
                    scene.height,
                    painted_bytes(scene.circles@, scene.width as int, scene.height as int),
                )
            },
            Err(e) => {
                &&& e == RenderError::AllocationError
                &&& (scene.width == 0 || scene.height == 0 || (scene.width as int) * (
                scene.height as int) > MAX_AREA)
            },
        },
{
    let buf = match rasterize(scene) {
        Ok(b) => b,
        Err(e) => {
            return Err(e);
        },
    };
    let img = encode_png(&buf);
    proof {
        assert(buf@ == painted_bytes(scene.circles@, scene.width as int, scene.height as int));
    }
    Ok(img)
}

/// The whole pipeline: parse a descriptor, then render the scene it
/// describes. The encoded bytes are pinned down by the descriptor alone.
pub fn generate(descriptor: &str) -> (r: Result<EncodedImage, ImageError>)
    ensures
        match r {
            Ok(img) => match spec_parse(descriptor.spec_bytes()) {
                Ok((w, h, cs)) => {
                    &&& w > 0 && h > 0 && (w as int) * (h as int) <= MAX_AREA
                    &&& img.bytes@ == png_bytes(w, h, painted_bytes(cs, w as int, h as int))
                },
                Err(_) => false,
            },
            Err(ImageError::Parse(e)) => spec_parse(descriptor.spec_bytes()) == Err::<
                (u32, u32, Seq<Circle>),
                ParseError,
            >(e),
            Err(ImageError::Render(e)) => {
                &&& e == RenderError::AllocationError
                &&& match spec_parse(descriptor.spec_bytes()) {
                    Ok((w, h, _)) => (w as int) * (h as int) > MAX_AREA,
                    Err(_) => false,
                }
            },
        },
{
    let scene = match parse(descriptor) {
        Ok(s) => s,
        Err(e) => {
            return Err(ImageError::Parse(e));
        },
    };
    match render(&scene) {
        Ok(img) => Ok(img),
        Err(e) => Err(ImageError::Render(e)),
    }
}

} // verus!
