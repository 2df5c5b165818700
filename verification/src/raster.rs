//! A decoded picture as plain values: what this library reads of an image
//! that some other format was decoded from.

use crate::palette::Color;
use vstd::prelude::*;

verus! {

/// A pixel by its red, green, blue and alpha parts.
#[derive(Debug, Clone, Copy, PartialEq, Eq, Structural)]
pub struct Rgba {
    pub r: u8,
    pub g: u8,
    pub b: u8,
    pub a: u8,
}

impl Rgba {
    /// The colour of this pixel, without its alpha part.
    pub open spec fn rgb(self) -> Color {
        Color { r: self.r, g: self.g, b: self.b }
    }

    /// The colour of this pixel, without its alpha part.
    pub fn to_rgb(&self) -> (c: Color)
        ensures
            c == self.rgb(),
    {
        Color { r: self.r, g: self.g, b: self.b }
    }
}

/// What a picture says: its size and its pixels, row by row.
#[verifier::ext_equal]
pub struct RasterModel {
    pub width: int,
    pub height: int,
    pub pixels: Seq<Rgba>,
}

/// A picture of `width` by `height` pixels, held row by row from the top.
#[derive(Debug)]
pub struct Raster {
    width: u32,
    height: u32,
    pixels: Vec<Rgba>,
}

impl View for Raster {
    type V = RasterModel;

    closed spec fn view(&self) -> RasterModel {
        RasterModel {
            width: self.width as int,
            height: self.height as int,
            pixels: self.pixels@,
        }
    }
}

impl Raster {
    #[verifier::type_invariant]
    spec fn rectangular(&self) -> bool {
        self.pixels@.len() == self.width * self.height
    }

    /// The picture of `width` by `height` pixels with the given pixels, or
    /// nothing where their number is not that of the picture.
    pub fn new(width: u32, height: u32, pixels: Vec<Rgba>) -> (r: Option<Raster>)
        ensures
            r is Some <==> pixels@.len() == width * height,
            r matches Some(raster) ==> raster@ == (RasterModel {
                width: width as int,
                height: height as int,
                pixels: pixels@,
            }),
    {
        assert(width * height <= u64::MAX) by (nonlinear_arith)
            requires
                width <= u32::MAX,
                height <= u32::MAX,
        ;
        let area: u64 = width as u64 * height as u64;
        if pixels.len() as u64 != area {
            return None;
        }
        Some(Raster { width, height, pixels })
    }

    /// The number of pixels in a row.
    pub fn width(&self) -> (w: u32)
        ensures
            w == self@.width,
    {
        self.width
    }

    /// The number of rows.
    pub fn height(&self) -> (h: u32)
        ensures
            h == self@.height,
    {
        self.height
    }

    /// The pixels, row by row.
    pub fn pixels(&self) -> (pixels: &[Rgba])
        ensures
            pixels@ == self@.pixels,
            pixels@.len() == self@.width * self@.height,
    {
        proof {
            use_type_invariant(self);
        }
        self.pixels.as_slice()
    }
}

} // verus!
