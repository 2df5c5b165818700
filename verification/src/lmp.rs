//! Quake 1 style LMP image.

use crate::error::{IoErrorKind, QError, QResult};
use crate::palette::{Color, Palette, PALETTE_SIZE};
use crate::raster::Raster;
use crate::wire::{lemma_u32_le_round_trip, read_u32, u32_from_le, u32_to_le, write_u32};
use vstd::prelude::*;
use vstd::slice::{slice_subrange, slice_to_vec};

verus! {

/// What an LMP image says: its size, and one palette index for each
/// pixel, row by row.
#[verifier::ext_equal]
pub struct LmpModel {
    pub width: int,
    pub height: int,
    pub data: Seq<u8>,
}

impl LmpModel {
    /// The image that the bytes of a file spell.
    pub open spec fn parse(b: Seq<u8>) -> Result<LmpModel, QError> {
        if b.len() < 8 {
            Err(QError::IoError(IoErrorKind::UnexpectedEof))
        } else {
            let width = u32_from_le(b.subrange(0, 4));
            let height = u32_from_le(b.subrange(4, 8));
            if b.len() - 8 != width * height {
                Err(QError::InvalidLmp)
            } else {
                Ok(LmpModel { width, height, data: b.subrange(8, b.len() as int) })
            }
        }
    }

    /// The bytes that stand for this image in a file.
    pub open spec fn encoding(self) -> Seq<u8> {
        u32_to_le(self.width) + u32_to_le(self.height) + self.data
    }

    /// Where the pixel in column `x` of row `y` lies in the data.
    pub open spec fn index(self, x: int, y: int) -> int {
        y * self.width + x
    }
}

/// `i` is the first place of `c` in `colors`.
pub open spec fn is_first_index(colors: Seq<Color>, c: Color, i: int) -> bool {
    &&& 0 <= i < colors.len()
    &&& colors[i] == c
    &&& forall|j: int| 0 <= j < i ==> colors[j] != c
}

/// Quake 1 style LMP image. Does not store color values, only stores
/// indices into a color palette. (see [`Palette`])
#[derive(Debug)]
pub struct LmpImage {
    width: u32,
    height: u32,
    data: Vec<u8>,
}

impl View for LmpImage {
    type V = LmpModel;

    closed spec fn view(&self) -> LmpModel {
        LmpModel { width: self.width as int, height: self.height as int, data: self.data@ }
    }
}

/// A result with the image it holds as its model.
pub open spec fn lmp_model(r: QResult<LmpImage>) -> Result<LmpModel, QError> {
    match r {
        Ok(image) => Ok(image@),
        Err(e) => Err(e),
    }
}

/// The first place of `c` in `colors`, if it has one.
fn position_of(colors: &[Color], c: Color) -> (r: Option<usize>)
    ensures
        match r {
            Some(i) => is_first_index(colors@, c, i as int),
            None => !colors@.contains(c),
        },
{
    let mut i: usize = 0;
    while i < colors.len()
        invariant
            i <= colors@.len(),
            forall|j: int| 0 <= j < i ==> colors@[j] != c,
        decreases colors@.len() - i,
    {
        if colors[i] == c {
            return Some(i);
        }
        i += 1;
    }
    None
}

impl LmpImage {
    #[verifier::type_invariant]
    spec fn rectangular(&self) -> bool {
        self.data@.len() == self.width * self.height
    }

    /// Reads the LMP image that `bytes` hold: width and height, then one
    /// byte for each pixel.
    pub fn read(bytes: &[u8]) -> (r: QResult<LmpImage>)
        ensures
            lmp_model(r) == LmpModel::parse(bytes@),
    {
        let width = match read_u32(bytes, 0) {
            Some(v) => v,
            None => { return Err(QError::IoError(IoErrorKind::UnexpectedEof)); },
        };
        let height = match read_u32(bytes, 4) {
            Some(v) => v,
            None => { return Err(QError::IoError(IoErrorKind::UnexpectedEof)); },
        };
        assert(width * height <= u64::MAX) by (nonlinear_arith)
            requires
                width <= u32::MAX,
                height <= u32::MAX,
        ;
        let area: u64 = width as u64 * height as u64;
        if (bytes.len() - 8) as u64 != area {
            return Err(QError::InvalidLmp);
        }
        let data = slice_to_vec(slice_subrange(bytes, 8, bytes.len()));
        Ok(LmpImage { width, height, data })
    }

    /// Writes the image to `out`.
    pub fn write(&self, out: &mut Vec<u8>)
        ensures
            final(out)@ == old(out)@ + self@.encoding(),
    {
        write_u32(out, self.width);
        write_u32(out, self.height);
        out.extend_from_slice(self.data.as_slice());
        assert(out@ =~= old(out)@ + self@.encoding());
    }

    /// Creates a LMP image from a palette and some image. Returns an error
    /// if any of the image's colors are not in the palette. Each pixel gets
    /// the first index that its colour has in the palette.
    pub fn from_image(image: &Raster, palette: &Palette) -> (r: QResult<LmpImage>)
        ensures
            match r {
                Ok(lmp) => {
                    &&& lmp@.width == image@.width
                    &&& lmp@.height == image@.height
                    &&& lmp@.data.len() == image@.pixels.len()
                    &&& forall|i: int|
                        0 <= i < image@.pixels.len() ==> is_first_index(
                            palette@,
                            (#[trigger] image@.pixels[i]).rgb(),
                            lmp@.data[i] as int,
                        )
                },
                Err(e) => e == QError::ColorNotInPalette && exists|i: int|
                    0 <= i < image@.pixels.len() && !palette@.contains(
                        (#[trigger] image@.pixels[i]).rgb(),
                    ),
            },
    {
        let pixels = image.pixels();
        let colors = palette.map();
        let mut data: Vec<u8> = Vec::new();
        let mut i: usize = 0;
        while i < pixels.len()
            invariant
                i <= pixels@.len(),
                pixels@ == image@.pixels,
                colors@ == palette@,
                colors@.len() == PALETTE_SIZE,
                data@.len() == i,
                forall|j: int|
                    0 <= j < i ==> is_first_index(
                        palette@,
                        (#[trigger] pixels@[j]).rgb(),
                        data@[j] as int,
                    ),
            decreases pixels@.len() - i,
        {
            let palette_idx = match position_of(colors, pixels[i].to_rgb()) {
                Some(idx) => idx,
                None => {
                    assert(!palette@.contains(image@.pixels[i as int].rgb()));
                    return Err(QError::ColorNotInPalette);
                },
            };
            data.push(palette_idx as u8);
            i += 1;
        }
        let width = image.width();
        let height = image.height();
        Ok(LmpImage { width, height, data })
    }

    /// The colours of the pixels, row by row: what is to be saved as a
    /// picture in another format.
    pub fn save_as(&self, palette: Palette) -> (colors: Vec<Color>)
        ensures
            colors@.len() == self@.data.len(),
            forall|i: int|
                0 <= i < colors@.len() ==> colors@[i] == palette@[(#[trigger] self@.data[i]) as int],
    {
        let mut colors: Vec<Color> = Vec::new();
        let mut i: usize = 0;
        while i < self.data.len()
            invariant
                i <= self.data@.len(),
                colors@.len() == i,
                forall|j: int|
                    0 <= j < i ==> colors@[j] == palette@[(#[trigger] self.data@[j]) as int],
            decreases self.data@.len() - i,
        {
            colors.push(palette.get(self.data[i]));
            i += 1;
        }
        colors
    }

    /// Where the pixel in column `x` of row `y` lies in the data.
    #[inline]
    pub fn index(&self, x: u32, y: u32) -> (i: usize)
        requires
            self@.index(x as int, y as int) <= u32::MAX,
        ensures
            i == self@.index(x as int, y as int),
    {
        let i: u64 = y as u64 * self.width as u64 + x as u64;
        i as usize
    }

    /// The palette index of the pixel in column `x` of row `y`.
    #[inline]
    pub fn get(&self, x: u32, y: u32) -> (v: u8)
        requires
            self@.index(x as int, y as int) <= u32::MAX,
            self@.index(x as int, y as int) < self@.data.len(),
        ensures
            v == self@.data[self@.index(x as int, y as int)],
    {
        self.data[self.index(x, y)]
    }

    /// Looks up the color that the given palette has for a pixel of this image.
    pub fn get_color(&self, x: u32, y: u32, palette: &Palette) -> (c: Color)
        requires
            self@.index(x as int, y as int) <= u32::MAX,
            self@.index(x as int, y as int) < self@.data.len(),
        ensures
            c == palette@[self@.data[self@.index(x as int, y as int)] as int],
    {
        palette.get(self.get(x, y))
    }

    /// The number of pixels in a row.
    pub fn width(&self) -> (w: u32)
        ensures
            w == self@.width,
    {
        self.width
    }

    /// The number of rows.
    pub fn height(&self) -> (h: u32)
        ensures
            h == self@.height,
    {
        self.height
    }

    /// The palette indices of the pixels, row by row.
    pub fn pixels(&self) -> (data: &[u8])
        ensures
            data@ == self@.data,
            data@.len() == self@.width * self@.height,
    {
        proof {
            use_type_invariant(self);
        }
        self.data.as_slice()
    }
}

/// The bytes of an image spell that image.
pub proof fn lemma_lmp_round_trip(image: LmpModel)
    requires
        0 <= image.width <= u32::MAX,
        0 <= image.height <= u32::MAX,
        image.data.len() == image.width * image.height,
    ensures
        LmpModel::parse(image.encoding()) == Ok::<LmpModel, QError>(image),
{
    lemma_u32_le_round_trip(image.width);
    lemma_u32_le_round_trip(image.height);
    let b = image.encoding();
    assert(b.subrange(0, 4) =~= u32_to_le(image.width));
    assert(b.subrange(4, 8) =~= u32_to_le(image.height));
    assert(b.subrange(8, b.len() as int) =~= image.data);
}

} // verus!
