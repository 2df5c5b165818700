//! A color palette, to be used in conjunction with LMP images.

use crate::error::{QError, QResult};
use crate::raster::{Raster, Rgba};
use std::collections::HashSet;
use vstd::prelude::*;
use vstd::std_specs::hash::spec_hash_keys_iter;
use vstd::std_specs::iter::IteratorSpec;

verus! {

broadcast use vstd::std_specs::hash::group_hash_axioms;

/// A colour by its red, green and blue parts.
#[derive(Debug, Clone, Copy, PartialEq, Eq, Structural)]
pub struct Color {
    pub r: u8,
    pub g: u8,
    pub b: u8,
}

/// The number of colours of every palette.
pub const PALETTE_SIZE: usize = 256;

/// Black, the colour of the palette entries that a file leaves out.
pub open spec fn black() -> Color {
    Color { r: 0, g: 0, b: 0 }
}

/// Part `j` of `c`: red, green and blue are parts 0, 1 and 2.
pub open spec fn channel(c: Color, j: int) -> u8 {
    if j == 0 {
        c.r
    } else if j == 1 {
        c.g
    } else {
        c.b
    }
}

/// The bytes that stand for `colors` in a file: three for each colour.
pub open spec fn color_bytes(colors: Seq<Color>) -> Seq<u8> {
    Seq::new(3 * colors.len(), |k: int| channel(colors[k / 3], k % 3))
}

/// The palette that `bytes` spell: one colour for each three bytes, and
/// black from there on.
pub open spec fn palette_of(bytes: Seq<u8>) -> Seq<Color> {
    Seq::new(
        PALETTE_SIZE as nat,
        |i: int|
            if 3 * i + 2 < bytes.len() {
                Color { r: bytes[3 * i], g: bytes[3 * i + 1], b: bytes[3 * i + 2] }
            } else {
                black()
            },
    )
}

/// The bytes of a palette spell that palette.
pub proof fn lemma_palette_round_trip(colors: Seq<Color>)
    requires
        colors.len() == PALETTE_SIZE,
    ensures
        color_bytes(colors).len() == 3 * PALETTE_SIZE,
        palette_of(color_bytes(colors)) == colors,
{
    assert(palette_of(color_bytes(colors)) =~= colors);
}

/// `order` names every pixel value of `pixels`, and each of them once.
pub open spec fn lists_pixels(order: Seq<Rgba>, pixels: Seq<Rgba>) -> bool {
    &&& order.no_duplicates()
    &&& forall|c: Rgba| order.contains(c) <==> pixels.contains(c)
}

/// The palette made of the pixel values `order`: their colours in this
/// order, and black from there on.
pub open spec fn colors_of(order: Seq<Rgba>) -> Seq<Color> {
    Seq::new(
        PALETTE_SIZE as nat,
        |i: int|
            if i < order.len() {
                order[i].rgb()
            } else {
                black()
            },
    )
}

/// However the pixel values of a picture are listed, they are as many.
pub proof fn lemma_listings_agree(first: Seq<Rgba>, second: Seq<Rgba>, pixels: Seq<Rgba>)
    requires
        lists_pixels(first, pixels),
        lists_pixels(second, pixels),
    ensures
        first.len() == second.len(),
{
    assert(first.to_set() =~= second.to_set());
    first.unique_seq_to_set();
    second.unique_seq_to_set();
}

/// The four parts of a pixel as one number.
spec fn packed(c: Rgba) -> u32 {
    (c.r as int + 0x100 * (c.g as int) + 0x1_0000 * (c.b as int) + 0x100_0000 * (c.a as int)) as u32
}

/// The pixel whose four parts make up `k`.
spec fn unpacked(k: u32) -> Rgba {
    Rgba {
        r: (k % 0x100) as u8,
        g: (k / 0x100 % 0x100) as u8,
        b: (k / 0x1_0000 % 0x100) as u8,
        a: (k / 0x100_0000) as u8,
    }
}

/// Pixels and numbers stand for each other, one for one.
proof fn lemma_packed(c: Rgba, k: u32)
    ensures
        unpacked(packed(c)) == c,
        packed(unpacked(k)) == k,
{
    let (r, g, b, a) = (c.r as int, c.g as int, c.b as int, c.a as int);
    let u = r + 0x100 * (g + 0x100 * (b + 0x100 * a));
    assert(packed(c) == u);
    assert(u % 0x100 == r && u / 0x100 == g + 0x100 * (b + 0x100 * a));
    assert(u / 0x100 % 0x100 == g && u / 0x1_0000 == b + 0x100 * a);
    assert(u / 0x1_0000 % 0x100 == b && u / 0x100_0000 == a);
    let v = k as int;
    let (q1, q2, q3) = (v / 0x100, v / 0x1_0000, v / 0x100_0000);
    assert(q2 == q1 / 0x100 && q3 == q2 / 0x100);
    assert(v == v % 0x100 + 0x100 * q1);
    assert(q1 == q1 % 0x100 + 0x100 * q2);
    assert(q2 == q2 % 0x100 + 0x100 * q3);
    assert(0 <= q3 < 0x100);
}

/// The key under which the hash set holds the pixel value `c`.
fn pack(c: Rgba) -> (k: u32)
    ensures
        k == packed(c),
{
    c.r as u32 + 0x100 * (c.g as u32) + 0x1_0000 * (c.b as u32) + 0x100_0000 * (c.a as u32)
}

/// The pixel value that the hash set holds under the key `k`.
fn unpack(k: u32) -> (c: Rgba)
    ensures
        c == unpacked(k),
{
    Rgba {
        r: (k % 0x100) as u8,
        g: (k / 0x100 % 0x100) as u8,
        b: (k / 0x1_0000 % 0x100) as u8,
        a: (k / 0x100_0000) as u8,
    }
}

/// The pixel values of `pixels`, each of them once, in the order in which
/// a hash set hands them out: an order that differs from run to run.
fn distinct_pixels(pixels: &[Rgba]) -> (order: Vec<Rgba>)
    ensures
        lists_pixels(order@, pixels@),
{
    let mut colors: HashSet<u32> = HashSet::new();
    let mut i: usize = 0;
    while i < pixels.len()
        invariant
            i <= pixels@.len(),
            forall|k: u32|
                colors@.contains(k) <==> exists|j: int|
                    0 <= j < i && packed(#[trigger] pixels@[j]) == k,
        decreases pixels@.len() - i,
    {
        let key: u32 = pack(pixels[i]);
        colors.insert(key);
        assert forall|k: u32|
            colors@.contains(k) <==> exists|j: int|
                0 <= j < i + 1 && packed(#[trigger] pixels@[j]) == k by {
            if k == key {
                assert(packed(pixels@[i as int]) == k);
            }
        }
        i += 1;
    }
    let mut order: Vec<Rgba> = Vec::new();
    let ghost keys = spec_hash_keys_iter(&colors).remaining();
    for key in it: colors.iter()
        invariant
            it.seq() == keys,
            order@.len() == it.index(),
            forall|j: int| 0 <= j < order@.len() ==> order@[j] == unpacked(*keys[j]),
    {
        order.push(unpack(*key));
    }
    proof {
        let ks = keys.unref();
        assert(ks.len() == order@.len());
        assert forall|a: int, b: int|
            0 <= a < order@.len() && 0 <= b < order@.len() && a != b implies order@[a]
            != order@[b] by {
            lemma_packed(order@[a], ks[a]);
            lemma_packed(order@[b], ks[b]);
            assert(ks[a] != ks[b]);
        }
        assert forall|c: Rgba| order@.contains(c) <==> pixels@.contains(c) by {
            if order@.contains(c) {
                let a = choose|a: int| 0 <= a < order@.len() && order@[a] == c;
                assert(ks.to_set().contains(ks[a]));
                let j = choose|j: int| 0 <= j < pixels@.len() && packed(pixels@[j]) == ks[a];
                lemma_packed(pixels@[j], ks[a]);
                assert(pixels@[j] == c);
            }
            if pixels@.contains(c) {
                let j = choose|j: int| 0 <= j < pixels@.len() && pixels@[j] == c;
                assert(colors@.contains(packed(pixels@[j])));
                assert(ks.to_set().contains(packed(c)));
                assert(ks.contains(packed(c)));
                let a = choose|a: int| 0 <= a < ks.len() && ks[a] == packed(c);
                lemma_packed(c, ks[a]);
                assert(order@[a] == c);
            }
        }
    }
    order
}

/// A palette that maps indexed colors to actual colors. It always holds
/// 256 of them.
#[derive(Debug)]
pub struct Palette {
    map: Vec<Color>,
}

impl View for Palette {
    type V = Seq<Color>;

    closed spec fn view(&self) -> Seq<Color> {
        self.map@
    }
}

impl Palette {
    #[verifier::type_invariant]
    spec fn full(&self) -> bool {
        self.map@.len() == PALETTE_SIZE
    }

    /// Reads a palette from `bytes`, three bytes for each colour. Colours
    /// that the bytes leave out are black.
    pub fn read(bytes: &[u8]) -> (r: QResult<Palette>)
        requires
            3 <= bytes@.len() <= 3 * PALETTE_SIZE ==> bytes@.len() % 3 == 0,
        ensures
            r is Ok <==> 3 <= bytes@.len() <= 3 * PALETTE_SIZE,
            r matches Ok(p) ==> p@ == palette_of(bytes@),
            r matches Err(e) ==> e == QError::InvalidPaletteSize,
    {
        if bytes.len() > 256 * 3 || bytes.len() < 3 {
            return Err(QError::InvalidPaletteSize);
        }
        let mut buf: Vec<Color> = Vec::new();
        let mut i: usize = 0;
        while i < PALETTE_SIZE
            invariant
                i <= 256,
                buf@.len() == i,
                bytes@.len() <= 768,
                forall|j: int| 0 <= j < i ==> buf@[j] == palette_of(bytes@)[j],
            decreases 256 - i,
        {
            if 3 * i + 2 < bytes.len() {
                buf.push(Color { r: bytes[3 * i], g: bytes[3 * i + 1], b: bytes[3 * i + 2] });
            } else {
                buf.push(Color { r: 0, g: 0, b: 0 });
            }
            i += 1;
        }
        assert(buf@ =~= palette_of(bytes@));
        Ok(Palette { map: buf })
    }

    /// Writes this palette to `out`: three bytes for each of its colours.
    pub fn write(&self, out: &mut Vec<u8>)
        ensures
            final(out)@ == old(out)@ + color_bytes(self@),
            self@.len() == PALETTE_SIZE,
    {
        proof {
            use_type_invariant(self);
        }
        let mut i: usize = 0;
        while i < self.map.len()
            invariant
                i <= self.map@.len(),
                out@ == old(out)@ + color_bytes(self.map@.take(i as int)),
            decreases self.map@.len() - i,
        {
            let color = self.map[i];
            out.push(color.r);
            out.push(color.g);
            out.push(color.b);
            assert(out@ =~= old(out)@ + color_bytes(self.map@.take(i + 1)));
            i += 1;
        }
        assert(self.map@.take(i as int) =~= self.map@);
    }

    /// Creates a palette from an image: the colours of its pixel values,
    /// each value once, in no order that can be told beforehand. Two pixels
    /// that differ in their alpha part alone count as two values. It
    /// returns an error if there are more than 256 values in the image, or
    /// none.
    pub fn from_image(image: &Raster) -> (r: QResult<Palette>)
        ensures
            match r {
                Ok(p) => exists|order: Seq<Rgba>|
                    {
                        &&& lists_pixels(order, image@.pixels)
                        &&& 1 <= order.len() <= PALETTE_SIZE
                        &&& p@ == #[trigger] colors_of(order)
                    },
                Err(e) => e == QError::InvalidPaletteSize && exists|order: Seq<Rgba>|
                    {
                        &&& #[trigger] lists_pixels(order, image@.pixels)
                        &&& (order.len() == 0 || order.len() > PALETTE_SIZE)
                    },
            },
    {
        let order: Vec<Rgba> = distinct_pixels(image.pixels());
        let mut bytes: Vec<u8> = Vec::new();
        let mut i: usize = 0;
        while i < order.len()
            invariant
                i <= order@.len(),
                bytes@.len() == 3 * i,
                forall|j: int|
                    0 <= j < i ==> {
                        &&& bytes@[3 * j] == (#[trigger] order@[j]).r
                        &&& bytes@[3 * j + 1] == order@[j].g
                        &&& bytes@[3 * j + 2] == order@[j].b
                    },
            decreases order@.len() - i,
        {
            let color = order[i];
            bytes.push(color.r);
            bytes.push(color.g);
            bytes.push(color.b);
            i += 1;
        }
        let r = Palette::read(bytes.as_slice());
        proof {
            if r is Ok {
                assert(palette_of(bytes@) =~= colors_of(order@));
            }
        }
        r
    }

    /// Returns the color for an index.
    pub fn get(&self, idx: u8) -> (c: Color)
        ensures
            self@.len() == PALETTE_SIZE,
            c == self@[idx as int],
    {
        proof {
            use_type_invariant(self);
        }
        self.map[idx as usize]
    }

    /// Returns all of the colors in this palette.
    pub fn map(&self) -> (colors: &[Color])
        ensures
            colors@ == self@,
            colors@.len() == PALETTE_SIZE,
    {
        proof {
            use_type_invariant(self);
        }
        self.map.as_slice()
    }
}

} // verus!
