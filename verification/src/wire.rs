//! Little-endian 32-bit integers, as the file formats of this library store
//! them. The conversions themselves are those of the `byteorder` crate.

use byteorder::{ByteOrder, LittleEndian};
use vstd::prelude::*;

verus! {

/// The unsigned number that the first four bytes of `b` spell, least
/// significant byte first.
#[verifier::opaque]
pub open spec fn u32_from_le(b: Seq<u8>) -> int
    recommends
        b.len() >= 4,
{
    b[0] as int + 0x100 * (b[1] as int) + 0x1_0000 * (b[2] as int) + 0x100_0000 * (b[3] as int)
}

/// The signed (two's complement) number that the first four bytes of `b`
/// spell, least significant byte first.
#[verifier::opaque]
pub open spec fn i32_from_le(b: Seq<u8>) -> int
    recommends
        b.len() >= 4,
{
    let u = u32_from_le(b);
    if u >= 0x8000_0000 {
        u - 0x1_0000_0000
    } else {
        u
    }
}

/// The four bytes that spell the unsigned number `v`, least significant
/// byte first.
#[verifier::opaque]
pub open spec fn u32_to_le(v: int) -> Seq<u8>
    recommends
        0 <= v < 0x1_0000_0000,
{
    seq![
        (v % 0x100) as u8,
        (v / 0x100 % 0x100) as u8,
        (v / 0x1_0000 % 0x100) as u8,
        (v / 0x100_0000 % 0x100) as u8,
    ]
}

/// The four bytes that spell the signed number `v` in two's complement,
/// least significant byte first.
#[verifier::opaque]
pub open spec fn i32_to_le(v: int) -> Seq<u8>
    recommends
        -0x8000_0000 <= v < 0x8000_0000,
{
    u32_to_le(
        if v < 0 {
            v + 0x1_0000_0000
        } else {
            v
        },
    )
}

/// An encoded number takes four bytes.
pub proof fn lemma_le_len(v: int)
    ensures
        u32_to_le(v).len() == 4,
        i32_to_le(v).len() == 4,
{
    reveal(u32_to_le);
    reveal(i32_to_le);
}

/// Decoding undoes encoding, for every `u32`.
pub proof fn lemma_u32_le_round_trip(v: int)
    requires
        0 <= v < 0x1_0000_0000,
    ensures
        u32_to_le(v).len() == 4,
        u32_from_le(u32_to_le(v)) == v,
{
    reveal(u32_to_le);
    reveal(u32_from_le);
}

/// Decoding undoes encoding, for every `i32`.
pub proof fn lemma_i32_le_round_trip(v: int)
    requires
        -0x8000_0000 <= v < 0x8000_0000,
    ensures
        i32_to_le(v).len() == 4,
        i32_from_le(i32_to_le(v)) == v,
{
    reveal(i32_to_le);
    reveal(i32_from_le);
    let u = if v < 0 {
        v + 0x1_0000_0000
    } else {
        v
    };
    lemma_u32_le_round_trip(u);
}

/// Encoding undoes decoding: four bytes spell one number only.
pub proof fn lemma_le_bytes_round_trip(b: Seq<u8>)
    requires
        b.len() == 4,
    ensures
        0 <= u32_from_le(b) < 0x1_0000_0000,
        -0x8000_0000 <= i32_from_le(b) < 0x8000_0000,
        u32_to_le(u32_from_le(b)) == b,
        i32_to_le(i32_from_le(b)) == b,
{
    reveal(u32_to_le);
    reveal(u32_from_le);
    reveal(i32_to_le);
    reveal(i32_from_le);
    let u = u32_from_le(b);
    let (b0, b1, b2, b3) = (b[0] as int, b[1] as int, b[2] as int, b[3] as int);
    assert(u == b0 + 0x100 * (b1 + 0x100 * (b2 + 0x100 * b3)));
    assert(u % 0x100 == b0 && u / 0x100 == b1 + 0x100 * (b2 + 0x100 * b3));
    assert(u / 0x100 % 0x100 == b1 && u / 0x1_0000 == b2 + 0x100 * b3);
    assert(u / 0x1_0000 % 0x100 == b2 && u / 0x100_0000 == b3);
    assert(u32_to_le(u) =~= b);
    let v = i32_from_le(b);
    assert((if v < 0 { v + 0x1_0000_0000 } else { v }) == u);
}

/// `byteorder::LittleEndian::read_u32` (of the trait `ByteOrder`): the
/// unsigned number spelled by the first four bytes of `buf`, least
/// significant first. The crate panics on a shorter buffer.
#[verifier::external_body]
fn le_read_u32(buf: &[u8]) -> (v: u32)
    requires
        buf@.len() >= 4,
    ensures
        v as int == u32_from_le(buf@),
{
    LittleEndian::read_u32(buf)
}

/// `byteorder::LittleEndian::read_i32` (of the trait `ByteOrder`): the
/// signed number spelled by the first four bytes of `buf`, least
/// significant first. The crate panics on a shorter buffer.
#[verifier::external_body]
fn le_read_i32(buf: &[u8]) -> (v: i32)
    requires
        buf@.len() >= 4,
    ensures
        v as int == i32_from_le(buf@),
{
    LittleEndian::read_i32(buf)
}

/// `byteorder::LittleEndian::write_u32` (of the trait `ByteOrder`) on a
/// buffer of four bytes: the bytes that spell `v`, least significant first.
#[verifier::external_body]
fn le_write_u32(v: u32) -> (buf: [u8; 4])
    ensures
        buf@ == u32_to_le(v as int),
{
    let mut buf = [0u8; 4];
    LittleEndian::write_u32(&mut buf, v);
    buf
}

/// `byteorder::LittleEndian::write_i32` (of the trait `ByteOrder`) on a
/// buffer of four bytes: the bytes that spell `v` in two's complement,
/// least significant first.
#[verifier::external_body]
fn le_write_i32(v: i32) -> (buf: [u8; 4])
    ensures
        buf@ == i32_to_le(v as int),
{
    let mut buf = [0u8; 4];
    LittleEndian::write_i32(&mut buf, v);
    buf
}

/// Reads the unsigned little-endian number at `bytes[at..at + 4]`, or
/// nothing where `bytes` ends before that.
pub fn read_u32(bytes: &[u8], at: usize) -> (r: Option<u32>)
    ensures
        r is Some <==> at + 4 <= bytes@.len(),
        r matches Some(v) ==> v as int == u32_from_le(bytes@.subrange(at as int, at + 4)),
{
    if bytes.len() < 4 || at > bytes.len() - 4 {
        return None;
    }
    Some(le_read_u32(&bytes[at..at + 4]))
}

/// Reads the signed little-endian number at `bytes[at..at + 4]`, or nothing
/// where `bytes` ends before that.
pub fn read_i32(bytes: &[u8], at: usize) -> (r: Option<i32>)
    ensures
        r is Some <==> at + 4 <= bytes@.len(),
        r matches Some(v) ==> v as int == i32_from_le(bytes@.subrange(at as int, at + 4)),
{
    if bytes.len() < 4 || at > bytes.len() - 4 {
        return None;
    }
    Some(le_read_i32(&bytes[at..at + 4]))
}

/// Appends the four bytes of `v`, least significant first.
pub fn write_u32(out: &mut Vec<u8>, v: u32)
    ensures
        final(out)@ == old(out)@ + u32_to_le(v as int),
{
    let buf: [u8; 4] = le_write_u32(v);
    out.extend_from_slice(&buf);
}

/// Appends the four bytes of `v` in two's complement, least significant
/// first.
pub fn write_i32(out: &mut Vec<u8>, v: i32)
    ensures
        final(out)@ == old(out)@ + i32_to_le(v as int),
{
    let buf: [u8; 4] = le_write_i32(v);
    out.extend_from_slice(&buf);
}

/// Writes the four bytes of `v` over `out[at..at + 4]`, in two's
/// complement, least significant first.
pub fn put_i32(out: &mut Vec<u8>, at: usize, v: i32)
    requires
        at + 4 <= old(out)@.len(),
    ensures
        final(out)@.len() == old(out)@.len(),
        final(out)@ == old(out)@.subrange(0, at as int) + i32_to_le(v as int) + old(out)@.subrange(
            at + 4,
            old(out)@.len() as int,
        ),
{
    let len: usize = out.len();
    let buf: [u8; 4] = le_write_i32(v);
    proof {
        lemma_le_len(v as int);
    }
    out.set(at, buf[0]);
    out.set(at + 1, buf[1]);
    out.set(at + 2, buf[2]);
    out.set(at + 3, buf[3]);
    assert(out@ =~= old(out)@.subrange(0, at as int) + i32_to_le(v as int) + old(out)@.subrange(
        at + 4,
        old(out)@.len() as int,
    ));
}

} // verus!
