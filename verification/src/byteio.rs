//! Reading and writing fixed-width integers as byte sequences, in both byte
//! orders. These are the primitives every container codec in this crate is
//! built on.
use vstd::prelude::*;

verus! {

/// The value of four bytes interpreted as a big-endian 32-bit word.
pub open spec fn u32_be(b: Seq<u8>) -> u32
    recommends
        b.len() == 4,
{
    (((b[0] as u32) << 24) | ((b[1] as u32) << 16) | ((b[2] as u32) << 8) | (b[3] as u32))
}

/// The value of four bytes interpreted as a little-endian 32-bit word.
pub open spec fn u32_le(b: Seq<u8>) -> u32
    recommends
        b.len() == 4,
{
    (((b[3] as u32) << 24) | ((b[2] as u32) << 16) | ((b[1] as u32) << 8) | (b[0] as u32))
}

/// The big-endian four-byte encoding of a 32-bit word.
pub open spec fn u32_be_bytes(x: u32) -> Seq<u8> {
    seq![(x >> 24) as u8, (x >> 16) as u8, (x >> 8) as u8, x as u8]
}

/// The little-endian four-byte encoding of a 32-bit word.
pub open spec fn u32_le_bytes(x: u32) -> Seq<u8> {
    seq![x as u8, (x >> 8) as u8, (x >> 16) as u8, (x >> 24) as u8]
}

/// The value of two bytes interpreted as a big-endian 16-bit word.
pub open spec fn u16_be(b: Seq<u8>) -> u16
    recommends
        b.len() == 2,
{
    (((b[0] as u16) << 8) | (b[1] as u16))
}

/// The value of two bytes interpreted as a little-endian 16-bit word.
pub open spec fn u16_le(b: Seq<u8>) -> u16
    recommends
        b.len() == 2,
{
    (((b[1] as u16) << 8) | (b[0] as u16))
}

/// The big-endian two-byte encoding of a 16-bit word.
pub open spec fn u16_be_bytes(x: u16) -> Seq<u8> {
    seq![(x >> 8) as u8, x as u8]
}

/// The little-endian two-byte encoding of a 16-bit word.
pub open spec fn u16_le_bytes(x: u16) -> Seq<u8> {
    seq![x as u8, (x >> 8) as u8]
}

/// Decoding the four-byte encoding of a word gives the word back, in either
/// byte order.
pub proof fn lemma_u32_bytes_round_trip(x: u32)
    ensures
        u32_be(u32_be_bytes(x)) == x,
        u32_le(u32_le_bytes(x)) == x,
{
    assert((((((x >> 24) as u8) as u32) << 24) | ((((x >> 16) as u8) as u32) << 16) | ((((x
        >> 8) as u8) as u32) << 8) | ((x as u8) as u32)) == x) by (bit_vector);
}

/// Encoding the word read from four bytes reproduces those bytes, in either
/// byte order.
pub proof fn lemma_u32_bytes_inverse(b: Seq<u8>)
    requires
        b.len() == 4,
    ensures
        u32_be_bytes(u32_be(b)) =~= b,
        u32_le_bytes(u32_le(b)) =~= b,
{
    let b0 = b[0];
    let b1 = b[1];
    let b2 = b[2];
    let b3 = b[3];
    assert(((((b0 as u32) << 24) | ((b1 as u32) << 16) | ((b2 as u32) << 8) | (b3 as u32)) >> 24) as u8
        == b0 && ((((b0 as u32) << 24) | ((b1 as u32) << 16) | ((b2 as u32) << 8) | (b3 as u32))
        >> 16) as u8 == b1 && ((((b0 as u32) << 24) | ((b1 as u32) << 16) | ((b2 as u32) << 8) | (
    b3 as u32)) >> 8) as u8 == b2 && ((((b0 as u32) << 24) | ((b1 as u32) << 16) | ((b2 as u32)
        << 8) | (b3 as u32))) as u8 == b3) by (bit_vector);
    assert(((((b3 as u32) << 24) | ((b2 as u32) << 16) | ((b1 as u32) << 8) | (b0 as u32)) >> 24) as u8
        == b3 && ((((b3 as u32) << 24) | ((b2 as u32) << 16) | ((b1 as u32) << 8) | (b0 as u32))
        >> 16) as u8 == b2 && ((((b3 as u32) << 24) | ((b2 as u32) << 16) | ((b1 as u32) << 8) | (
    b0 as u32)) >> 8) as u8 == b1 && ((((b3 as u32) << 24) | ((b2 as u32) << 16) | ((b1 as u32)
        << 8) | (b0 as u32))) as u8 == b0) by (bit_vector);
}

/// Decoding the two-byte encoding of a word gives the word back, in either
/// byte order.
pub proof fn lemma_u16_bytes_round_trip(x: u16)
    ensures
        u16_be(u16_be_bytes(x)) == x,
        u16_le(u16_le_bytes(x)) == x,
{
    assert(((((x >> 8) as u8) as u16) << 8) | ((x as u8) as u16) == x) by (bit_vector);
}

/// Reads the big-endian 32-bit word stored at `pos`.
pub fn read_u32_be(data: &[u8], pos: usize) -> (r: u32)
    requires
        pos + 4 <= data@.len(),
    ensures
        r == u32_be(data@.subrange(pos as int, pos as int + 4)),
{
    let b0 = data[pos];
    let b1 = data[pos + 1];
    let b2 = data[pos + 2];
    let b3 = data[pos + 3];
    (((b0 as u32) << 24) | ((b1 as u32) << 16) | ((b2 as u32) << 8) | (b3 as u32))
}

/// Reads the little-endian 32-bit word stored at `pos`.
pub fn read_u32_le(data: &[u8], pos: usize) -> (r: u32)
    requires
        pos + 4 <= data@.len(),
    ensures
        r == u32_le(data@.subrange(pos as int, pos as int + 4)),
{
    let b0 = data[pos];
    let b1 = data[pos + 1];
    let b2 = data[pos + 2];
    let b3 = data[pos + 3];
    (((b3 as u32) << 24) | ((b2 as u32) << 16) | ((b1 as u32) << 8) | (b0 as u32))
}

/// Reads the big-endian 16-bit word stored at `pos`.
pub fn read_u16_be(data: &[u8], pos: usize) -> (r: u16)
    requires
        pos + 2 <= data@.len(),
    ensures
        r == u16_be(data@.subrange(pos as int, pos as int + 2)),
{
    let b0 = data[pos];
    let b1 = data[pos + 1];
    (((b0 as u16) << 8) | (b1 as u16))
}

/// Reads the little-endian 16-bit word stored at `pos`.
pub fn read_u16_le(data: &[u8], pos: usize) -> (r: u16)
    requires
        pos + 2 <= data@.len(),
    ensures
        r == u16_le(data@.subrange(pos as int, pos as int + 2)),
{
    let b0 = data[pos];
    let b1 = data[pos + 1];
    (((b1 as u16) << 8) | (b0 as u16))
}

/// Appends the big-endian encoding of a 32-bit word.
pub fn push_u32_be(out: &mut Vec<u8>, x: u32)
    ensures
        final(out)@ == old(out)@ + u32_be_bytes(x),
{
    out.push(#[verifier::truncate] ((x >> 24) as u8));
    out.push(#[verifier::truncate] ((x >> 16) as u8));
    out.push(#[verifier::truncate] ((x >> 8) as u8));
    out.push(#[verifier::truncate] (x as u8));
    assert(out@ =~= old(out)@ + u32_be_bytes(x));
}

/// Appends the little-endian encoding of a 32-bit word.
pub fn push_u32_le(out: &mut Vec<u8>, x: u32)
    ensures
        final(out)@ == old(out)@ + u32_le_bytes(x),
{
    out.push(#[verifier::truncate] (x as u8));
    out.push(#[verifier::truncate] ((x >> 8) as u8));
    out.push(#[verifier::truncate] ((x >> 16) as u8));
    out.push(#[verifier::truncate] ((x >> 24) as u8));
    assert(out@ =~= old(out)@ + u32_le_bytes(x));
}

/// Appends the big-endian encoding of a 16-bit word.
pub fn push_u16_be(out: &mut Vec<u8>, x: u16)
    ensures
        final(out)@ == old(out)@ + u16_be_bytes(x),
{
    out.push(#[verifier::truncate] ((x >> 8) as u8));
    out.push(#[verifier::truncate] (x as u8));
    assert(out@ =~= old(out)@ + u16_be_bytes(x));
}

/// Appends the little-endian encoding of a 16-bit word.
pub fn push_u16_le(out: &mut Vec<u8>, x: u16)
    ensures
        final(out)@ == old(out)@ + u16_le_bytes(x),
{
    out.push(#[verifier::truncate] (x as u8));
    out.push(#[verifier::truncate] ((x >> 8) as u8));
    assert(out@ =~= old(out)@ + u16_le_bytes(x));
}

} // verus!
