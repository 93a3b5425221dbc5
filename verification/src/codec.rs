//! Little-endian encodings of unsigned integers, as plain arithmetic on bytes.
use vstd::prelude::*;

verus! {

/// The value of two bytes read as a little-endian `u16`.
pub open spec fn le_u16(b: Seq<u8>) -> u16
    recommends
        b.len() == 2,
{
    (b[0] + 256 * b[1]) as u16
}

/// The value of four bytes read as a little-endian `u32`.
pub open spec fn le_u32(b: Seq<u8>) -> u32
    recommends
        b.len() == 4,
{
    (b[0] + 0x100 * b[1] + 0x1_0000 * b[2] + 0x100_0000 * b[3]) as u32
}

/// The value of eight bytes read as a little-endian `u64`.
pub open spec fn le_u64(b: Seq<u8>) -> u64
    recommends
        b.len() == 8,
{
    (le_u32(b.subrange(0, 4)) + 0x1_0000_0000 * le_u32(b.subrange(4, 8))) as u64
}

/// The two little-endian bytes of `x`.
pub open spec fn u16_le(x: u16) -> Seq<u8> {
    seq![(x % 256) as u8, (x / 256) as u8]
}

/// The four little-endian bytes of `x`.
pub open spec fn u32_le(x: u32) -> Seq<u8> {
    seq![
        (x % 0x100) as u8,
        ((x / 0x100) % 0x100) as u8,
        ((x / 0x1_0000) % 0x100) as u8,
        (x / 0x100_0000) as u8,
    ]
}

/// The eight little-endian bytes of `x`.
pub open spec fn u64_le(x: u64) -> Seq<u8> {
    u32_le((x % 0x1_0000_0000) as u32) + u32_le((x / 0x1_0000_0000) as u32)
}

/// Decoding the encoding of a `u16` gives it back.
pub proof fn lemma_u16_roundtrip(x: u16)
    ensures
        u16_le(x).len() == 2,
        le_u16(u16_le(x)) == x,
{
}

/// Decoding the encoding of a `u32` gives it back.
pub proof fn lemma_u32_roundtrip(x: u32)
    ensures
        u32_le(x).len() == 4,
        le_u32(u32_le(x)) == x,
{
}

/// Decoding the encoding of a `u64` gives it back.
pub proof fn lemma_u64_roundtrip(x: u64)
    ensures
        u64_le(x).len() == 8,
        le_u64(u64_le(x)) == x,
{
    let lo = (x % 0x1_0000_0000) as u32;
    let hi = (x / 0x1_0000_0000) as u32;
    lemma_u32_roundtrip(lo);
    lemma_u32_roundtrip(hi);
    assert(u64_le(x).subrange(0, 4) =~= u32_le(lo));
    assert(u64_le(x).subrange(4, 8) =~= u32_le(hi));
}

/// Decodes two little-endian bytes.
pub fn decode_u16(b: &[u8]) -> (x: u16)
    requires
        b@.len() == 2,
    ensures
        x == le_u16(b@),
{
    b[0] as u16 + (b[1] as u16) * 256
}

/// Decodes four little-endian bytes.
pub fn decode_u32(b: &[u8]) -> (x: u32)
    requires
        b@.len() == 4,
    ensures
        x == le_u32(b@),
{
    b[0] as u32 + (b[1] as u32) * 0x100 + (b[2] as u32) * 0x1_0000 + (b[3] as u32) * 0x100_0000
}

/// Decodes eight little-endian bytes.
pub fn decode_u64(b: &[u8]) -> (x: u64)
    requires
        b@.len() == 8,
    ensures
        x == le_u64(b@),
{
    let lo: u64 = b[0] as u64 + (b[1] as u64) * 0x100 + (b[2] as u64) * 0x1_0000 + (b[3] as u64)
        * 0x100_0000;
    let hi: u64 = b[4] as u64 + (b[5] as u64) * 0x100 + (b[6] as u64) * 0x1_0000 + (b[7] as u64)
        * 0x100_0000;
    assert(lo == le_u32(b@.subrange(0, 4)));
    assert(hi == le_u32(b@.subrange(4, 8)));
    lo + hi * 0x1_0000_0000
}

/// The little-endian bytes of a `u16`.
pub fn encode_u16(x: u16) -> (b: [u8; 2])
    ensures
        b@ == u16_le(x),
{
    let b = [(x % 256) as u8, (x / 256) as u8];
    assert(b@ =~= u16_le(x));
    b
}

/// The little-endian bytes of a `u32`.
pub fn encode_u32(x: u32) -> (b: [u8; 4])
    ensures
        b@ == u32_le(x),
{
    let b = [
        (x % 0x100) as u8,
        ((x / 0x100) % 0x100) as u8,
        ((x / 0x1_0000) % 0x100) as u8,
        (x / 0x100_0000) as u8,
    ];
    assert(b@ =~= u32_le(x));
    b
}

/// The little-endian bytes of a `u64`.
pub fn encode_u64(x: u64) -> (b: [u8; 8])
    ensures
        b@ == u64_le(x),
{
    let lo = encode_u32((x % 0x1_0000_0000) as u32);
    let hi = encode_u32((x / 0x1_0000_0000) as u32);
    let b = [lo[0], lo[1], lo[2], lo[3], hi[0], hi[1], hi[2], hi[3]];
    assert(b@ =~= u64_le(x));
    b
}

} // verus!
