//! What the binary reader gives back of what the binary writer wrote.
use crate::codec::{u16_le, u32_le, u64_le};
use crate::error::MapError;
use crate::io::{
    read_bool_at, read_long_string_at, read_string_at, read_u16_at, read_u32_at, read_u64_at,
    read_u8_at, read_vec2_at, read_vec3_at, take_at, write_at,
};
use crate::sspm::laws::{
    lemma_window_split, lemma_read_u16_window, lemma_read_u32_window, lemma_read_u64_window,
    lemma_read_u8_window, lemma_read_vec2_window, lemma_take_window, window,
};
use crate::sspm::serde::{bool_byte, vec2_bytes};
use crate::types::{StoredVec2, StoredVec3};
use vstd::prelude::*;
use vstd::utf8::{encode_utf8, encode_utf8_decode_utf8, encode_utf8_valid_utf8};

verus! {

/// What was written at `pos` stands there afterwards.
pub proof fn lemma_written_window(buf: Seq<u8>, pos: int, bytes: Seq<u8>)
    requires
        0 <= pos,
        bytes.len() > 0 || pos <= buf.len(),
    ensures
        window(write_at(buf, pos, bytes), pos, bytes),
        write_at(buf, pos, bytes).len() >= pos + bytes.len(),
{
    let w = write_at(buf, pos, bytes);
    if bytes.len() == 0 {
        assert(w.subrange(pos, pos) =~= bytes);
    } else {
        assert(w.subrange(pos, pos + bytes.len()) =~= bytes);
    }
}

/// Bytes written at a position are read back there.
pub proof fn write_then_read_bytes(buf: Seq<u8>, pos: int, bytes: Seq<u8>)
    requires
        0 <= pos,
    ensures
        take_at(write_at(buf, pos, bytes), pos, bytes.len() as int) == (
            pos + bytes.len(),
            Ok::<Seq<u8>, MapError>(bytes),
        ),
{
    if bytes.len() == 0 {
        assert(bytes =~= Seq::<u8>::empty());
    } else {
        lemma_written_window(buf, pos, bytes);
        lemma_take_window(write_at(buf, pos, bytes), pos, bytes);
    }
}

/// A boolean written at a position is read back there.
pub proof fn write_then_read_bool(buf: Seq<u8>, pos: int, b: bool)
    requires
        0 <= pos,
    ensures
        read_bool_at(write_at(buf, pos, seq![bool_byte(b)]), pos) == (
            pos + 1,
            Ok::<bool, MapError>(b),
        ),
{
    lemma_written_window(buf, pos, seq![bool_byte(b)]);
    lemma_read_u8_window(write_at(buf, pos, seq![bool_byte(b)]), pos, bool_byte(b));
}

/// A byte written at a position is read back there.
pub proof fn write_then_read_u8(buf: Seq<u8>, pos: int, x: u8)
    requires
        0 <= pos,
    ensures
        read_u8_at(write_at(buf, pos, seq![x]), pos) == (pos + 1, Ok::<u8, MapError>(x)),
{
    lemma_written_window(buf, pos, seq![x]);
    lemma_read_u8_window(write_at(buf, pos, seq![x]), pos, x);
}

/// A `u16` written at a position is read back there.
pub proof fn write_then_read_u16(buf: Seq<u8>, pos: int, x: u16)
    requires
        0 <= pos,
    ensures
        read_u16_at(write_at(buf, pos, u16_le(x)), pos) == (pos + 2, Ok::<u16, MapError>(x)),
{
    lemma_written_window(buf, pos, u16_le(x));
    lemma_read_u16_window(write_at(buf, pos, u16_le(x)), pos, x);
}

/// A `u32` written at a position is read back there.
pub proof fn write_then_read_u32(buf: Seq<u8>, pos: int, x: u32)
    requires
        0 <= pos,
    ensures
        read_u32_at(write_at(buf, pos, u32_le(x)), pos) == (pos + 4, Ok::<u32, MapError>(x)),
{
    lemma_written_window(buf, pos, u32_le(x));
    lemma_read_u32_window(write_at(buf, pos, u32_le(x)), pos, x);
}

/// A `u64` written at a position is read back there.
pub proof fn write_then_read_u64(buf: Seq<u8>, pos: int, x: u64)
    requires
        0 <= pos,
    ensures
        read_u64_at(write_at(buf, pos, u64_le(x)), pos) == (pos + 8, Ok::<u64, MapError>(x)),
{
    lemma_written_window(buf, pos, u64_le(x));
    lemma_read_u64_window(write_at(buf, pos, u64_le(x)), pos, x);
}

/// A string written with its `u16` length at a position is read back there,
/// when its UTF-8 length fits a `u16`.
pub proof fn write_then_read_string(buf: Seq<u8>, pos: int, s: Seq<char>)
    requires
        0 <= pos,
        encode_utf8(s).len() < 0x1_0000,
    ensures
        read_string_at(
            write_at(
                write_at(buf, pos, u16_le((encode_utf8(s).len() % 0x1_0000) as u16)),
                pos + 2,
                encode_utf8(s),
            ),
            pos,
        ) == (pos + 2 + encode_utf8(s).len(), Ok::<Seq<char>, MapError>(s)),
{
    let n = (encode_utf8(s).len() % 0x1_0000) as u16;
    let w1 = write_at(buf, pos, u16_le(n));
    let w2 = write_at(w1, pos + 2, encode_utf8(s));
    lemma_written_window(buf, pos, u16_le(n));
    lemma_written_window(w1, pos + 2, encode_utf8(s));
    crate::codec::lemma_u16_roundtrip(n);
    lemma_window_before_write(w1, pos, u16_le(n), pos + 2, encode_utf8(s));
    lemma_read_u16_window(w2, pos, n);
    lemma_take_window(w2, pos + 2, encode_utf8(s));
    encode_utf8_valid_utf8(s);
    encode_utf8_decode_utf8(s);
}

/// A string written with its `u32` length at a position is read back there,
/// when its UTF-8 length fits a `u32`.
pub proof fn write_then_read_long_string(buf: Seq<u8>, pos: int, s: Seq<char>)
    requires
        0 <= pos,
        encode_utf8(s).len() < 0x1_0000_0000,
    ensures
        read_long_string_at(
            write_at(
                write_at(buf, pos, u32_le((encode_utf8(s).len() % 0x1_0000_0000) as u32)),
                pos + 4,
                encode_utf8(s),
            ),
            pos,
        ) == (pos + 4 + encode_utf8(s).len(), Ok::<Seq<char>, MapError>(s)),
{
    let n = (encode_utf8(s).len() % 0x1_0000_0000) as u32;
    let w1 = write_at(buf, pos, u32_le(n));
    let w2 = write_at(w1, pos + 4, encode_utf8(s));
    lemma_written_window(buf, pos, u32_le(n));
    lemma_written_window(w1, pos + 4, encode_utf8(s));
    crate::codec::lemma_u32_roundtrip(n);
    lemma_window_before_write(w1, pos, u32_le(n), pos + 4, encode_utf8(s));
    lemma_read_u32_window(w2, pos, n);
    lemma_take_window(w2, pos + 4, encode_utf8(s));
    encode_utf8_valid_utf8(s);
    encode_utf8_decode_utf8(s);
}

/// A stored position written at a position is read back there.
pub proof fn write_then_read_vec2(buf: Seq<u8>, pos: int, v: StoredVec2)
    requires
        0 <= pos,
    ensures
        read_vec2_at(write_at(buf, pos, vec2_bytes(v)), pos) == (
            pos + vec2_bytes(v).len(),
            Ok::<StoredVec2, MapError>(v),
        ),
{
    lemma_written_window(buf, pos, vec2_bytes(v));
    lemma_read_vec2_window(write_at(buf, pos, vec2_bytes(v)), pos, v);
}

/// A stored three-component position: a set flag and three `f32` bit
/// patterns, or a clear flag and three bytes, each in the order x, y, z.
pub open spec fn vec3_bytes(v: StoredVec3) -> Seq<u8> {
    match v {
        StoredVec3::Quantum(x, y, z) => seq![1u8] + u32_le(x) + u32_le(y) + u32_le(z),
        StoredVec3::Grid(x, y, z) => seq![0u8, x, y, z],
    }
}

/// A stored three-component position standing at `p` reads back as itself.
pub proof fn lemma_read_vec3_window(data: Seq<u8>, p: int, v: StoredVec3)
    requires
        window(data, p, vec3_bytes(v)),
    ensures
        read_vec3_at(data, p) == (p + vec3_bytes(v).len(), Ok::<StoredVec3, MapError>(v)),
{
    match v {
        StoredVec3::Quantum(x, y, z) => {
            crate::codec::lemma_u32_roundtrip(x);
            crate::codec::lemma_u32_roundtrip(y);
            crate::codec::lemma_u32_roundtrip(z);
            lemma_window_split(data, p, seq![1u8] + u32_le(x) + u32_le(y), u32_le(z));
            lemma_window_split(data, p, seq![1u8] + u32_le(x), u32_le(y));
            lemma_window_split(data, p, seq![1u8], u32_le(x));
            lemma_read_u8_window(data, p, 1);
            lemma_take_window(data, p + 1, u32_le(x));
            lemma_take_window(data, p + 5, u32_le(y));
            lemma_take_window(data, p + 9, u32_le(z));
        },
        StoredVec3::Grid(x, y, z) => {
            assert(seq![0u8, x, y, z] =~= seq![0u8] + seq![x] + seq![y] + seq![z]);
            lemma_window_split(data, p, seq![0u8] + seq![x] + seq![y], seq![z]);
            lemma_window_split(data, p, seq![0u8] + seq![x], seq![y]);
            lemma_window_split(data, p, seq![0u8], seq![x]);
            lemma_read_u8_window(data, p, 0);
            lemma_take_window(data, p + 1, seq![x]);
            lemma_take_window(data, p + 2, seq![y]);
            lemma_take_window(data, p + 3, seq![z]);
        },
    }
}

/// A stored three-component position written at a position is read back
/// there, with its components in the order written.
pub proof fn write_then_read_vec3(buf: Seq<u8>, pos: int, v: StoredVec3)
    requires
        0 <= pos,
    ensures
        read_vec3_at(write_at(buf, pos, vec3_bytes(v)), pos) == (
            pos + vec3_bytes(v).len(),
            Ok::<StoredVec3, MapError>(v),
        ),
{
    lemma_written_window(buf, pos, vec3_bytes(v));
    lemma_read_vec3_window(write_at(buf, pos, vec3_bytes(v)), pos, v);
}

/// Writing after a window leaves it standing.
pub proof fn lemma_window_before_write(data: Seq<u8>, p: int, a: Seq<u8>, q: int, b: Seq<u8>)
    requires
        window(data, p, a),
        p + a.len() <= q,
    ensures
        window(write_at(data, q, b), p, a),
{
    let w = write_at(data, q, b);
    assert(w.subrange(p, p + a.len()) =~= data.subrange(p, p + a.len()));
}

} // verus!
