//! A little-endian binary reader and writer over in-memory byte buffers.
//!
//! Both keep a position that may lie past the end of the buffer, as a seekable
//! stream's does. Reading past the end fails with `UnexpectedEof` and leaves the
//! reader at the end of its data; writing past the end fills the gap with zeros.
use crate::codec::{
    decode_u16, decode_u32, decode_u64, encode_u16, encode_u32, encode_u64, le_u16, le_u32, le_u64,
    u16_le, u32_le, u64_le,
};
use crate::error::MapError;
use crate::types::{StoredVec2, StoredVec3};
use vstd::prelude::*;
use vstd::utf8::*;

verus! {

/// A position to seek to, relative to the start, the end or the current
/// position of a stream.
#[derive(Debug, Clone, Copy, PartialEq, Eq)]
pub enum SeekFrom {
    Start(u64),
    End(i64),
    Current(i64),
}

/// Where a seek from position `pos` in a stream of `len` bytes lands, or
/// `None` when the target lies before the start or beyond `u64::MAX`.
pub open spec fn seek_target(len: int, pos: int, to: SeekFrom) -> Option<u64> {
    match to {
        SeekFrom::Start(n) => Some(n),
        SeekFrom::End(d) => if 0 <= len + d <= u64::MAX {
            Some((len + d) as u64)
        } else {
            None
        },
        SeekFrom::Current(d) => if 0 <= pos + d <= u64::MAX {
            Some((pos + d) as u64)
        } else {
            None
        },
    }
}

/// The outcome of a read: the position afterwards and the value or error.
pub type Step<T> = (int, Result<T, MapError>);

/// Reading `n` bytes at `pos`: they are taken when all of them are there;
/// otherwise the read fails and the position moves to the end of the data.
pub open spec fn take_at(data: Seq<u8>, pos: int, n: int) -> Step<Seq<u8>> {
    if n == 0 {
        (pos, Ok(Seq::empty()))
    } else if pos + n <= data.len() {
        (pos + n, Ok(data.subrange(pos, pos + n)))
    } else {
        (data.len() as int, Err(MapError::UnexpectedEof))
    }
}

/// The text that `bytes` encode, or `InvalidUtf8`.
pub open spec fn utf8_text(bytes: Seq<u8>) -> Result<Seq<char>, MapError> {
    if valid_utf8(bytes) {
        Ok(decode_utf8(bytes))
    } else {
        Err(MapError::InvalidUtf8)
    }
}

pub open spec fn read_u8_at(data: Seq<u8>, pos: int) -> Step<u8> {
    let (p, r) = take_at(data, pos, 1);
    (
        p,
        match r {
            Ok(b) => Ok(b[0]),
            Err(e) => Err(e),
        },
    )
}

/// A stored boolean is true exactly when its byte is `0x01`.
pub open spec fn read_bool_at(data: Seq<u8>, pos: int) -> Step<bool> {
    let (p, r) = take_at(data, pos, 1);
    (
        p,
        match r {
            Ok(b) => Ok(b[0] == 1),
            Err(e) => Err(e),
        },
    )
}

pub open spec fn read_u16_at(data: Seq<u8>, pos: int) -> Step<u16> {
    let (p, r) = take_at(data, pos, 2);
    (
        p,
        match r {
            Ok(b) => Ok(le_u16(b)),
            Err(e) => Err(e),
        },
    )
}

pub open spec fn read_u32_at(data: Seq<u8>, pos: int) -> Step<u32> {
    let (p, r) = take_at(data, pos, 4);
    (
        p,
        match r {
            Ok(b) => Ok(le_u32(b)),
            Err(e) => Err(e),
        },
    )
}

pub open spec fn read_u64_at(data: Seq<u8>, pos: int) -> Step<u64> {
    let (p, r) = take_at(data, pos, 8);
    (
        p,
        match r {
            Ok(b) => Ok(le_u64(b)),
            Err(e) => Err(e),
        },
    )
}

/// A string of `n` bytes read after its length.
pub open spec fn read_text_body(data: Seq<u8>, pos: int, n: int) -> Step<Seq<char>> {
    let (p, r) = take_at(data, pos, n);
    (
        p,
        match r {
            Ok(b) => utf8_text(b),
            Err(e) => Err(e),
        },
    )
}

/// A string prefixed by its byte length as a `u16`.
pub open spec fn read_string_at(data: Seq<u8>, pos: int) -> Step<Seq<char>> {
    let (p, r) = read_u16_at(data, pos);
    match r {
        Ok(n) => read_text_body(data, p, n as int),
        Err(e) => (p, Err(e)),
    }
}

/// A string prefixed by its byte length as a `u32`.
pub open spec fn read_long_string_at(data: Seq<u8>, pos: int) -> Step<Seq<char>> {
    let (p, r) = read_u32_at(data, pos);
    match r {
        Ok(n) => read_text_body(data, p, n as int),
        Err(e) => (p, Err(e)),
    }
}

/// The index of the first `'\n'` at or after `pos`, or the length of `data`.
pub open spec fn line_end(data: Seq<u8>, pos: int) -> int
    decreases data.len() - pos,
{
    if pos < 0 || pos >= data.len() {
        data.len() as int
    } else if data[pos] == 10 {
        pos
    } else {
        line_end(data, pos + 1)
    }
}

/// A line: the bytes up to the next `'\n'` or the end of the data, with the
/// newline consumed but not kept.
pub open spec fn read_line_at(data: Seq<u8>, pos: int) -> Step<Seq<char>> {
    if pos >= data.len() {
        (pos, Ok(Seq::empty()))
    } else {
        let e = line_end(data, pos);
        (if e < data.len() { e + 1 } else { e }, utf8_text(data.subrange(pos, e)))
    }
}

/// A stored two-component position: a flag, then two `f32`s when the flag is
/// set or two bytes when it is not.
pub open spec fn read_vec2_at(data: Seq<u8>, pos: int) -> Step<StoredVec2> {
    let (p0, q) = read_bool_at(data, pos);
    match q {
        Err(e) => (p0, Err(e)),
        Ok(true) => {
            let (p1, x) = read_u32_at(data, p0);
            match x {
                Err(e) => (p1, Err(e)),
                Ok(x) => {
                    let (p2, y) = read_u32_at(data, p1);
                    match y {
                        Err(e) => (p2, Err(e)),
                        Ok(y) => (p2, Ok(StoredVec2::Quantum(x, y))),
                    }
                },
            }
        },
        Ok(false) => {
            let (p1, x) = read_u8_at(data, p0);
            match x {
                Err(e) => (p1, Err(e)),
                Ok(x) => {
                    let (p2, y) = read_u8_at(data, p1);
                    match y {
                        Err(e) => (p2, Err(e)),
                        Ok(y) => (p2, Ok(StoredVec2::Grid(x, y))),
                    }
                },
            }
        },
    }
}

/// A stored three-component position; see [`read_vec2_at`].
pub open spec fn read_vec3_at(data: Seq<u8>, pos: int) -> Step<StoredVec3> {
    let (p0, q) = read_bool_at(data, pos);
    match q {
        Err(e) => (p0, Err(e)),
        Ok(quantum) => {
            let (p1, a) = take_at(data, p0, if quantum { 4 } else { 1 });
            match a {
                Err(e) => (p1, Err(e)),
                Ok(a) => {
                    let (p2, b) = take_at(data, p1, if quantum { 4 } else { 1 });
                    match b {
                        Err(e) => (p2, Err(e)),
                        Ok(b) => {
                            let (p3, c) = take_at(data, p2, if quantum { 4 } else { 1 });
                            match c {
                                Err(e) => (p3, Err(e)),
                                Ok(c) => (
                                    p3,
                                    Ok(
                                        if quantum {
                                            StoredVec3::Quantum(le_u32(a), le_u32(b), le_u32(c))
                                        } else {
                                            StoredVec3::Grid(a[0], b[0], c[0])
                                        },
                                    ),
                                ),
                            }
                        },
                    }
                },
            }
        },
    }
}

/// A little-endian reader over a byte buffer.
pub struct BinaryReader {
    data: Vec<u8>,
    pos: u64,
}

impl BinaryReader {
    /// The bytes being read.
    pub closed spec fn source(&self) -> Seq<u8> {
        self.data@
    }

    /// The current position, which may lie past the end of the data.
    pub closed spec fn offset(&self) -> int {
        self.pos as int
    }

    /// The position is never negative.
    pub proof fn lemma_offset_nonnegative(&self)
        ensures
            0 <= self.offset(),
    {
    }

    /// Whether this reader stands at position `pos` of `data`.
    pub open spec fn at(&self, data: Seq<u8>, pos: int) -> bool {
        self.source() == data && self.offset() == pos
    }

    /// A reader at the start of `data`.
    pub fn new(data: Vec<u8>) -> (r: Self)
        ensures
            r.at(data@, 0),
    {
        BinaryReader { data, pos: 0 }
    }

    /// Moves the position; fails with `InvalidSeek`, moving nothing, when the
    /// target lies before the start or beyond `u64::MAX`.
    pub fn seek(&mut self, to: SeekFrom) -> (r: Result<u64, MapError>)
        ensures
            final(self).source() == old(self).source(),
            match seek_target(old(self).source().len() as int, old(self).offset(), to) {
                Some(p) => r == Ok::<u64, MapError>(p) && final(self).offset() == p,
                None => r == Err::<u64, MapError>(MapError::InvalidSeek) && final(self).offset()
                    == old(self).offset(),
            },
    {
        let len = self.data.len() as u64;
        match seek_to(len, self.pos, to) {
            Some(p) => {
                self.pos = p;
                Ok(p)
            },
            None => Err(MapError::InvalidSeek),
        }
    }

    /// The current position.
    pub fn stream_position(&mut self) -> (r: Result<u64, MapError>)
        ensures
            *final(self) == *old(self),
            r matches Ok(p) && p as int == old(self).offset(),
    {
        Ok(self.pos)
    }

    /// Reads `n` bytes.
    pub fn read_bytes(&mut self, n: usize) -> (r: Result<Vec<u8>, MapError>)
        ensures
            final(self).source() == old(self).source(),
            ({
                let (p, s) = take_at(old(self).source(), old(self).offset(), n as int);
                &&& final(self).offset() == p
                &&& match s {
                    Ok(b) => r matches Ok(v) && v@ == b,
                    Err(e) => r == Err::<Vec<u8>, MapError>(e),
                }
            }),
    {
        let len = self.data.len();
        if n == 0 {
            return Ok(Vec::new());
        }
        if self.pos > len as u64 || (n as u64) > (len as u64) - self.pos {
            self.pos = len as u64;
            return Err(MapError::UnexpectedEof);
        }
        let start = self.pos as usize;
        let mut out: Vec<u8> = Vec::with_capacity(n);
        let mut i: usize = 0;
        while i < n
            invariant
                start + n <= len,
                len == self.data@.len(),
                i <= n,
                out@ == self.data@.subrange(start as int, start + i),
            decreases n - i,
        {
            out.push(self.data[start + i]);
            i = i + 1;
            assert(out@ =~= self.data@.subrange(start as int, start + i));
        }
        self.pos = self.pos + n as u64;
        Ok(out)
    }

    /// Reads a byte and tells whether it is `0x01`.
    pub fn read_bool(&mut self) -> (r: Result<bool, MapError>)
        ensures
            final(self).source() == old(self).source(),
            (final(self).offset(), r) == read_bool_at(old(self).source(), old(self).offset()),
    {
        let b = self.read_bytes(1)?;
        Ok(b[0] == 1)
    }

    /// Reads a byte.
    pub fn read_u8(&mut self) -> (r: Result<u8, MapError>)
        ensures
            final(self).source() == old(self).source(),
            (final(self).offset(), r) == read_u8_at(old(self).source(), old(self).offset()),
    {
        let b = self.read_bytes(1)?;
        Ok(b[0])
    }

    /// Reads a little-endian `u16`.
    pub fn read_u16(&mut self) -> (r: Result<u16, MapError>)
        ensures
            final(self).source() == old(self).source(),
            (final(self).offset(), r) == read_u16_at(old(self).source(), old(self).offset()),
    {
        let b = self.read_bytes(2)?;
        Ok(decode_u16(b.as_slice()))
    }

    /// Reads a little-endian `u32`.
    pub fn read_u32(&mut self) -> (r: Result<u32, MapError>)
        ensures
            final(self).source() == old(self).source(),
            (final(self).offset(), r) == read_u32_at(old(self).source(), old(self).offset()),
    {
        let b = self.read_bytes(4)?;
        Ok(decode_u32(b.as_slice()))
    }

    /// Reads a little-endian `u64`.
    pub fn read_u64(&mut self) -> (r: Result<u64, MapError>)
        ensures
            final(self).source() == old(self).source(),
            (final(self).offset(), r) == read_u64_at(old(self).source(), old(self).offset()),
    {
        let b = self.read_bytes(8)?;
        Ok(decode_u64(b.as_slice()))
    }

    fn read_text(&mut self, n: usize) -> (r: Result<String, MapError>)
        ensures
            final(self).source() == old(self).source(),
            ({
                let (p, s) = read_text_body(old(self).source(), old(self).offset(), n as int);
                &&& final(self).offset() == p
                &&& text_result(r) == s
            }),
    {
        let b = self.read_bytes(n)?;
        decode_text(b)
    }

    /// Reads a string prefixed by its byte length as a `u16`.
    pub fn read_string(&mut self) -> (r: Result<String, MapError>)
        ensures
            final(self).source() == old(self).source(),
            (final(self).offset(), text_result(r)) == read_string_at(
                old(self).source(),
                old(self).offset(),
            ),
    {
        let n = self.read_u16()?;
        self.read_text(n as usize)
    }

    /// Reads the bytes up to the next newline, or to the end of the data,
    /// as a string; the newline itself is consumed and not kept.
    pub fn read_newline_string(&mut self) -> (r: Result<String, MapError>)
        ensures
            final(self).source() == old(self).source(),
            (final(self).offset(), text_result(r)) == read_line_at(
                old(self).source(),
                old(self).offset(),
            ),
    {
        let len = self.data.len();
        let mut buffer: Vec<u8> = Vec::new();
        if self.pos >= len as u64 {
            return decode_text(buffer);
        }
        let start = self.pos as usize;
        let mut i = start;
        while i < len && self.data[i] != 10
            invariant
                start <= i <= len,
                len == self.data@.len(),
                start < len,
                buffer@ == self.data@.subrange(start as int, i as int),
                line_end(self.data@, start as int) == line_end(self.data@, i as int),
            decreases len - i,
        {
            buffer.push(self.data[i]);
            i = i + 1;
            assert(buffer@ =~= self.data@.subrange(start as int, i as int));
        }
        self.pos = if i < len {
            (i + 1) as u64
        } else {
            i as u64
        };
        decode_text(buffer)
    }

    /// Reads a string prefixed by its byte length as a `u32`.
    pub fn read_long_string(&mut self) -> (r: Result<String, MapError>)
        ensures
            final(self).source() == old(self).source(),
            (final(self).offset(), text_result(r)) == read_long_string_at(
                old(self).source(),
                old(self).offset(),
            ),
    {
        let n = self.read_u32()?;
        self.read_text(n as usize)
    }

    /// Reads the 20 bytes of a SHA-1 digest.
    pub fn read_sha1(&mut self) -> (r: Result<[u8; 20], MapError>)
        ensures
            final(self).source() == old(self).source(),
            ({
                let (p, s) = take_at(old(self).source(), old(self).offset(), 20);
                &&& final(self).offset() == p
                &&& match s {
                    Ok(b) => r matches Ok(a) && a@ == b,
                    Err(e) => r == Err::<[u8; 20], MapError>(e),
                }
            }),
    {
        let b = self.read_bytes(20)?;
        let mut out = [0u8; 20];
        let mut i: usize = 0;
        while i < 20
            invariant
                b@.len() == 20,
                i <= 20,
                forall|k: int| 0 <= k < i ==> out@[k] == b@[k],
            decreases 20 - i,
        {
            out[i] = b[i];
            i = i + 1;
        }
        assert(out@ =~= b@);
        Ok(out)
    }

    /// Reads a stored two-component position: a flag byte, then two `f32`
    /// bit patterns when it is `0x01` or two bytes otherwise.
    pub fn read_vec2(&mut self) -> (r: Result<StoredVec2, MapError>)
        ensures
            final(self).source() == old(self).source(),
            (final(self).offset(), r) == read_vec2_at(old(self).source(), old(self).offset()),
    {
        let quantum = self.read_bool()?;
        if quantum {
            let x = self.read_u32()?;
            let y = self.read_u32()?;
            Ok(StoredVec2::Quantum(x, y))
        } else {
            let x = self.read_u8()?;
            let y = self.read_u8()?;
            Ok(StoredVec2::Grid(x, y))
        }
    }

    /// Reads a stored three-component position; see [`BinaryReader::read_vec2`].
    pub fn read_vec3(&mut self) -> (r: Result<StoredVec3, MapError>)
        ensures
            final(self).source() == old(self).source(),
            (final(self).offset(), r) == read_vec3_at(old(self).source(), old(self).offset()),
    {
        let quantum = self.read_bool()?;
        if quantum {
            let x = self.read_u32()?;
            let y = self.read_u32()?;
            let z = self.read_u32()?;
            Ok(StoredVec3::Quantum(x, y, z))
        } else {
            let x = self.read_u8()?;
            let y = self.read_u8()?;
            let z = self.read_u8()?;
            Ok(StoredVec3::Grid(x, y, z))
        }
    }

    /// Fills `buf` from the data; on failure `buf` is left as it was.
    pub fn read_exact(&mut self, buf: &mut [u8]) -> (r: Result<(), MapError>)
        ensures
            final(self).source() == old(self).source(),
            final(buf)@.len() == old(buf)@.len(),
            ({
                let (p, s) = take_at(old(self).source(), old(self).offset(), old(buf)@.len() as int);
                &&& final(self).offset() == p
                &&& match s {
                    Ok(b) => r is Ok && final(buf)@ == b,
                    Err(e) => r == Err::<(), MapError>(e) && final(buf)@ == old(buf)@,
                }
            }),
    {
        let n = buf.len();
        let b = self.read_bytes(n)?;
        let mut i: usize = 0;
        while i < n
            invariant
                b@.len() == n,
                buf@.len() == n,
                i <= n,
                forall|k: int| 0 <= k < i ==> buf@[k] == b@[k],
            decreases n - i,
        {
            buf[i] = b[i];
            i = i + 1;
        }
        assert(buf@ =~= b@);
        Ok(())
    }
}

/// The buffer `buf` after writing `bytes` at `pos`: a gap between the end of
/// the buffer and `pos` is filled with zeros, and bytes at `pos` onwards are
/// overwritten or appended. Writing nothing changes nothing.
pub open spec fn write_at(buf: Seq<u8>, pos: int, bytes: Seq<u8>) -> Seq<u8> {
    if bytes.len() == 0 {
        buf
    } else {
        let padded = if pos > buf.len() {
            buf + Seq::new((pos - buf.len()) as nat, |i: int| 0u8)
        } else {
            buf
        };
        let end = pos + bytes.len();
        padded.subrange(0, pos) + bytes + if end < padded.len() {
            padded.subrange(end, padded.len() as int)
        } else {
            Seq::empty()
        }
    }
}

/// Writing at the end of a buffer appends.
pub proof fn lemma_write_append(buf: Seq<u8>, bytes: Seq<u8>)
    ensures
        write_at(buf, buf.len() as int, bytes) == buf + bytes,
{
    if bytes.len() == 0 {
        assert(buf + bytes =~= buf);
    } else {
        assert(buf.subrange(0, buf.len() as int) =~= buf);
    }
}

/// Writing over a part of a buffer replaces just that part.
pub proof fn lemma_write_over(prefix: Seq<u8>, old_mid: Seq<u8>, suffix: Seq<u8>, new_mid: Seq<u8>)
    requires
        old_mid.len() == new_mid.len(),
        new_mid.len() > 0,
    ensures
        write_at(prefix + old_mid + suffix, prefix.len() as int, new_mid) == prefix + new_mid
            + suffix,
{
    let buf = prefix + old_mid + suffix;
    let end: int = (prefix.len() + new_mid.len()) as int;
    assert(buf.subrange(0, prefix.len() as int) =~= prefix);
    if end < buf.len() {
        assert(buf.subrange(end, buf.len() as int) =~= suffix);
    } else {
        assert(suffix =~= Seq::<u8>::empty());
    }
    assert(write_at(buf, prefix.len() as int, new_mid) =~= prefix + new_mid + suffix);
}

/// A little-endian writer into a growable byte buffer.
pub struct BinaryWriter {
    buf: Vec<u8>,
    pos: u64,
}

impl BinaryWriter {
    /// The bytes written so far (with whatever the buffer held before).
    pub closed spec fn written(&self) -> Seq<u8> {
        self.buf@
    }

    /// The current position, which may lie past the end of the buffer.
    pub closed spec fn position(&self) -> int {
        self.pos as int
    }

    /// Whether this writer holds `buf` and stands at `pos`.
    pub open spec fn at(&self, buf: Seq<u8>, pos: int) -> bool {
        self.written() == buf && self.position() == pos
    }

    /// Whether `n` more bytes can be written here: a buffer never grows past
    /// `isize::MAX` bytes.
    pub open spec fn has_room(&self, n: int) -> bool {
        self.position() + n <= isize::MAX
    }

    /// A writer at the start of `buf`, which it overwrites.
    pub fn new(buf: Vec<u8>) -> (w: Self)
        ensures
            w.at(buf@, 0),
    {
        BinaryWriter { buf, pos: 0 }
    }

    /// The buffer.
    pub fn into_inner(self) -> (b: Vec<u8>)
        ensures
            b@ == self.written(),
    {
        self.buf
    }

    /// Writes `bytes` at the current position and moves past them.
    pub fn write_all(&mut self, bytes: &[u8]) -> (r: Result<(), MapError>)
        requires
            old(self).has_room(bytes@.len() as int),
        ensures
            r is Ok,
            final(self).at(
                write_at(old(self).written(), old(self).position(), bytes@),
                old(self).position() + bytes@.len(),
            ),
    {
        let n = bytes.len();
        if n == 0 {
            return Ok(());
        }
        let pos = self.pos as usize;
        let ghost old_buf = self.buf@;
        if self.buf.len() < pos {
            while self.buf.len() < pos
                invariant
                    pos == self.pos,
                    old_buf.len() <= self.buf@.len() <= pos,
                    self.buf@ =~= old_buf + Seq::new(
                        (self.buf@.len() - old_buf.len()) as nat,
                        |i: int| 0u8,
                    ),
                decreases pos - self.buf.len(),
            {
                self.buf.push(0);
            }
        }
        let ghost padded = self.buf@;
        let mut i: usize = 0;
        while i < n
            invariant
                pos == self.pos,
                pos + n <= isize::MAX,
                n == bytes@.len(),
                padded.len() >= pos,
                i <= n,
                self.buf@.len() == if padded.len() > pos + i {
                    padded.len() as int
                } else {
                    pos + i
                },
                forall|k: int| 0 <= k < pos ==> self.buf@[k] == padded[k],
                forall|k: int| pos <= k < pos + i ==> self.buf@[k] == bytes@[k - pos],
                forall|k: int| pos + i <= k < self.buf@.len() ==> self.buf@[k] == padded[k],
            decreases n - i,
        {
            let at = pos + i;
            if at < self.buf.len() {
                self.buf.set(at, bytes[i]);
            } else {
                self.buf.push(bytes[i]);
            }
            i = i + 1;
        }
        self.pos = self.pos + n as u64;
        proof {
            let target = write_at(old_buf, pos as int, bytes@);
            assert(padded =~= if pos > old_buf.len() {
                old_buf + Seq::new((pos - old_buf.len()) as nat, |i: int| 0u8)
            } else {
                old_buf
            });
            assert(self.buf@ =~= target);
        }
        Ok(())
    }

    /// Writes `0x01` for true and `0x00` for false.
    pub fn write_bool(&mut self, value: bool) -> (r: Result<(), MapError>)
        requires
            old(self).has_room(1),
        ensures
            r is Ok,
            final(self).at(
                write_at(old(self).written(), old(self).position(), seq![if value { 1u8 } else { 0u8 }]),
                old(self).position() + 1,
            ),
    {
        let byte: u8 = if value {
            1
        } else {
            0
        };
        let b = [byte];
        assert(b@ =~= seq![byte]);
        self.write_all(&b)
    }

    /// Writes a byte.
    pub fn write_u8(&mut self, value: u8) -> (r: Result<(), MapError>)
        requires
            old(self).has_room(1),
        ensures
            r is Ok,
            final(self).at(
                write_at(old(self).written(), old(self).position(), seq![value]),
                old(self).position() + 1,
            ),
    {
        let b = [value];
        assert(b@ =~= seq![value]);
        self.write_all(&b)
    }

    /// Writes a little-endian `u16`.
    pub fn write_u16(&mut self, value: u16) -> (r: Result<(), MapError>)
        requires
            old(self).has_room(2),
        ensures
            r is Ok,
            final(self).at(
                write_at(old(self).written(), old(self).position(), u16_le(value)),
                old(self).position() + 2,
            ),
    {
        let b = encode_u16(value);
        self.write_all(&b)
    }

    /// Writes a little-endian `u32`.
    pub fn write_u32(&mut self, value: u32) -> (r: Result<(), MapError>)
        requires
            old(self).has_room(4),
        ensures
            r is Ok,
            final(self).at(
                write_at(old(self).written(), old(self).position(), u32_le(value)),
                old(self).position() + 4,
            ),
    {
        let b = encode_u32(value);
        self.write_all(&b)
    }

    /// Writes a little-endian `u64`.
    pub fn write_u64(&mut self, value: u64) -> (r: Result<(), MapError>)
        requires
            old(self).has_room(8),
        ensures
            r is Ok,
            final(self).at(
                write_at(old(self).written(), old(self).position(), u64_le(value)),
                old(self).position() + 8,
            ),
    {
        let b = encode_u64(value);
        self.write_all(&b)
    }

    /// Writes the UTF-8 bytes of `value` after their length as a `u16`; a
    /// length above `u16::MAX` is written modulo 2^16.
    pub fn write_string(&mut self, value: &str) -> (r: Result<(), MapError>)
        requires
            old(self).has_room(2 + encode_utf8(value@).len() as int),
        ensures
            r is Ok,
            final(self).at(
                write_at(
                    write_at(
                        old(self).written(),
                        old(self).position(),
                        u16_le((encode_utf8(value@).len() % 0x1_0000) as u16),
                    ),
                    old(self).position() + 2,
                    encode_utf8(value@),
                ),
                old(self).position() + 2 + encode_utf8(value@).len(),
            ),
    {
        let len = (value.len() % 0x1_0000) as u16;
        self.write_u16(len)?;
        self.write_all(value.as_bytes())
    }

    /// Writes the UTF-8 bytes of `value` after their length as a `u32`; a
    /// length above `u32::MAX` is written modulo 2^32.
    pub fn write_long_string(&mut self, value: &str) -> (r: Result<(), MapError>)
        requires
            old(self).has_room(4 + encode_utf8(value@).len() as int),
        ensures
            r is Ok,
            final(self).at(
                write_at(
                    write_at(
                        old(self).written(),
                        old(self).position(),
                        u32_le((encode_utf8(value@).len() % 0x1_0000_0000) as u32),
                    ),
                    old(self).position() + 4,
                    encode_utf8(value@),
                ),
                old(self).position() + 4 + encode_utf8(value@).len(),
            ),
    {
        let len = (value.len() as u64 % 0x1_0000_0000) as u32;
        self.write_u32(len)?;
        self.write_all(value.as_bytes())
    }

    /// Writes the 20 bytes of a SHA-1 digest.
    pub fn write_sha1(&mut self, value: &[u8; 20]) -> (r: Result<(), MapError>)
        requires
            old(self).has_room(20),
        ensures
            r is Ok,
            final(self).at(
                write_at(old(self).written(), old(self).position(), value@),
                old(self).position() + 20,
            ),
    {
        self.write_all(value)
    }

    /// The current position.
    pub fn stream_position(&mut self) -> (r: Result<u64, MapError>)
        ensures
            *final(self) == *old(self),
            r matches Ok(p) && p as int == old(self).position(),
    {
        Ok(self.pos)
    }

    /// Moves the position; fails with `InvalidSeek`, moving nothing, when the
    /// target lies before the start or beyond `u64::MAX`.
    pub fn seek(&mut self, to: SeekFrom) -> (r: Result<u64, MapError>)
        ensures
            final(self).written() == old(self).written(),
            match seek_target(old(self).written().len() as int, old(self).position(), to) {
                Some(p) => r == Ok::<u64, MapError>(p) && final(self).position() == p,
                None => r == Err::<u64, MapError>(MapError::InvalidSeek) && final(self).position()
                    == old(self).position(),
            },
    {
        let len = self.buf.len() as u64;
        match seek_to(len, self.pos, to) {
            Some(p) => {
                self.pos = p;
                Ok(p)
            },
            None => Err(MapError::InvalidSeek),
        }
    }
}

/// The target of a seek, computed without overflow.
fn seek_to(len: u64, pos: u64, to: SeekFrom) -> (r: Option<u64>)
    ensures
        r == seek_target(len as int, pos as int, to),
{
    match to {
        SeekFrom::Start(n) => Some(n),
        SeekFrom::End(d) => offset_by(len, d),
        SeekFrom::Current(d) => offset_by(pos, d),
    }
}

fn offset_by(base: u64, d: i64) -> (r: Option<u64>)
    ensures
        r == (if 0 <= base + d <= u64::MAX {
            Some((base + d) as u64)
        } else {
            None::<u64>
        }),
{
    if d >= 0 {
        base.checked_add(d as u64)
    } else {
        let m: u64 = if d == i64::MIN {
            0x8000_0000_0000_0000
        } else {
            (-d) as u64
        };
        if m <= base {
            Some(base - m)
        } else {
            None
        }
    }
}

/// The view of a text result: the characters of the string, or the error.
pub open spec fn text_result(r: Result<String, MapError>) -> Result<Seq<char>, MapError> {
    match r {
        Ok(s) => Ok(s@),
        Err(e) => Err(e),
    }
}

/// Decodes UTF-8, failing with `InvalidUtf8`.
pub fn decode_text(bytes: Vec<u8>) -> (r: Result<String, MapError>)
    ensures
        text_result(r) == utf8_text(bytes@),
{
    match string_from_utf8(bytes) {
        Some(s) => Ok(s),
        None => Err(MapError::InvalidUtf8),
    }
}

/// `String::from_utf8`: the string that `bytes` encode when they are valid
/// UTF-8, and nothing otherwise.
#[verifier::external_body]
fn string_from_utf8(bytes: Vec<u8>) -> (r: Option<String>)
    ensures
        match r {
            Some(s) => valid_utf8(bytes@) && s@ == decode_utf8(bytes@),
            None => !valid_utf8(bytes@),
        },
{
    String::from_utf8(bytes).ok()
}

} // verus!
