//! A reader over the input bytes: a slice and a position in it.
use vstd::prelude::*;
use vstd::slice::slice_subrange;
use crate::error::{ErrorKind, ErrorModel};
use crate::text::{string_from_utf8_lossy, utf8_lossy};

verus! {

/// The number that two bytes stand for, the first the low one.
pub open spec fn u16_of(b0: u8, b1: u8) -> u16 {
    (b0 + 0x100 * b1) as u16
}

/// The number that four bytes stand for, the first the lowest.
pub open spec fn u32_of(b0: u8, b1: u8, b2: u8, b3: u8) -> u32 {
    (b0 + 0x100 * b1 + 0x1_0000 * b2 + 0x100_0000 * b3) as u32
}

/// The number that eight bytes stand for, the first the lowest.
pub open spec fn u64_of(b: Seq<u8>) -> u64
    recommends
        b.len() == 8,
{
    (u32_of(b[0], b[1], b[2], b[3]) + 0x1_0000_0000 * u32_of(b[4], b[5], b[6], b[7])) as u64
}

/// The 16-bit number at `at`, in the byte order asked for.
pub open spec fn u16_at(s: Seq<u8>, at: int, big_endian: bool) -> u16 {
    if big_endian {
        u16_of(s[at + 1], s[at])
    } else {
        u16_of(s[at], s[at + 1])
    }
}

/// The 32-bit number at `at`, in the byte order asked for.
pub open spec fn u32_at(s: Seq<u8>, at: int, big_endian: bool) -> u32 {
    if big_endian {
        u32_of(s[at + 3], s[at + 2], s[at + 1], s[at])
    } else {
        u32_of(s[at], s[at + 1], s[at + 2], s[at + 3])
    }
}

/// The 64-bit number at `at`, in the byte order asked for.
pub open spec fn u64_at(s: Seq<u8>, at: int, big_endian: bool) -> u64 {
    if big_endian {
        u64_of(s.subrange(at, at + 8).reverse())
    } else {
        u64_of(s.subrange(at, at + 8))
    }
}

/// The signed reading of a byte in two's complement.
pub open spec fn i8_of(u: u8) -> i8 {
    if u < 0x80 {
        u as i8
    } else {
        (u - 0x100) as i8
    }
}

/// The signed reading of a 16-bit number in two's complement.
pub open spec fn i16_of(u: u16) -> i16 {
    if u < 0x8000 {
        u as i16
    } else {
        (u - 0x1_0000) as i16
    }
}

/// The signed reading of a 32-bit number in two's complement.
pub open spec fn i32_of(u: u32) -> i32 {
    if u < 0x8000_0000 {
        u as i32
    } else {
        (u - 0x1_0000_0000) as i32
    }
}

/// The signed reading of a 64-bit number in two's complement.
pub open spec fn i64_of(u: u64) -> i64 {
    if u < 0x8000_0000_0000_0000 {
        u as i64
    } else {
        (u - 0x1_0000_0000_0000_0000) as i64
    }
}

/// The error of a result, if it is one.
pub open spec fn failure_of<T>(r: Result<T, ErrorKind>) -> Option<ErrorModel> {
    match r {
        Ok(_) => None,
        Err(e) => Some(e@),
    }
}

/// A slice of input bytes and the position of the next byte to read.
pub struct ByteReader<'input> {
    pub offset: usize,
    pub bytes: &'input [u8],
}

impl<'input> ByteReader<'input> {
    /// Whether `len` bytes are left from the position on.
    pub open spec fn can_read(&self, len: int) -> bool {
        self.offset + len <= self.bytes@.len()
    }

    /// The number of bytes left from the position on.
    pub open spec fn remaining(&self) -> int {
        if self.offset <= self.bytes@.len() {
            self.bytes@.len() - self.offset
        } else {
            0
        }
    }

    /// The error of a read of `len` bytes that are not there.
    pub open spec fn out_of_bounds(&self, len: usize) -> ErrorModel {
        ErrorModel::OutOfBoundsRead {
            offset: self.offset,
            requested_len: len,
            remaining_len: self.remaining() as usize,
        }
    }

    /// What a read of `len` bytes does to the reader: it moves the position
    /// on by `len` where the bytes are there, and fails with the reader
    /// unchanged where they are not.
    pub open spec fn read_moves(&self, len: usize, after: &Self, failed: Option<ErrorModel>) -> bool {
        &&& after.bytes == self.bytes
        &&& if self.can_read(len as int) {
            failed is None && after.offset == self.offset + len
        } else {
            failed == Some(self.out_of_bounds(len)) && after.offset == self.offset
        }
    }

    /// A reader at the first byte.
    pub fn new(bytes: &'input [u8]) -> (r: Self)
        ensures
            r.bytes == bytes,
            r.offset == 0,
    {
        Self { bytes, offset: 0 }
    }

    /// The number of bytes, read or not.
    pub fn len(&self) -> (r: usize)
        ensures
            r == self.bytes@.len(),
    {
        self.bytes.len()
    }

    /// The position of the next byte to read.
    pub fn offset(&self) -> (r: usize)
        ensures
            r == self.offset,
    {
        self.offset
    }

    /// Reads `len` bytes and moves on; fails, and reads nothing, where fewer
    /// are left.
    pub fn read_bytes(&mut self, len: usize) -> (r: Result<&'input [u8], ErrorKind>)
        ensures
            old(self).read_moves(
                len,
                final(self),
                failure_of(r),
            ),
            r matches Ok(b) ==> b@ == old(self).bytes@.subrange(
                old(self).offset as int,
                old(self).offset + len,
            ),
    {
        let total = self.bytes.len();
        if self.offset <= total && len <= total - self.offset {
            let bytes = slice_subrange(self.bytes, self.offset, self.offset + len);
            self.offset = self.offset + len;
            Ok(bytes)
        } else {
            let remaining = if self.offset <= total {
                total - self.offset
            } else {
                0
            };
            Err(
                ErrorKind::OutOfBoundsRead {
                    offset: self.offset,
                    requested_len: len,
                    remaining_len: remaining,
                },
            )
        }
    }

    /// Whether the position is at the last byte or past it.
    pub fn is_end(&self) -> (r: bool)
        ensures
            r == (self.offset + 1 >= self.bytes@.len()),
    {
        self.offset >= self.bytes.len() || self.bytes.len() - self.offset <= 1
    }

    /// Reads a byte.
    pub fn read_next_u8(&mut self) -> (r: Result<u8, ErrorKind>)
        ensures
            old(self).read_moves(
                1,
                final(self),
                failure_of(r),
            ),
            r matches Ok(v) ==> v == old(self).bytes@[old(self).offset as int],
    {
        let b = self.read_bytes(1)?;
        Ok(b[0])
    }

    /// Reads a byte as a signed number in two's complement.
    pub fn read_next_i8(&mut self) -> (r: Result<i8, ErrorKind>)
        ensures
            old(self).read_moves(
                1,
                final(self),
                failure_of(r),
            ),
            r matches Ok(v) ==> v == i8_of(old(self).bytes@[old(self).offset as int]),
    {
        let b = self.read_bytes(1)?;
        Ok(to_i8(b[0]))
    }

    /// Reads a 16-bit number in the byte order asked for.
    pub fn read_next_u16(&mut self, is_big_endian: bool) -> (r: Result<u16, ErrorKind>)
        ensures
            old(self).read_moves(
                2,
                final(self),
                failure_of(r),
            ),
            r matches Ok(v) ==> v == u16_at(old(self).bytes@, old(self).offset as int, is_big_endian),
    {
        let b = self.read_bytes(2)?;
        Ok(
            if is_big_endian {
                to_u16(b[1], b[0])
            } else {
                to_u16(b[0], b[1])
            },
        )
    }

    /// Reads a signed 16-bit number in the byte order asked for.
    pub fn read_next_i16(&mut self, is_big_endian: bool) -> (r: Result<i16, ErrorKind>)
        ensures
            old(self).read_moves(
                2,
                final(self),
                failure_of(r),
            ),
            r matches Ok(v) ==> v == i16_of(
                u16_at(old(self).bytes@, old(self).offset as int, is_big_endian),
            ),
    {
        let u = self.read_next_u16(is_big_endian)?;
        Ok(to_i16(u))
    }

    /// Reads a 32-bit number in the byte order asked for.
    pub fn read_next_u32(&mut self, is_big_endian: bool) -> (r: Result<u32, ErrorKind>)
        ensures
            old(self).read_moves(
                4,
                final(self),
                failure_of(r),
            ),
            r matches Ok(v) ==> v == u32_at(old(self).bytes@, old(self).offset as int, is_big_endian),
    {
        let b = self.read_bytes(4)?;
        Ok(
            if is_big_endian {
                to_u32(b[3], b[2], b[1], b[0])
            } else {
                to_u32(b[0], b[1], b[2], b[3])
            },
        )
    }

    /// Reads a signed 32-bit number in the byte order asked for.
    pub fn read_next_i32(&mut self, is_big_endian: bool) -> (r: Result<i32, ErrorKind>)
        ensures
            old(self).read_moves(
                4,
                final(self),
                failure_of(r),
            ),
            r matches Ok(v) ==> v == i32_of(
                u32_at(old(self).bytes@, old(self).offset as int, is_big_endian),
            ),
    {
        let u = self.read_next_u32(is_big_endian)?;
        Ok(to_i32(u))
    }

    /// Reads the bit pattern of a binary32 number.
    pub fn read_next_f32(&mut self, is_big_endian: bool) -> (r: Result<u32, ErrorKind>)
        ensures
            old(self).read_moves(
                4,
                final(self),
                failure_of(r),
            ),
            r matches Ok(v) ==> v == u32_at(old(self).bytes@, old(self).offset as int, is_big_endian),
    {
        self.read_next_u32(is_big_endian)
    }

    /// Reads a 64-bit number in the byte order asked for.
    pub fn read_next_u64(&mut self, is_big_endian: bool) -> (r: Result<u64, ErrorKind>)
        ensures
            old(self).read_moves(
                8,
                final(self),
                failure_of(r),
            ),
            r matches Ok(v) ==> v == u64_at(old(self).bytes@, old(self).offset as int, is_big_endian),
    {
        let b = self.read_bytes(8)?;
        let (low, high) = if is_big_endian {
            (to_u32(b[7], b[6], b[5], b[4]), to_u32(b[3], b[2], b[1], b[0]))
        } else {
            (to_u32(b[0], b[1], b[2], b[3]), to_u32(b[4], b[5], b[6], b[7]))
        };
        Ok(low as u64 + 0x1_0000_0000 * (high as u64))
    }

    /// Reads a signed 64-bit number in the byte order asked for.
    pub fn read_next_i64(&mut self, is_big_endian: bool) -> (r: Result<i64, ErrorKind>)
        ensures
            old(self).read_moves(
                8,
                final(self),
                failure_of(r),
            ),
            r matches Ok(v) ==> v == i64_of(
                u64_at(old(self).bytes@, old(self).offset as int, is_big_endian),
            ),
    {
        let u = self.read_next_u64(is_big_endian)?;
        Ok(to_i64(u))
    }

    /// Reads the bit pattern of a binary64 number.
    pub fn read_next_f64(&mut self, is_big_endian: bool) -> (r: Result<u64, ErrorKind>)
        ensures
            old(self).read_moves(
                8,
                final(self),
                failure_of(r),
            ),
            r matches Ok(v) ==> v == u64_at(old(self).bytes@, old(self).offset as int, is_big_endian),
    {
        self.read_next_u64(is_big_endian)
    }

    /// Reads `len` bytes as text, with a replacement character for every
    /// part that is not well-formed UTF-8. Well-formed bytes give the text
    /// that they encode.
    pub fn read_next_uft8_string(&mut self, len: usize) -> (r: Result<String, ErrorKind>)
        ensures
            old(self).read_moves(
                len,
                final(self),
                failure_of(r),
            ),
            r matches Ok(s) ==> s@ == utf8_lossy(
                old(self).bytes@.subrange(old(self).offset as int, old(self).offset + len),
            ),
            r matches Ok(s) ==> (vstd::utf8::valid_utf8(
                old(self).bytes@.subrange(old(self).offset as int, old(self).offset + len),
            ) ==> s@ == vstd::utf8::decode_utf8(
                old(self).bytes@.subrange(old(self).offset as int, old(self).offset + len),
            )),
    {
        let b = self.read_bytes(len)?;
        Ok(string_from_utf8_lossy(b))
    }

    /// Moves the position back to the first byte.
    pub fn reset(&mut self)
        ensures
            final(self).offset == 0,
            final(self).bytes == old(self).bytes,
    {
        self.offset = 0
    }

    /// The byte at `index`, wherever the position is.
    pub fn index(&self, index: usize) -> (r: u8)
        requires
            index < self.bytes@.len(),
        ensures
            r == self.bytes@[index as int],
    {
        self.bytes[index]
    }

    /// The bytes from `start` up to `end`, wherever the position is.
    pub fn range(&self, start: usize, end: usize) -> (r: &'input [u8])
        requires
            start <= end <= self.bytes@.len(),
        ensures
            r@ == self.bytes@.subrange(start as int, end as int),
    {
        slice_subrange(self.bytes, start, end)
    }
}

/// The signed reading of a byte in two's complement.
pub fn to_i8(u: u8) -> (r: i8)
    ensures
        r == i8_of(u),
{
    if u < 0x80 {
        u as i8
    } else {
        (u as i16 - 0x100) as i8
    }
}

/// The signed reading of a 16-bit number in two's complement.
pub fn to_i16(u: u16) -> (r: i16)
    ensures
        r == i16_of(u),
{
    if u < 0x8000 {
        u as i16
    } else {
        (u as i32 - 0x1_0000) as i16
    }
}

/// The signed reading of a 32-bit number in two's complement.
pub fn to_i32(u: u32) -> (r: i32)
    ensures
        r == i32_of(u),
{
    if u < 0x8000_0000 {
        u as i32
    } else {
        (u as i64 - 0x1_0000_0000) as i32
    }
}

/// The signed reading of a 64-bit number in two's complement.
pub fn to_i64(u: u64) -> (r: i64)
    ensures
        r == i64_of(u),
{
    if u < 0x8000_0000_0000_0000 {
        u as i64
    } else {
        (u as i128 - 0x1_0000_0000_0000_0000) as i64
    }
}

/// The number that two bytes stand for, the first the low one.
pub fn to_u16(b0: u8, b1: u8) -> (r: u16)
    ensures
        r == u16_of(b0, b1),
{
    b0 as u16 + 0x100 * (b1 as u16)
}

/// The number that four bytes stand for, the first the lowest.
pub fn to_u32(b0: u8, b1: u8, b2: u8, b3: u8) -> (r: u32)
    ensures
        r == u32_of(b0, b1, b2, b3),
{
    b0 as u32 + 0x100 * (b1 as u32) + 0x1_0000 * (b2 as u32) + 0x100_0000 * (b3 as u32)
}

/// The 16-bit number at `at` of a slice, in the byte order asked for.
pub fn get_u16(bytes: &[u8], at: usize, big_endian: bool) -> (r: u16)
    requires
        at + 2 <= bytes@.len(),
    ensures
        r == u16_at(bytes@, at as int, big_endian),
{
    let _ = bytes.len();
    if big_endian {
        to_u16(bytes[at + 1], bytes[at])
    } else {
        to_u16(bytes[at], bytes[at + 1])
    }
}

/// The 32-bit number at `at` of a slice, in the byte order asked for.
pub fn get_u32(bytes: &[u8], at: usize, big_endian: bool) -> (r: u32)
    requires
        at + 4 <= bytes@.len(),
    ensures
        r == u32_at(bytes@, at as int, big_endian),
{
    let _ = bytes.len();
    if big_endian {
        to_u32(bytes[at + 3], bytes[at + 2], bytes[at + 1], bytes[at])
    } else {
        to_u32(bytes[at], bytes[at + 1], bytes[at + 2], bytes[at + 3])
    }
}

/// The 64-bit number at `at` of a slice, in the byte order asked for.
pub fn get_u64(bytes: &[u8], at: usize, big_endian: bool) -> (r: u64)
    requires
        at + 8 <= bytes@.len(),
    ensures
        r == u64_at(bytes@, at as int, big_endian),
{
    let _ = bytes.len();
    let (low, high) = if big_endian {
        (
            to_u32(bytes[at + 7], bytes[at + 6], bytes[at + 5], bytes[at + 4]),
            to_u32(bytes[at + 3], bytes[at + 2], bytes[at + 1], bytes[at]),
        )
    } else {
        (
            to_u32(bytes[at], bytes[at + 1], bytes[at + 2], bytes[at + 3]),
            to_u32(bytes[at + 4], bytes[at + 5], bytes[at + 6], bytes[at + 7]),
        )
    };
    low as u64 + 0x1_0000_0000 * (high as u64)
}

} // verus!
