//! Bounds-checked reads at absolute offsets of an in-memory byte source.

use byteorder::ByteOrder;
use byteorder::LittleEndian;
use positioned_io::ReadAt;
use vstd::prelude::*;

verus! {

/// Why a header could not be decoded.
#[derive(Clone, Copy, Debug, PartialEq, Eq, Structural)]
pub enum DecodeError {
    /// A read would have gone past the last available byte.
    OutOfRange,
}

/// Whether `width` bytes starting at `offset` lie inside a source of `len` bytes.
pub open spec fn in_range(len: int, offset: int, width: int) -> bool {
    0 <= offset && 0 <= width && offset + width <= len
}

/// The unsigned value of four bytes, least significant first.
pub open spec fn u32_le(b: Seq<u8>) -> int
    recommends
        b.len() == 4,
{
    b[0] as int + 0x100 * (b[1] as int) + 0x1_0000 * (b[2] as int) + 0x100_0000 * (b[3] as int)
}

/// The two's-complement value of four bytes, least significant first.
pub open spec fn i32_le(b: Seq<u8>) -> int
    recommends
        b.len() == 4,
{
    if u32_le(b) >= 0x8000_0000 {
        u32_le(b) - 0x1_0000_0000
    } else {
        u32_le(b)
    }
}

/// The four bytes of `source` that start at `offset`.
pub open spec fn word_at(source: Seq<u8>, offset: int) -> Seq<u8> {
    source.subrange(offset, offset + 4)
}

/// Trusted: `byteorder::LittleEndian::read_u32`. It panics on fewer than four
/// bytes, and otherwise is `u32::from_le_bytes` of the first four: the first
/// byte is the least significant.
#[verifier::external_body]
fn le_u32(buf: &[u8]) -> (value: u32)
    requires
        buf@.len() >= 4,
    ensures
        value as int == u32_le(buf@.subrange(0, 4)),
{
    LittleEndian::read_u32(buf)
}

/// Trusted: `byteorder::LittleEndian::read_i32`. It panics on fewer than four
/// bytes, and otherwise is the unsigned little-endian value of the first four
/// reinterpreted in two's complement.
#[verifier::external_body]
fn le_i32(buf: &[u8]) -> (value: i32)
    requires
        buf@.len() >= 4,
    ensures
        value as int == i32_le(buf@.subrange(0, 4)),
{
    LittleEndian::read_i32(buf)
}

/// Trusted: `positioned_io::ReadAt::read_exact_at` on a byte slice. With a
/// buffer of `length` bytes it succeeds exactly when the buffer is empty or
/// the run `offset .. offset + length` lies inside the slice, and then the
/// buffer holds that run. A short source is an error, which becomes `None`.
#[verifier::external_body]
fn read_exact_at(source: &[u8], offset: u64, length: usize) -> (run: Option<Vec<u8>>)
    requires
        length <= source@.len(),
    ensures
        run is Some <==> (length == 0 || offset + length <= source@.len()),
        run is Some ==> run->0@.len() == length,
        run is Some && length > 0 ==> run->0@ == source@.subrange(
            offset as int,
            offset + length,
        ),
{
    let mut buf = vec![0u8; length];
    match source.read_exact_at(offset, &mut buf) {
        Ok(()) => Some(buf),
        Err(_) => None,
    }
}

/// Random access to a fixed byte source. Every read names its own absolute
/// offset; the reader keeps no position between reads.
pub struct ByteReader<'a> {
    source: &'a [u8],
}

impl<'a> View for ByteReader<'a> {
    type V = Seq<u8>;

    closed spec fn view(&self) -> Seq<u8> {
        self.source@
    }
}

impl<'a> ByteReader<'a> {
    /// A reader over `source`.
    pub fn new(source: &'a [u8]) -> (reader: Self)
        ensures
            reader@ == source@,
    {
        ByteReader { source }
    }

    /// The number of bytes available.
    pub fn len(&self) -> (n: usize)
        ensures
            n == self@.len(),
    {
        self.source.len()
    }

    /// The `length` bytes that start at `offset`, or `OutOfRange` when the
    /// source ends before `offset + length`.
    pub fn read_bytes(&self, offset: usize, length: usize) -> (run: Result<Vec<u8>, DecodeError>)
        ensures
            run is Ok <==> in_range(self@.len() as int, offset as int, length as int),
            run is Ok ==> run->Ok_0@ == self@.subrange(offset as int, offset + length),
            run is Err ==> run->Err_0 == DecodeError::OutOfRange,
    {
        let available: usize = self.source.len();
        if length > available || offset > available - length {
            return Err(DecodeError::OutOfRange);
        }
        match read_exact_at(self.source, offset as u64, length) {
            Some(bytes) => {
                assert(bytes@ =~= self@.subrange(offset as int, offset + length));
                Ok(bytes)
            },
            None => Err(DecodeError::OutOfRange),
        }
    }

    /// The unsigned 32-bit little-endian integer at `offset`, or `OutOfRange`
    /// when fewer than four bytes are available there.
    pub fn read_u32_le(&self, offset: usize) -> (value: Result<u32, DecodeError>)
        ensures
            value is Ok <==> in_range(self@.len() as int, offset as int, 4),
            value is Ok ==> value->Ok_0 as int == u32_le(word_at(self@, offset as int)),
            value is Err ==> value->Err_0 == DecodeError::OutOfRange,
    {
        match self.read_bytes(offset, 4) {
            Ok(word) => {
                assert(word@.subrange(0, 4) =~= word_at(self@, offset as int));
                Ok(le_u32(word.as_slice()))
            },
            Err(e) => Err(e),
        }
    }

    /// The signed 32-bit little-endian integer at `offset`, or `OutOfRange`
    /// when fewer than four bytes are available there.
    pub fn read_i32_le(&self, offset: usize) -> (value: Result<i32, DecodeError>)
        ensures
            value is Ok <==> in_range(self@.len() as int, offset as int, 4),
            value is Ok ==> value->Ok_0 as int == i32_le(word_at(self@, offset as int)),
            value is Err ==> value->Err_0 == DecodeError::OutOfRange,
    {
        match self.read_bytes(offset, 4) {
            Ok(word) => {
                assert(word@.subrange(0, 4) =~= word_at(self@, offset as int));
                Ok(le_i32(word.as_slice()))
            },
            Err(e) => Err(e),
        }
    }
}

} // verus!
