//! Extraction of unsigned bit fields from a byte buffer, under the two
//! bit-numbering conventions of the protocol.

use bitstream_io::{BigEndian, BitRead, BitReader, LittleEndian};
use std::io::{Cursor, SeekFrom};
use vstd::prelude::*;

verus! {

/// Why a bit field could not be read.
#[derive(Clone, Copy, Debug, PartialEq, Eq, Structural)]
pub enum BitReadError {
    /// The field does not lie inside the buffer, or its width is unusable.
    OutOfRange,
    /// The starting position is negative and cannot be reached.
    SeekFailed,
}

/// Bit `p` of the stream that takes each byte from its most significant bit down.
pub open spec fn msb_bit(data: Seq<u8>, p: int) -> int {
    ((data[p / 8] >> ((7 - p % 8) as u8)) & 1u8) as int
}

/// Bit `p` of the stream that takes each byte from its least significant bit up.
pub open spec fn lsb_bit(data: Seq<u8>, p: int) -> int {
    ((data[p / 8] >> ((p % 8) as u8)) & 1u8) as int
}

/// The `len` bits of the MSB-first stream from position `pos`, the first one most significant.
pub open spec fn msb_value(data: Seq<u8>, pos: int, len: nat) -> int
    decreases len,
{
    if len == 0 {
        0
    } else {
        2 * msb_value(data, pos, (len - 1) as nat) + msb_bit(data, pos + len - 1)
    }
}

/// The `len` bits of the LSB-first stream from position `pos`, the first one least significant.
pub open spec fn lsb_value(data: Seq<u8>, pos: int, len: nat) -> int
    decreases len,
{
    if len == 0 {
        0
    } else {
        lsb_bit(data, pos) + 2 * lsb_value(data, pos + 1, (len - 1) as nat)
    }
}

/// Where Motorola bit number `start` stands in the MSB-first stream.
pub open spec fn motorola_position(start: int) -> int {
    (start / 8) * 8 + (7 - start % 8)
}

/// Whether `length` bits from stream position `pos` can be read from `data`.
pub open spec fn span_fits(data: Seq<u8>, pos: int, length: int) -> bool {
    0 <= length <= 128 && pos + length <= 8 * data.len()
}

/// The outcome of a Motorola (big-endian) read of `length` bits at bit number `start`.
pub open spec fn motorola_read(data: Seq<u8>, start: int, length: int) -> Result<u128, BitReadError> {
    if start < 0 {
        Err(BitReadError::SeekFailed)
    } else if !span_fits(data, motorola_position(start), length) || start + length > 8 * data.len() {
        Err(BitReadError::OutOfRange)
    } else {
        Ok(msb_value(data, motorola_position(start), length as nat) as u128)
    }
}

/// The outcome of an Intel (little-endian) read of `length` bits at bit number `start`.
pub open spec fn intel_read(data: Seq<u8>, start: int, length: int) -> Result<u128, BitReadError> {
    if start < 0 {
        Err(BitReadError::SeekFailed)
    } else if !span_fits(data, start, length) {
        Err(BitReadError::OutOfRange)
    } else {
        Ok(lsb_value(data, start, length as nat) as u128)
    }
}

/// Relies on bitstream_io's `BitReader` in `BigEndian` order over a `Cursor`:
/// `seek_bits` to `pos`, then `read::<u128>(len)` gives the next `len` bits,
/// the first one most significant, and succeeds when they lie in the buffer.
#[verifier::external_body]
fn read_msb_first(data: &[u8], pos: u64, len: u32) -> (r: Option<u128>)
    requires
        1 <= len <= 128,
    ensures
        pos + len <= 8 * data@.len() ==> r is Some,
        r matches Some(v) ==> v as int == msb_value(data@, pos as int, len as nat),
{
    let mut reader = BitReader::endian(Cursor::new(data), BigEndian);
    reader.seek_bits(SeekFrom::Start(pos)).ok()?;
    reader.read::<u128>(len).ok()
}

/// Relies on bitstream_io's `BitReader` in `LittleEndian` order over a `Cursor`:
/// `seek_bits` to `pos`, then `read::<u128>(len)` gives the next `len` bits,
/// the first one least significant, and succeeds when they lie in the buffer.
#[verifier::external_body]
fn read_lsb_first(data: &[u8], pos: u64, len: u32) -> (r: Option<u128>)
    requires
        1 <= len <= 128,
    ensures
        pos + len <= 8 * data@.len() ==> r is Some,
        r matches Some(v) ==> v as int == lsb_value(data@, pos as int, len as nat),
{
    let mut reader = BitReader::endian(Cursor::new(data), LittleEndian);
    reader.seek_bits(SeekFrom::Start(pos)).ok()?;
    reader.read::<u128>(len).ok()
}

/// Reads `length` bits at Motorola bit number `start`: bit 7 of byte 0 comes
/// first in the stream and bit 0 of byte 0 eighth. As in Intel order, a read
/// where `start + length` exceeds the buffer's bit count is refused.
pub fn read_bits_motorola_be(data: &[u8], start: i32, length: i32) -> (r: Result<u128, BitReadError>)
    ensures
        r == motorola_read(data@, start as int, length as int),
{
    if start < 0 {
        return Err(BitReadError::SeekFailed);
    }
    let s = start as u64;
    let pos: u64 = (s / 8) * 8 + (7 - s % 8);
    assert(pos as int == motorola_position(start as int));
    if length < 0 || length > 128 || (pos as u128) + (length as u128) > 8 * (data.len() as u128)
        || (s as u128) + (length as u128) > 8 * (data.len() as u128) {
        return Err(BitReadError::OutOfRange);
    }
    if length == 0 {
        return Ok(0);
    }
    match read_msb_first(data, pos, length as u32) {
        Some(v) => Ok(v),
        None => Err(BitReadError::OutOfRange),
    }
}

/// Reads `length` bits at Intel bit number `start`, a position in the flat
/// LSB-first stream of the buffer.
pub fn read_bits_intel_le(data: &[u8], start: i32, length: i32) -> (r: Result<u128, BitReadError>)
    ensures
        r == intel_read(data@, start as int, length as int),
{
    if start < 0 {
        return Err(BitReadError::SeekFailed);
    }
    let pos = start as u64;
    if length < 0 || length > 128 || (pos as u128) + (length as u128) > 8 * (data.len() as u128) {
        return Err(BitReadError::OutOfRange);
    }
    if length == 0 {
        return Ok(0);
    }
    match read_lsb_first(data, pos, length as u32) {
        Some(v) => Ok(v),
        None => Err(BitReadError::OutOfRange),
    }
}

/// A read where `start + length` exceeds the buffer's bit count fails with
/// `OutOfRange` in either bit order, and hands back no partial value; so does
/// a Motorola read whose stream span runs past the end.
pub proof fn lemma_read_past_end_fails(data: Seq<u8>, start: int, length: int)
    requires
        start >= 0,
    ensures
        start + length > 8 * data.len() ==> intel_read(data, start, length) == Err::<u128, BitReadError>(
            BitReadError::OutOfRange,
        ),
        start + length > 8 * data.len() ==> motorola_read(data, start, length) == Err::<u128, BitReadError>(
            BitReadError::OutOfRange,
        ),
        motorola_position(start) + length > 8 * data.len() ==> motorola_read(data, start, length)
            == Err::<u128, BitReadError>(BitReadError::OutOfRange),
{
}

/// A read of one to 128 bits inside the buffer succeeds in either bit order,
/// with the bits of the MSB-first or LSB-first stream.
pub proof fn lemma_read_in_range_succeeds(data: Seq<u8>, start: int, length: int)
    requires
        start >= 0,
        1 <= length <= 128,
    ensures
        start + length <= 8 * data.len() ==> intel_read(data, start, length) == Ok::<u128, BitReadError>(
            lsb_value(data, start, length as nat) as u128,
        ),
        motorola_position(start) + length <= 8 * data.len() && start + length <= 8 * data.len()
            ==> motorola_read(data, start, length) == Ok::<u128, BitReadError>(msb_value(data, motorola_position(start), length as nat) as u128),
{
}

} // verus!
