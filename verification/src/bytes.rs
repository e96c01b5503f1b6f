use byteorder::ByteOrder;
use byteorder::LittleEndian;
use vstd::prelude::*;
use vstd::slice::slice_subrange;

verus! {

/// Size in bytes of one sector of an image.
pub const SECTOR_SIZE: u64 = 2048;

/// Whether `count` bytes starting at absolute position `pos` lie inside `image`.
pub open spec fn readable(image: Seq<u8>, pos: int, count: int) -> bool {
    0 <= pos && 0 <= count && pos + count <= image.len()
}

/// The little-endian 16-bit value stored at `pos`.
pub open spec fn u16_le(image: Seq<u8>, pos: int) -> int {
    image[pos] as int + 0x100 * (image[pos + 1] as int)
}

/// The little-endian 32-bit value stored at `pos`.
pub open spec fn u32_le(image: Seq<u8>, pos: int) -> int {
    image[pos] as int + 0x100 * (image[pos + 1] as int) + 0x1_0000 * (image[pos + 2] as int)
        + 0x100_0000 * (image[pos + 3] as int)
}

/// Trusted: `byteorder::LittleEndian::read_u16` decodes the first two bytes
/// of `buf` as a little-endian integer, the first byte being the low one.
/// It panics on a shorter buffer, which the precondition rules out.
#[verifier::external_body]
fn decode_u16_le(buf: &[u8]) -> (value: u16)
    requires
        buf@.len() >= 2,
    ensures
        value as int == u16_le(buf@, 0),
{
    LittleEndian::read_u16(buf)
}

/// Trusted: `byteorder::LittleEndian::read_u32` decodes the first four bytes
/// of `buf` as a little-endian integer, the first byte being the lowest.
/// It panics on a shorter buffer, which the precondition rules out.
#[verifier::external_body]
fn decode_u32_le(buf: &[u8]) -> (value: u32)
    requires
        buf@.len() >= 4,
    ensures
        value as int == u32_le(buf@, 0),
{
    LittleEndian::read_u32(buf)
}

/// Borrows `count` bytes of `image` starting at `pos`, or nothing when the
/// image ends before `pos + count`.
pub fn read_bytes(image: &[u8], pos: u128, count: usize) -> (out: Option<&[u8]>)
    ensures
        out.is_some() == readable(image@, pos as int, count as int),
        out matches Some(bytes) ==> bytes@ == image@.subrange(pos as int, pos + count),
{
    let len: usize = image.len();
    if pos > len as u128 {
        return None;
    }
    let start: usize = pos as usize;
    if len - start < count {
        return None;
    }
    Some(slice_subrange(image, start, start + count))
}

/// Reads the byte at `pos`.
pub fn read_u8(image: &[u8], pos: u128) -> (out: Option<u8>)
    ensures
        out.is_some() == readable(image@, pos as int, 1),
        out matches Some(value) ==> value == image@[pos as int],
{
    match read_bytes(image, pos, 1) {
        Some(bytes) => Some(bytes[0]),
        None => None,
    }
}

/// Reads the little-endian 16-bit integer at `pos`.
pub fn read_u16(image: &[u8], pos: u128) -> (out: Option<u16>)
    ensures
        out.is_some() == readable(image@, pos as int, 2),
        out matches Some(value) ==> value as int == u16_le(image@, pos as int),
{
    match read_bytes(image, pos, 2) {
        Some(bytes) => Some(decode_u16_le(bytes)),
        None => None,
    }
}

/// Reads the little-endian 32-bit integer at `pos`.
pub fn read_u32(image: &[u8], pos: u128) -> (out: Option<u32>)
    ensures
        out.is_some() == readable(image@, pos as int, 4),
        out matches Some(value) ==> value as int == u32_le(image@, pos as int),
{
    match read_bytes(image, pos, 4) {
        Some(bytes) => Some(decode_u32_le(bytes)),
        None => None,
    }
}

} // verus!
