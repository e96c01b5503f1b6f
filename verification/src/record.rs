use crate::bytes::read_u16;
use crate::bytes::read_u32;
use crate::bytes::read_u8;
use crate::bytes::readable;
use crate::bytes::u16_le;
use crate::bytes::u32_le;
use vstd::prelude::*;

verus! {

/// Number of bytes that the fixed fields of an entry record take.
pub const RECORD_HEADER_SIZE: u128 = 14;

/// Value of a search-tree index that marks the end of a sector's records.
pub const SENTINEL: u16 = 0xffff;

/// The fixed fields of one entry record, as stored.
#[derive(Clone, Copy, Debug, PartialEq, Eq, Structural)]
pub struct RawRecord {
    pub subtree_left: u16,
    pub subtree_right: u16,
    pub sector: u32,
    pub size: u32,
    pub attributes: u8,
    pub name_length: u8,
}

/// What is found at a position where a record is expected.
#[derive(Clone, Copy, Debug, PartialEq, Eq, Structural)]
pub enum RecordSlot {
    /// The image ends inside the record.
    Truncated,
    /// A search-tree index holds the sentinel: no more records in this sector.
    EndOfSector,
    /// The record's size field is zero: no more records in this sector.
    Empty,
    /// A record with its name, all inside the image.
    Entry(RawRecord),
}

/// The slot found at `pos`, reading the fields in their stored order and
/// stopping at the first one that ends the scan.
pub open spec fn record_at(image: Seq<u8>, pos: int) -> RecordSlot {
    if !readable(image, pos, 4) {
        RecordSlot::Truncated
    } else if u16_le(image, pos) == SENTINEL || u16_le(image, pos + 2) == SENTINEL {
        RecordSlot::EndOfSector
    } else if !readable(image, pos, 12) {
        RecordSlot::Truncated
    } else if u32_le(image, pos + 8) == 0 {
        RecordSlot::Empty
    } else if !readable(image, pos, 14) || !readable(image, pos, 14 + image[pos + 13]) {
        RecordSlot::Truncated
    } else {
        RecordSlot::Entry(
            RawRecord {
                subtree_left: u16_le(image, pos) as u16,
                subtree_right: u16_le(image, pos + 2) as u16,
                sector: u32_le(image, pos + 4) as u32,
                size: u32_le(image, pos + 8) as u32,
                attributes: image[pos + 12],
                name_length: image[pos + 13],
            },
        )
    }
}

/// The stored bytes of the name of the record at `pos`.
pub open spec fn name_bytes(image: Seq<u8>, pos: int, name_length: u8) -> Seq<u8> {
    image.subrange(pos + 14, pos + 14 + name_length)
}

/// The least multiple of four that is not below `pos`.
pub open spec fn align_up(pos: int) -> int {
    pos + (4 - pos % 4) % 4
}

/// Position of the record that follows the one at `pos`: the end of its
/// name, padded to the next multiple of four.
pub open spec fn record_end(pos: int, name_length: u8) -> int {
    align_up(pos + 14 + name_length)
}

/// Decodes the fixed fields of the record at `pos` and checks that its name
/// lies inside the image.
pub fn read_record(image: &[u8], pos: u128) -> (slot: RecordSlot)
    ensures
        slot == record_at(image@, pos as int),
{
    let length: u128 = image.len() as u128;
    let subtree_left = match read_u16(image, pos) {
        Some(value) => value,
        None => { return RecordSlot::Truncated; },
    };
    let subtree_right = match read_u16(image, pos + 2) {
        Some(value) => value,
        None => { return RecordSlot::Truncated; },
    };
    if subtree_left == SENTINEL || subtree_right == SENTINEL {
        return RecordSlot::EndOfSector;
    }
    let sector = match read_u32(image, pos + 4) {
        Some(value) => value,
        None => { return RecordSlot::Truncated; },
    };
    let size = match read_u32(image, pos + 8) {
        Some(value) => value,
        None => { return RecordSlot::Truncated; },
    };
    if size == 0 {
        return RecordSlot::Empty;
    }
    let attributes = match read_u8(image, pos + 12) {
        Some(value) => value,
        None => { return RecordSlot::Truncated; },
    };
    let name_length = match read_u8(image, pos + 13) {
        Some(value) => value,
        None => { return RecordSlot::Truncated; },
    };
    if length - (pos + RECORD_HEADER_SIZE) < name_length as u128 {
        return RecordSlot::Truncated;
    }
    RecordSlot::Entry(
        RawRecord { subtree_left, subtree_right, sector, size, attributes, name_length },
    )
}

/// Position of the record that follows the one at `pos`.
pub fn next_record_position(pos: u128, name_length: u8) -> (next: u128)
    requires
        pos + 14 + name_length + 3 <= u128::MAX,
    ensures
        next as int == record_end(pos as int, name_length),
        next % 4 == 0,
        pos + 14 + name_length <= next < pos + 14 + name_length + 4,
{
    let end: u128 = pos + RECORD_HEADER_SIZE + name_length as u128;
    end + (4 - end % 4) % 4
}

/// Every record after the first of a sector starts at a multiple of four,
/// at most three bytes behind the end of the name before it.
pub proof fn lemma_record_end_aligned(pos: int, name_length: u8)
    ensures
        record_end(pos, name_length) % 4 == 0,
        pos + 14 + name_length <= record_end(pos, name_length) < pos + 14 + name_length + 4,
{
}

/// A record whose left search-tree index holds the sentinel ends the scan of
/// its sector, whatever follows it.
pub proof fn lemma_sentinel_ends_sector(image: Seq<u8>, pos: int)
    requires
        readable(image, pos, 4),
        u16_le(image, pos) == SENTINEL,
    ensures
        record_at(image, pos) == RecordSlot::EndOfSector,
{
}

} // verus!
