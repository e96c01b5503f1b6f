use crate::bytes::read_bytes;
use crate::bytes::read_u32;
use crate::bytes::readable;
use crate::bytes::u32_le;
use crate::bytes::SECTOR_SIZE;
use crate::error::ImageError;
use vstd::prelude::*;

verus! {

/// Number of the sector that holds the volume header.
pub const HEADER_SECTOR: u64 = 32;

/// Number of bytes that the volume header takes.
pub const HEADER_SIZE: u64 = 36;

/// The volume header of an image, with the sizes derived from the image's length.
#[derive(Debug)]
pub struct VolumeDescriptor {
    pub root_offset: u64,
    pub sector_size: u64,
    pub identifier: [u8; 20],
    pub root_directory_sector: u32,
    pub root_directory_size: u32,
    pub image_creation_time: [u8; 8],
    pub volume_size: u64,
    pub volume_sectors: u64,
}

/// Absolute position of the volume header in an image whose variant has the
/// bias `root_offset`.
pub open spec fn header_position(root_offset: u64) -> int {
    HEADER_SECTOR * SECTOR_SIZE + root_offset
}

/// Whether an image holds a complete volume header for the bias `root_offset`.
pub open spec fn has_header(image: Seq<u8>, root_offset: u64) -> bool {
    readable(image, header_position(root_offset), HEADER_SIZE as int)
}

impl VolumeDescriptor {
    /// Whether `self` is the header that `image` holds for the bias `root_offset`.
    pub open spec fn describes(&self, image: Seq<u8>, root_offset: u64) -> bool {
        let base = header_position(root_offset);
        &&& self.root_offset == root_offset
        &&& self.sector_size == SECTOR_SIZE
        &&& self.identifier@ == image.subrange(base, base + 20)
        &&& self.root_directory_sector as int == u32_le(image, base + 20)
        &&& self.root_directory_size as int == u32_le(image, base + 24)
        &&& self.image_creation_time@ == image.subrange(base + 28, base + 36)
        &&& self.volume_size as int == image.len() - root_offset
        &&& self.volume_sectors as int == (image.len() - root_offset) / (SECTOR_SIZE as int)
    }

    /// Reads the volume header of `image`. `variant_offset` is the bias of the
    /// disc-image variant that was recognised, or `None` when none was.
    pub fn read(image: &[u8], variant_offset: Option<u64>) -> (out: Result<
        VolumeDescriptor,
        ImageError,
    >)
        ensures
            variant_offset is None ==> out == Err::<VolumeDescriptor, ImageError>(
                ImageError::InvalidFormat,
            ),
            variant_offset matches Some(root_offset) ==> (match out {
                Ok(volume) => has_header(image@, root_offset) && volume.describes(
                    image@,
                    root_offset,
                ),
                Err(e) => !has_header(image@, root_offset) && e == ImageError::Io,
            }),
    {
        match variant_offset {
            Some(root_offset) => Self::read_of_type(image, root_offset),
            None => Err(ImageError::InvalidFormat),
        }
    }

    /// Reads the volume header of an image whose variant has the bias
    /// `root_offset`. Fails exactly when the image ends before the header does.
    pub fn read_of_type(image: &[u8], root_offset: u64) -> (out: Result<
        VolumeDescriptor,
        ImageError,
    >)
        ensures
            match out {
                Ok(volume) => has_header(image@, root_offset) && volume.describes(
                    image@,
                    root_offset,
                ),
                Err(e) => !has_header(image@, root_offset) && e == ImageError::Io,
            },
    {
        let base: u128 = (HEADER_SECTOR * SECTOR_SIZE) as u128 + root_offset as u128;
        let identifier = match read_array::<20>(image, base) {
            Some(bytes) => bytes,
            None => { return Err(ImageError::Io); },
        };
        let root_directory_sector = match read_u32(image, base + 20) {
            Some(value) => value,
            None => { return Err(ImageError::Io); },
        };
        let root_directory_size = match read_u32(image, base + 24) {
            Some(value) => value,
            None => { return Err(ImageError::Io); },
        };
        let image_creation_time = match read_array::<8>(image, base + 28) {
            Some(bytes) => bytes,
            None => { return Err(ImageError::Io); },
        };
        let length: u64 = image.len() as u64;
        let volume_size: u64 = length - root_offset;
        let volume_sectors: u64 = volume_size / SECTOR_SIZE;
        Ok(
            VolumeDescriptor {
                root_offset,
                sector_size: SECTOR_SIZE,
                identifier,
                root_directory_sector,
                root_directory_size,
                image_creation_time,
                volume_size,
                volume_sectors,
            },
        )
    }
}

/// Copies the `N` bytes at `pos` out of `image`, or gives nothing when the
/// image ends before `pos + N`.
pub fn read_array<const N: usize>(image: &[u8], pos: u128) -> (out: Option<[u8; N]>)
    ensures
        out.is_some() == readable(image@, pos as int, N as int),
        out matches Some(bytes) ==> bytes@ == image@.subrange(pos as int, pos + N),
{
    match read_bytes(image, pos, N) {
        Some(bytes) => {
            let mut copy: [u8; N] = [0u8; N];
            let mut i: usize = 0;
            while i < N
                invariant
                    i <= N,
                    bytes@.len() == N,
                    forall|j: int| 0 <= j < i ==> copy@[j] == bytes@[j],
                decreases N - i,
            {
                copy[i] = bytes[i];
                i += 1;
            }
            assert(copy@ =~= bytes@);
            Some(copy)
        },
        None => None,
    }
}

} // verus!
