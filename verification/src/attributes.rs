use vstd::prelude::*;

verus! {

/// Entry is read-only.
pub const READ_ONLY: u8 = 0x01;

/// Entry is hidden.
pub const HIDDEN: u8 = 0x02;

/// Entry is a system file.
pub const SYSTEM: u8 = 0x04;

/// Entry is a directory and owns a child table.
pub const DIRECTORY: u8 = 0x10;

/// Entry has the archive bit.
pub const ARCHIVE: u8 = 0x20;

/// Entry is a normal file.
pub const NORMAL: u8 = 0x80;

/// Union of all defined flags.
pub const ALL_FLAGS: u8 = 0xb7;

/// A set of independent attribute flags, held as the bits of one byte.
#[derive(Clone, Copy, Debug, PartialEq, Eq, Structural)]
pub struct DirectoryEntryAttributes {
    bits: u8,
}

impl DirectoryEntryAttributes {
    /// The raw bits of the set.
    pub closed spec fn spec_bits(self) -> u8 {
        self.bits
    }

    /// Whether every flag of `other` is in `self`.
    pub open spec fn spec_contains(self, other: DirectoryEntryAttributes) -> bool {
        self.spec_bits() & other.spec_bits() == other.spec_bits()
    }

    /// Whether the directory flag is in the set.
    pub open spec fn has_directory(self) -> bool {
        self.spec_bits() & DIRECTORY == DIRECTORY
    }

    /// The set holds defined flags only.
    pub open spec fn well_formed(self) -> bool {
        self.spec_bits() & ALL_FLAGS == self.spec_bits()
    }

    /// The set made of the defined flags among `bits`; undefined bits are dropped.
    pub fn from_bits_truncate(bits: u8) -> (flags: DirectoryEntryAttributes)
        ensures
            flags.spec_bits() == bits & ALL_FLAGS,
            flags.well_formed(),
            flags.has_directory() == (bits & DIRECTORY == DIRECTORY),
    {
        assert((bits & 0xb7u8) & 0xb7u8 == bits & 0xb7u8) by (bit_vector);
        assert(((bits & 0xb7u8) & 0x10u8 == 0x10u8) == (bits & 0x10u8 == 0x10u8)) by (bit_vector);
        DirectoryEntryAttributes { bits: bits & ALL_FLAGS }
    }

    /// The raw bits of the set.
    #[verifier::when_used_as_spec(spec_bits)]
    pub fn bits(self) -> (bits: u8)
        ensures
            bits == self.spec_bits(),
    {
        self.bits
    }

    /// Whether every flag of `other` is in `self`.
    #[verifier::when_used_as_spec(spec_contains)]
    pub fn contains(self, other: DirectoryEntryAttributes) -> (found: bool)
        ensures
            found == self.spec_contains(other),
    {
        self.bits & other.bits == other.bits
    }

    /// The set that holds the directory flag alone.
    pub fn directory() -> (flags: DirectoryEntryAttributes)
        ensures
            flags.spec_bits() == DIRECTORY,
    {
        DirectoryEntryAttributes { bits: DIRECTORY }
    }
}

} // verus!
