//! Decoder for the directory structure of Xbox-style optical-disc images.
//!
//! An image is handed to the library as a byte slice. A volume header at a
//! fixed sector names the root directory table; every table is a run of
//! 2048-byte sectors holding 4-byte-aligned entry records, and an entry that
//! carries the directory flag owns a child table of its own.
pub mod attributes;
pub mod bytes;
pub mod directory_table;
pub mod error;
pub mod record;
pub mod text;
pub mod volume_descriptor;

pub use attributes::DirectoryEntryAttributes;
pub use directory_table::DirectoryEntry;
pub use directory_table::DirectoryTable;
pub use error::ImageError;
pub use volume_descriptor::VolumeDescriptor;
