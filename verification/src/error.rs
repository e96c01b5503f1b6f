use vstd::prelude::*;

verus! {

/// Why decoding an image failed.
#[derive(Clone, Copy, Debug, PartialEq, Eq, Structural)]
pub enum ImageError {
    /// No known disc-image signature was recognised.
    InvalidFormat,
    /// A read ran past the end of the image.
    Io,
    /// Directories are nested more deeply than the caller allowed.
    TooDeep,
}

impl ImageError {
    /// A short human-readable description of the error.
    pub fn message(&self) -> (text: &'static str)
        ensures
            text@ == (match *self {
                ImageError::InvalidFormat => "invalid ISO format"@,
                ImageError::Io => "failed to fill whole buffer"@,
                ImageError::TooDeep => "directory nesting too deep"@,
            }),
    {
        match self {
            ImageError::InvalidFormat => "invalid ISO format",
            ImageError::Io => "failed to fill whole buffer",
            ImageError::TooDeep => "directory nesting too deep",
        }
    }
}

} // verus!
