//! What can go wrong while decoding an LZ stream.

use vstd::prelude::*;

verus! {

/// Errors raised by the LZ decoder.
#[derive(Debug, Clone, Copy, PartialEq, Eq, Structural)]
pub enum LzError {
    /// The stream ended too early, or refers to pixels that are not there.
    Short { need: usize, have: usize },
    /// The four magic bytes are not "LZ  ".
    BadMagic { expected: u32, got: u32 },
    /// The stream is of another version.
    BadVersion { major: u32, minor: u32 },
    /// No image type has this number.
    BadImageType(u32),
    /// The image has no pixels, or exceeds the configured cap.
    TooLarge { width: u32, height: u32 },
}

pub type Result<T> = std::result::Result<T, LzError>;

} // verus!
