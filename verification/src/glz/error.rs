//! What can go wrong while decoding a GLZ stream.

use vstd::prelude::*;

use crate::lz::{LzError, LzImageType};

verus! {

/// What went wrong inside the GLZ decompressors.
#[derive(Debug, Clone, Copy, PartialEq, Eq, Structural)]
pub enum GlzError {
    /// The stream ended too early.
    Short { need: usize, have: usize },
    /// The four magic bytes are not "LZ  ".
    BadMagic { expected: u32, got: u32 },
    /// The stream is of another version.
    BadVersion { major: u32, minor: u32 },
    /// The stream refers to an image of the per-session dictionary that is
    /// not in the window: either it has been evicted, or there is no window.
    CrossImage { dist: u32 },
    /// A reference or a run goes past the end of an image.
    BadReference,
    /// Unsupported image type for this entry point.
    UnsupportedType(LzImageType),
    /// The image type is not known, or the image exceeds the configured cap.
    Lz(LzError),
}

pub type Result<T> = std::result::Result<T, GlzError>;

} // verus!
