//! What can go wrong while decoding a QUIC stream.

use vstd::prelude::*;

verus! {

/// Errors raised by the QUIC decoder.
#[derive(Debug, Clone, Copy, PartialEq, Eq, Structural)]
pub enum QuicError {
    /// The stream ended too early.
    Short { need: usize, have: usize },
    /// The four magic bytes are not "QUIC".
    BadMagic { expected: u32, got: u32 },
    /// The stream is of another version.
    BadVersion { major: u32, minor: u32 },
    /// No image type has this number.
    BadImageType(u32),
    /// The image has no pixels, or exceeds the configured cap.
    TooLarge { width: u32, height: u32 },
    /// A codeword stands for a residual that no pixel has.
    BadResidual(u32),
}

pub type Result<T> = std::result::Result<T, QuicError>;

} // verus!
