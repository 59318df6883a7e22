//! What can go wrong while reading a message off the wire.

use vstd::prelude::*;

verus! {

/// A malformed or oversized message.
#[derive(Debug, Clone, Copy, PartialEq, Eq, Structural)]
pub enum ProtoError {
    /// The buffer ended inside a field.
    Short { need: usize, have: usize },
    /// The four magic bytes are not the expected ones.
    BadMagic { expected: u32, got: u32 },
    /// The peer speaks another protocol version.
    BadVersion { major: u32, minor: u32 },
    /// No channel has this type number.
    BadChannelType(u8),
    /// No link error has this code.
    BadLinkError(u32),
    /// The capability words lie outside the message.
    BadCapsOffset { offset: u32, len: usize },
    /// A declared size is over the limit set for it.
    SizeTooLarge { declared: u32, max: u32 },
}

pub type Result<T> = std::result::Result<T, ProtoError>;

} // verus!
