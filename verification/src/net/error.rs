//! What can go wrong on a connection.

use vstd::prelude::*;

use crate::proto::enums::LinkError;
use crate::proto::error::ProtoError;

verus! {

/// A failed handshake, a broken frame or a transport error.
#[derive(Debug, Clone, PartialEq, Eq)]
pub enum NetError {
    /// The transport failed, with its message.
    Io(String),
    /// A message could not be read.
    Proto(ProtoError),
    /// The peer reported a link error.
    Link(LinkError),
    /// The peer sent a message larger than `max` bytes.
    MessageTooLarge { size: u32, max: u32 },
    /// The server public key is invalid.
    BadServerKey,
    /// The password is over 60 bytes.
    PasswordTooLong { len: usize },
    /// The RSA operation failed, with its message.
    RsaEncrypt(String),
    /// A fingerprint is 32 bytes in hex, 64 characters; this one has another
    /// number, counted in bytes.
    FingerprintLength { len: usize },
    /// A fingerprint holds something that is not hex.
    FingerprintHex,
}

pub type Result<T> = std::result::Result<T, NetError>;

/// A protocol error, or the value.
pub open spec fn lifted<T>(r: std::result::Result<T, ProtoError>) -> Result<T> {
    match r {
        Ok(v) => Ok(v),
        Err(e) => Err(NetError::Proto(e)),
    }
}

/// A protocol error as a connection error.
pub(crate) fn lift<T>(r: std::result::Result<T, ProtoError>) -> (out: Result<T>)
    ensures
        out == lifted(r),
{
    match r {
        Ok(v) => Ok(v),
        Err(e) => Err(NetError::Proto(e)),
    }
}

} // verus!
