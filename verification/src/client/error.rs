//! What can end a client, or keep it from starting.

use vstd::prelude::*;

use crate::net::error::NetError;
use crate::proto::error::ProtoError;

verus! {

/// A client error.
#[derive(Debug, Clone, PartialEq, Eq)]
pub enum ClientError {
    Net(NetError),
    Proto(ProtoError),
    /// The server does not advertise a channel that is required.
    MissingChannel(&'static str),
    /// The client has been closed.
    Closed,
}

pub type Result<T> = std::result::Result<T, ClientError>;

} // verus!
