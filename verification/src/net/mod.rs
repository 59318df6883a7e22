//! SPICE link handshake and message framing.
//!
//! Nothing here touches a socket: each step of the handshake takes the bytes
//! the peer sent and gives the bytes to send next.

pub mod auth;
pub mod channel;
pub mod client;
pub mod control;
pub mod error;
pub mod exchange;
pub mod link;
pub mod server;
pub mod tls;

pub use channel::{Channel, FrameHeader, Message, Outgoing};
pub use client::{has_channel, Bootstrap, MainConnection};
pub use error::{NetError, Result};
pub use link::LinkOptions;
pub use server::{AcceptedLink, ServerKey, ServerLinkOptions};
pub use tls::{parse_fingerprint, TlsConfig};
