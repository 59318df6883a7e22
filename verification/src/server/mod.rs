//! Embeddable SPICE server core.
//!
//! - [`Server`]: owns the RSA key, the password and the live sessions.
//! - [`Server::link_options`]: what the link handshake of a client goes by.
//! - [`bootstrap_opening`], [`bootstrap_step`], [`channels_message`]: the
//!   post-link bootstrap of the main channel (`MAIN_INIT`,
//!   `CLIENT_INFO`/`ATTACH_CHANNELS`, `CHANNELS_LIST`).
//!
//! Sub-channel dispatch, surface creation, frame generation: all left to the
//! embedder. The library is deliberately thin.

pub mod bootstrap;
pub mod sessions;

pub use crate::net::error::NetError;
pub use bootstrap::{bootstrap_opening, bootstrap_step, channels_message, default_channels};
pub use sessions::{decide_link, LinkDecision, Server};
