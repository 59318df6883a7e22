//! The SPICE remote-display protocol: wire messages, image codecs, and the
//! client, server and viewer state machines, with machine-checked contracts.

pub mod cli;
pub mod client;
pub mod glz;
pub mod lz;
pub mod net;
pub mod proto;
pub mod quic;
pub mod server;
pub mod viewer;

