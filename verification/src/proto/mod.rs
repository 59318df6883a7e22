//! SPICE wire protocol messages and parsing.
//!
//! All SPICE integers are little-endian. Structs on the wire are packed
//! (no alignment padding).

pub mod caps;
pub mod common;
pub mod cursor;
pub mod display;
pub mod draw;
pub mod enums;
pub mod error;
pub mod header;
pub mod image;
pub mod inputs;
pub mod limits;
pub mod layout;
pub mod link;
pub mod main_chan;
pub mod stream;
pub mod types;
pub mod wire;

pub use error::{ProtoError, Result};
