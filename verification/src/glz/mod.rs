//! SPICE GLZ: "Group LZ", a variant of [LZ](crate::lz) that adds cross-image
//! references through a per-session dictionary window.
//!
//! Wire layout (all multi-byte fields big-endian, like LZ):
//!
//! ```text
//! magic:            u32 = GLZ_MAGIC ("LZ  " = 0x20205a4c)
//! version:          u32 = GLZ_VERSION
//! tmp:              u8  // bits 0-3: image type, bit 4: top_down
//! width:            u32
//! height:           u32
//! stride:           u32
//! id:               u64 // unique within the dictionary window
//! win_head_dist:    u32 // back-distance from the dictionary head
//! ...compressed body...
//! ```
//!
//! The compressed body uses LZ-style control bytes but the back-reference
//! encoding is different:
//!
//! - `ctrl >= 32`: back-reference. Top 3 bits: length (extended via trailing
//!   bytes if 7). Bit 4: long pixel offset. Bottom 4 bits: low nibble of the
//!   pixel offset. A reference either stays inside the image or goes to an
//!   earlier one, `image_dist` ids back.
//! - `ctrl < 32`: literal run of `ctrl + 1` pixels.

pub mod codec;
pub mod decoder;
pub mod error;
pub mod header;
pub mod layout;
pub mod steps;
pub mod window;

pub use codec::{compress_rgb32_literal, decompress_rgb32, decompress_rgb32_intra};
pub use decoder::{DecodedGlz, GlzDecoder};
pub use error::{GlzError, Result};
pub use header::{GlzHeader, GLZ_HEADER_SIZE, GLZ_MAGIC, GLZ_VERSION};
pub use window::{GlzWindow, WindowEntry};
