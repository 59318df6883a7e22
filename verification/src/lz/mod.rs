//! SPICE LZ (a custom LZ77 variant) codec.
//!
//! Wire layout of an LZ-compressed image:
//!
//! ```text
//! magic:    u32 (big-endian) = LZ_MAGIC ("LZ  " = 0x20205a4c)
//! version:  u32 (big-endian)
//! type:     u32 (big-endian), an LzImageType
//! width:    u32 (big-endian)
//! height:   u32 (big-endian)
//! stride:   u32 (big-endian)
//! top_down: u32 (big-endian), boolean
//! ...compressed byte stream...
//! ```
//!
//! Everywhere else in SPICE the wire format is little-endian; the LZ payload
//! is the exception.
//!
//! The compressed stream is a sequence of control bytes:
//!
//! - `ctrl < 32`: a literal run of `ctrl + 1` pixels follows inline (3 bytes
//!   B, G, R each, or 1 byte each in an alpha stream).
//! - `ctrl >= 32`: a back-reference. The top 3 bits encode the length, the
//!   bottom 5 bits the high byte of the distance. Extended encodings exist for
//!   long lengths and far distances.
//!
//! For the RGBA format the payload is two such streams: first the colours,
//! then the alpha bytes.

pub mod codec;
pub mod dims;
pub mod error;
pub mod header;
pub mod layout;
pub mod steps;

pub use codec::{
    compress_alpha_literal, compress_rgb32_literal, decompress_rgb32, decompress_rgba,
};
pub use dims::{validate_dims, MAX_IMAGE_BYTES, MAX_IMAGE_DIM};
pub use error::{LzError, Result};
pub use header::{LzHeader, LzImageType, LZ_HEADER_SIZE, LZ_MAGIC, LZ_VERSION};
