//! SPICE QUIC (Quantized Universal Image Coder): predictive lossless image
//! compression.
//!
//! Wire layout of a QUIC-compressed image:
//!
//! ```text
//! magic:    u32 (little-endian) = QUIC_MAGIC ("QUIC" = 0x43495551)
//! version:  u32 (little-endian)
//! type:     u32 (little-endian), a QuicImageType
//! width:    u32 (little-endian)
//! height:   u32 (little-endian)
//! ...coded body: a sequence of little-endian 32-bit words...
//! ```
//!
//! Bit-level decoding within each word proceeds most significant bit first.
//! The body uses Golomb-Rice and MELCODE state-run coding with per-channel
//! linear prediction.

pub mod bits;
pub mod codes;
pub mod decode;
pub mod encode;
pub mod error;
pub mod family;
pub mod header;
pub mod image;
pub mod layout;
pub mod melcode;
pub mod model;
pub mod samples;

pub use bits::{bppmask, BitReader, BitWriter, QUIC_HEADER_SIZE};
pub use encode::compress_rgb32;
pub use error::{QuicError, Result};
pub use family::Family;
pub use image::{decompress_gray, decompress_rgb16, decompress_rgb32, decompress_rgba};
pub use melcode::{decode_state_run, encode_state_run, tabrand, CommonState, TABRAND_CHAOS};
pub use header::{QuicHeader, QuicImageType, QUIC_MAGIC, QUIC_VERSION};
