//! `SpiceImageDescriptor.type`.

use vstd::prelude::*;

verus! {

pub const BITMAP: u8 = 0;

pub const QUIC: u8 = 1;

pub const RESERVED: u8 = 2;

pub const LZ_PLT: u8 = 100;

pub const LZ_RGB: u8 = 101;

pub const GLZ_RGB: u8 = 102;

pub const FROM_CACHE: u8 = 103;

pub const SURFACE: u8 = 104;

pub const JPEG: u8 = 105;

pub const FROM_CACHE_LOSSLESS: u8 = 106;

pub const ZLIB_GLZ_RGB: u8 = 107;

pub const JPEG_ALPHA: u8 = 108;

pub const LZ4: u8 = 109;

} // verus!
