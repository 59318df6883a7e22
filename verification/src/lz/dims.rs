//! The cap on decoded images.

use vstd::prelude::*;

use crate::lz::error::{LzError, Result};

verus! {

/// Maximum image dimension accepted on either axis.
pub const MAX_IMAGE_DIM: u32 = 16384;

/// Maximum decoded image size in bytes.
pub const MAX_IMAGE_BYTES: usize = 67_108_864;

/// An image of these dimensions may be decoded.
pub open spec fn dims_ok(width: u32, height: u32, bpp: u32) -> bool {
    &&& 0 < width <= MAX_IMAGE_DIM
    &&& 0 < height <= MAX_IMAGE_DIM
    &&& width * height * bpp <= MAX_IMAGE_BYTES
}

/// Validate that `width * height * bpp` is within `MAX_IMAGE_BYTES`. Returns
/// the byte count.
pub fn validate_dims(width: u32, height: u32, bpp: u32) -> (r: Result<usize>)
    ensures
        match r {
            Ok(n) => dims_ok(width, height, bpp) && n == width * height * bpp,
            Err(e) => !dims_ok(width, height, bpp) && e == (LzError::TooLarge { width, height }),
        },
{
    if width == 0 || height == 0 || width > MAX_IMAGE_DIM || height > MAX_IMAGE_DIM {
        return Err(LzError::TooLarge { width, height });
    }
    assert(width * height <= 16384 * 16384) by (nonlinear_arith)
        requires
            width <= 16384,
            height <= 16384,
    ;
    let pixels: u64 = width as u64 * height as u64;
    assert(pixels * bpp <= 268435456 * 4294967295) by (nonlinear_arith)
        requires
            pixels <= 268435456,
            bpp <= 4294967295,
    ;
    let bytes: u64 = pixels * bpp as u64;
    if bytes > MAX_IMAGE_BYTES as u64 {
        return Err(LzError::TooLarge { width, height });
    }
    Ok(bytes as usize)
}

/// Whatever dimensions a peer announces, an image that is decoded to BGRA takes
/// at most 64 MiB.
pub proof fn decoded_images_are_capped(width: u32, height: u32)
    requires
        dims_ok(width, height, 4),
    ensures
        4 * (width * height) <= 67_108_864,
{
}

} // verus!
