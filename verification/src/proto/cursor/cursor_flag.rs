//! Cursor flag bits (lower bits of `Cursor::flags`).

use vstd::prelude::*;

verus! {

pub const NONE: u16 = 0;

pub const CACHE_ME: u16 = 1;

pub const FROM_CACHE: u16 = 2;

pub const FROM_CACHE_LOSSLESS: u16 = 4;

} // verus!
