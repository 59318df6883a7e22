//! Surface pixel formats.

#![allow(non_upper_case_globals)]

use vstd::prelude::*;

verus! {

pub const INVALID: u32 = 0;

pub const _1_A: u32 = 1;

pub const _8_A: u32 = 8;

pub const _16_555: u32 = 16;

pub const _16_565: u32 = 80;

pub const _32_xRGB: u32 = 32;

pub const _32_ARGB: u32 = 96;

} // verus!
