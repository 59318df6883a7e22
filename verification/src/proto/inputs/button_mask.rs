//! Bitmask values for `buttons_state`.

use vstd::prelude::*;

verus! {

pub const LEFT: u32 = 1;

pub const MIDDLE: u32 = 2;

pub const RIGHT: u32 = 4;

pub const SIDE: u32 = 8;

pub const EXTRA: u32 = 16;

} // verus!
