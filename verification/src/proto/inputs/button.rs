//! SPICE mouse button identifiers.

use vstd::prelude::*;

verus! {

pub const INVALID: u8 = 0;

pub const LEFT: u8 = 1;

pub const MIDDLE: u8 = 2;

pub const RIGHT: u8 = 3;

/// Wheel up.
pub const UP: u8 = 4;

/// Wheel down.
pub const DOWN: u8 = 5;

pub const SIDE: u8 = 6;

pub const EXTRA: u8 = 7;

} // verus!
