//! Cursor pixel-encoding types carried by `CursorHeader::kind`.

use vstd::prelude::*;

verus! {

pub const ALPHA: u16 = 0;

pub const MONO: u16 = 1;

pub const COLOR_4: u16 = 2;

pub const COLOR_8: u16 = 3;

pub const COLOR_16: u16 = 4;

pub const COLOR_24: u16 = 5;

pub const COLOR_32: u16 = 6;

} // verus!
