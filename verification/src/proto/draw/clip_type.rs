//! `SpiceClip` type tag.

use vstd::prelude::*;

verus! {

pub const NONE: u8 = 0;

pub const RECTS: u8 = 1;

} // verus!
