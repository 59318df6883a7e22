//! `SpiceBrush` type tag.

use vstd::prelude::*;

verus! {

pub const NONE: u32 = 0;

pub const SOLID: u32 = 1;

pub const PATTERN: u32 = 2;

} // verus!
