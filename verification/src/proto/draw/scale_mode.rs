//! `SpiceImageScaleMode`.

use vstd::prelude::*;

verus! {

pub const INTERPOLATE: u8 = 0;

pub const NEAREST: u8 = 1;

} // verus!
