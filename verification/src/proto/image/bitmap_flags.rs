//! `SpiceBitmap.flags`.

use vstd::prelude::*;

verus! {

/// Pixel rows are stored top-to-bottom. If unset, bottom-up.
pub const TOP_DOWN: u8 = 1;

} // verus!
