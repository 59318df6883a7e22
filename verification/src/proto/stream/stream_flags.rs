//! Stream flags.

use vstd::prelude::*;

verus! {

/// Frame rows are top-to-bottom (matches normal raster order).
pub const TOP_DOWN: u8 = 1;

} // verus!
