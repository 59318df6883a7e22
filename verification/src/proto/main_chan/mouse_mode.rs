//! Mouse mode bitmask values carried by `MouseMode` and `Init`.

use vstd::prelude::*;

verus! {

pub const SERVER: u32 = 1;

pub const CLIENT: u32 = 2;

} // verus!
