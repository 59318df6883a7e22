//! Surface flags.

use vstd::prelude::*;

verus! {

pub const PRIMARY: u32 = 1;

} // verus!
