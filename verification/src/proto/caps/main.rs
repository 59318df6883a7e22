//! Indices of the well-known main-channel capabilities.

use vstd::prelude::*;

verus! {

pub const SEMI_SEAMLESS_MIGRATE: u32 = 0;

pub const NAME_AND_UUID: u32 = 1;

pub const AGENT_CONNECTED_TOKENS: u32 = 2;

pub const SEAMLESS_MIGRATE: u32 = 3;

} // verus!
