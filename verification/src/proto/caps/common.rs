//! Indices of the well-known common capabilities (every channel).

use vstd::prelude::*;

verus! {

pub const PROTOCOL_AUTH_SELECTION: u32 = 0;

pub const AUTH_SPICE: u32 = 1;

pub const AUTH_SASL: u32 = 2;

pub const MINI_HEADER: u32 = 3;

} // verus!
