//! Message types that the server sends on the inputs channel.

use vstd::prelude::*;

verus! {

pub const INPUTS_INIT: u16 = 101;

pub const INPUTS_KEY_MODIFIERS: u16 = 102;

pub const INPUTS_MOUSE_MOTION_ACK: u16 = 111;

} // verus!
