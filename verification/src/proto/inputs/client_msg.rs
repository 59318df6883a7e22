//! Message types that the client sends on the inputs channel.

use vstd::prelude::*;

verus! {

pub const INPUTS_KEY_DOWN: u16 = 101;

pub const INPUTS_KEY_UP: u16 = 102;

pub const INPUTS_KEY_MODIFIERS: u16 = 103;

pub const INPUTS_MOUSE_MOTION: u16 = 111;

pub const INPUTS_MOUSE_POSITION: u16 = 112;

pub const INPUTS_MOUSE_PRESS: u16 = 113;

pub const INPUTS_MOUSE_RELEASE: u16 = 114;

} // verus!
