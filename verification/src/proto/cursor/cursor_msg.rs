//! Cursor-channel server messages.

use vstd::prelude::*;

verus! {

pub const INIT: u16 = 101;

pub const RESET: u16 = 102;

pub const SET: u16 = 103;

pub const MOVE: u16 = 104;

pub const HIDE: u16 = 105;

pub const TRAIL: u16 = 106;

pub const INVAL_ONE: u16 = 107;

pub const INVAL_ALL: u16 = 108;

} // verus!
