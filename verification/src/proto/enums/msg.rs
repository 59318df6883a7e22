//! Common message types sent by the server (every channel).

use vstd::prelude::*;

verus! {

pub const MIGRATE: u16 = 1;

pub const MIGRATE_DATA: u16 = 2;

pub const SET_ACK: u16 = 3;

pub const PING: u16 = 4;

pub const WAIT_FOR_CHANNELS: u16 = 5;

pub const DISCONNECTING: u16 = 6;

pub const NOTIFY: u16 = 7;

pub const LIST: u16 = 8;

} // verus!
