//! Common message types sent by the client (every channel).

use vstd::prelude::*;

verus! {

pub const ACK_SYNC: u16 = 1;

pub const ACK: u16 = 2;

pub const PONG: u16 = 3;

pub const MIGRATE_FLUSH_MARK: u16 = 4;

pub const MIGRATE_DATA: u16 = 5;

pub const DISCONNECTING: u16 = 6;

} // verus!
