//! Main channel client messages (base 101).

use vstd::prelude::*;

verus! {

pub const CLIENT_INFO: u16 = 101;

pub const MIGRATE_CONNECTED: u16 = 102;

pub const MIGRATE_CONNECT_ERROR: u16 = 103;

pub const ATTACH_CHANNELS: u16 = 104;

pub const MOUSE_MODE_REQUEST: u16 = 105;

pub const AGENT_START: u16 = 106;

pub const AGENT_DATA: u16 = 107;

pub const AGENT_TOKEN: u16 = 108;

pub const MIGRATE_END: u16 = 109;

pub const MIGRATE_DST_DO_SEAMLESS: u16 = 110;

pub const MIGRATE_CONNECTED_SEAMLESS: u16 = 111;

} // verus!
