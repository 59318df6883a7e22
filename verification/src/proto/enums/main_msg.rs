//! Main channel server messages (base 101).

use vstd::prelude::*;

verus! {

pub const MIGRATE_BEGIN: u16 = 101;

pub const MIGRATE_CANCEL: u16 = 102;

pub const INIT: u16 = 103;

pub const CHANNELS_LIST: u16 = 104;

pub const MOUSE_MODE: u16 = 105;

pub const MULTI_MEDIA_TIME: u16 = 106;

pub const AGENT_CONNECTED: u16 = 107;

pub const AGENT_DISCONNECTED: u16 = 108;

pub const AGENT_DATA: u16 = 109;

pub const AGENT_TOKEN: u16 = 110;

pub const MIGRATE_SWITCH_HOST: u16 = 111;

pub const MIGRATE_END: u16 = 112;

pub const NAME: u16 = 113;

pub const UUID: u16 = 114;

pub const AGENT_CONNECTED_TOKENS: u16 = 115;

pub const MIGRATE_BEGIN_SEAMLESS: u16 = 116;

pub const MIGRATE_DST_SEAMLESS_ACK: u16 = 117;

pub const MIGRATE_DST_SEAMLESS_NACK: u16 = 118;

} // verus!
