//! Message-type constants for the display channel.

use vstd::prelude::*;

verus! {

// Server -> client

/// Deprecated.
pub const MODE: u16 = 101;

pub const MARK: u16 = 102;

pub const RESET: u16 = 103;

pub const COPY_BITS: u16 = 104;

pub const INVAL_LIST: u16 = 105;

pub const INVAL_ALL_PIXMAPS: u16 = 106;

pub const INVAL_PALETTE: u16 = 107;

pub const INVAL_ALL_PALETTES: u16 = 108;

pub const STREAM_CREATE: u16 = 122;

pub const STREAM_DATA: u16 = 123;

pub const STREAM_CLIP: u16 = 124;

pub const STREAM_DESTROY: u16 = 125;

pub const STREAM_DESTROY_ALL: u16 = 126;

pub const DRAW_FILL: u16 = 302;

pub const DRAW_OPAQUE: u16 = 303;

pub const DRAW_COPY: u16 = 304;

pub const DRAW_BLEND: u16 = 305;

pub const DRAW_BLACKNESS: u16 = 306;

pub const DRAW_WHITENESS: u16 = 307;

pub const DRAW_INVERS: u16 = 308;

pub const DRAW_ROP3: u16 = 309;

pub const DRAW_STROKE: u16 = 310;

pub const DRAW_TEXT: u16 = 311;

pub const DRAW_TRANSPARENT: u16 = 312;

pub const DRAW_ALPHA_BLEND: u16 = 313;

pub const SURFACE_CREATE: u16 = 314;

pub const SURFACE_DESTROY: u16 = 315;

pub const MONITORS_CONFIG: u16 = 317;

pub const DRAW_COMPOSITE: u16 = 318;

pub const STREAM_DATA_SIZED: u16 = 319;

pub const STREAM_ACTIVATE_REPORT: u16 = 320;

// Client -> server

pub const INIT: u16 = 101;

pub const STREAM_REPORT: u16 = 102;

pub const PREFERRED_COMPRESSION: u16 = 103;

} // verus!
