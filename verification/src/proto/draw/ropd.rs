//! Rop descriptor bits (`SPICE_ROPD_*`). The common case is `OP_PUT`: overwrite the
//! destination with the source, no blending.

use vstd::prelude::*;

verus! {

pub const INVERS_SRC: u16 = 1;

pub const INVERS_BRUSH: u16 = 2;

pub const INVERS_DEST: u16 = 4;

pub const OP_PUT: u16 = 8;

pub const OP_OR: u16 = 16;

pub const OP_AND: u16 = 32;

pub const OP_XOR: u16 = 64;

pub const OP_BLACKNESS: u16 = 128;

pub const OP_WHITENESS: u16 = 256;

pub const OP_INVERS: u16 = 512;

pub const INVERS_RES: u16 = 1024;

} // verus!
