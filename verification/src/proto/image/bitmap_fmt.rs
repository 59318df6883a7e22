//! `SpiceBitmap.format`.

#![allow(non_upper_case_globals)]

use vstd::prelude::*;

verus! {

pub const INVALID: u8 = 0;

pub const _1BIT_LE: u8 = 1;

pub const _1BIT_BE: u8 = 2;

pub const _4BIT_LE: u8 = 3;

pub const _4BIT_BE: u8 = 4;

pub const _8BIT: u8 = 5;

pub const _16BIT: u8 = 6;

pub const _24BIT: u8 = 7;

pub const _32BIT: u8 = 8;

pub const RGBA: u8 = 9;

pub const _8BIT_A: u8 = 10;

} // verus!
