//! Indices of the well-known display-channel capabilities.

use vstd::prelude::*;

verus! {

pub const SIZED_STREAM: u32 = 0;

pub const MONITORS_CONFIG: u32 = 1;

pub const COMPOSITE: u32 = 2;

pub const A8_SURFACE: u32 = 3;

pub const STREAM_REPORT: u32 = 4;

pub const LZ4_COMPRESSION: u32 = 5;

pub const PREF_COMPRESSION: u32 = 6;

pub const GL_SCANOUT: u32 = 7;

pub const MULTI_CODEC: u32 = 8;

pub const CODEC_MJPEG: u32 = 9;

pub const CODEC_VP8: u32 = 10;

pub const CODEC_H264: u32 = 11;

pub const PREF_VIDEO_CODEC_TYPE: u32 = 12;

pub const CODEC_VP9: u32 = 13;

pub const CODEC_H265: u32 = 14;

} // verus!
