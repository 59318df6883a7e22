//! The header of an LZ stream, byte by byte.

use vstd::prelude::*;

use crate::lz::dims;
use crate::lz::error::Result;
use crate::lz::header;
use crate::lz::header::{LzHeader, LzImageType};
use crate::proto::layout::{big_value, lemma_be32};
use crate::proto::wire;

verus! {

/// The kinds of images, in the order of their numbers from 1 on.
pub open spec fn kinds() -> Seq<LzImageType> {
    seq![
        LzImageType::Plt1Le,
        LzImageType::Plt1Be,
        LzImageType::Plt4Le,
        LzImageType::Plt4Be,
        LzImageType::Plt8,
        LzImageType::Rgb16,
        LzImageType::Rgb24,
        LzImageType::Rgb32,
        LzImageType::Rgba,
        LzImageType::Xxxa,
        LzImageType::A8,
    ]
}

/// The letters `  ZL`, and version 1.1.
pub open spec fn marked(s: Seq<u8>) -> bool {
    &&& s[0] == 0x20 && s[1] == 0x20 && s[2] == 0x5a && s[3] == 0x4c
    &&& s[4] == 0 && s[5] == 1 && s[6] == 0 && s[7] == 1
}

/// Each kind of image has its number.
pub proof fn kinds_are_numbered(i: int)
    requires
        0 <= i < 11,
    ensures
        kinds()[i].code() == i + 1,
{
}

/// A header takes 28 bytes, numbers with the highest byte first: a mark of
/// eight bytes, the kind of image at 8, the width at 12, the height at 16, the
/// bytes of a row at 20, and at 24 whether the first row is the uppermost.
pub proof fn header_layout(s: Seq<u8>, r: Result<LzHeader>)
    requires
        LzHeader::reads(s, r),
    ensures
        r is Ok <==> s.len() >= 28 && marked(s) && 1 <= big_value(s, 8, 4) <= 11,
        r matches Ok(h) ==> {
            &&& h.image_type == kinds()[big_value(s, 8, 4) - 1]
            &&& h.width == big_value(s, 12, 4)
            &&& h.height == big_value(s, 16, 4)
            &&& h.stride == big_value(s, 20, 4)
            &&& h.top_down <==> big_value(s, 24, 4) != 0
        },
{
    lemma_be32(s, 8);
    lemma_be32(s, 12);
    lemma_be32(s, 16);
    lemma_be32(s, 20);
    lemma_be32(s, 24);
    assert(wire::be32_at(s, 0) == 0x2020_5a4c <==> s[0] == 0x20 && s[1] == 0x20 && s[2] == 0x5a
        && s[3] == 0x4c);
    assert(wire::be32_at(s, 4) == 0x0001_0001 <==> s[4] == 0 && s[5] == 1 && s[6] == 0 && s[7]
        == 1);
    match r {
        Err(_) => {},
        Ok(h) => {
            let i = big_value(s, 8, 4) - 1;
            kinds_are_numbered(i);
            assert(h.image_type.code() == kinds()[i].code());
        },
    }
}

/// A header is written as it is read.
pub proof fn header_is_written_so(h: LzHeader, r: Result<LzHeader>)
    requires
        LzHeader::reads(h.wire(), r),
    ensures
        h.wire().len() == 28,
        marked(h.wire()),
        big_value(h.wire(), 8, 4) == h.image_type.code(),
        big_value(h.wire(), 12, 4) == h.width,
        big_value(h.wire(), 16, 4) == h.height,
        big_value(h.wire(), 20, 4) == h.stride,
        big_value(h.wire(), 24, 4) != 0 <==> h.top_down,
{
    assert(h.wire() + Seq::<u8>::empty() =~= h.wire());
    header::header_round_trip(h, Seq::empty(), r);
    header_layout(h.wire(), r);
    lemma_be32(h.wire(), 8);
}

/// An image may be up to 16384 pixels wide and high, and take up to 64 MiB.
pub proof fn images_are_bounded(width: u32, height: u32, bpp: u32)
    ensures
        dims::dims_ok(width, height, bpp) <==> {
            &&& 1 <= width <= 16384
            &&& 1 <= height <= 16384
            &&& width * height * bpp <= 64 * 1024 * 1024
        },
{
}

} // verus!
