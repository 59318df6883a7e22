//! The header of a GLZ stream, byte by byte.

use vstd::prelude::*;

use crate::glz::error::Result;
use crate::glz::header;
use crate::glz::header::GlzHeader;
use crate::lz::layout::{kinds, kinds_are_numbered, marked};
use crate::proto::layout::{big_value, lemma_be32, lemma_be64};
use crate::proto::wire;

verus! {

/// A header takes 33 bytes, numbers with the highest byte first: a mark of
/// eight bytes; a byte with the kind of image in its lower four bits, and above
/// them whether the first row is the uppermost; the width at 9, the height at
/// 13, the bytes of a row at 17, the id of the image at 21, and at 29 how far
/// back the dictionary reaches.
pub proof fn header_layout(s: Seq<u8>, r: Result<GlzHeader>)
    requires
        GlzHeader::reads(s, r),
    ensures
        r is Ok <==> s.len() >= 33 && marked(s) && 1 <= s[8] % 16 <= 11,
        r matches Ok(h) ==> {
            &&& h.image_type == kinds()[s[8] % 16 - 1]
            &&& h.top_down <==> s[8] >= 16
            &&& h.width == big_value(s, 9, 4)
            &&& h.height == big_value(s, 13, 4)
            &&& h.stride == big_value(s, 17, 4)
            &&& h.id == big_value(s, 21, 8)
            &&& h.win_head_dist == big_value(s, 29, 4)
        },
{
    lemma_be32(s, 9);
    lemma_be32(s, 13);
    lemma_be32(s, 17);
    lemma_be64(s, 21);
    lemma_be32(s, 29);
    assert(wire::be32_at(s, 0) == 0x2020_5a4c <==> s[0] == 0x20 && s[1] == 0x20 && s[2] == 0x5a
        && s[3] == 0x4c);
    assert(wire::be32_at(s, 4) == 0x0001_0001 <==> s[4] == 0 && s[5] == 1 && s[6] == 0 && s[7]
        == 1);
    match r {
        Err(_) => {},
        Ok(h) => {
            let i = s[8] % 16 - 1;
            kinds_are_numbered(i);
            assert(h.image_type.code() == kinds()[i].code());
        },
    }
}

/// A header is written as it is read.
pub proof fn header_is_written_so(h: GlzHeader, r: Result<GlzHeader>)
    requires
        GlzHeader::reads(h.wire(), r),
    ensures
        marked(h.wire()),
        h.wire()[8] == h.image_type.code() + if h.top_down {
            16int
        } else {
            0
        },
        big_value(h.wire(), 9, 4) == h.width,
        big_value(h.wire(), 13, 4) == h.height,
        big_value(h.wire(), 17, 4) == h.stride,
        big_value(h.wire(), 21, 8) == h.id,
        big_value(h.wire(), 29, 4) == h.win_head_dist,
{
    assert(h.wire() + Seq::<u8>::empty() =~= h.wire());
    header::header_round_trip(h, Seq::empty(), r);
    header_layout(h.wire(), r);
    wire::lemma_lengths();
    assert(h.wire()[8] == h.type_byte());
}

} // verus!
