//! The header of a QUIC stream, byte by byte.

use vstd::prelude::*;

use crate::proto::layout::{lemma_u32, value};
use crate::proto::wire;
use crate::quic::error::Result;
use crate::quic::header;
use crate::quic::header::{QuicHeader, QuicImageType};

verus! {

/// The kinds of images, in the order of their numbers from 1 on.
pub open spec fn kinds() -> Seq<QuicImageType> {
    seq![
        QuicImageType::Gray,
        QuicImageType::Rgb16,
        QuicImageType::Rgb24,
        QuicImageType::Rgb32,
        QuicImageType::Rgba,
    ]
}

/// The letters `QUIC`, and version 0.
pub open spec fn marked(s: Seq<u8>) -> bool {
    &&& s[0] == 0x51 && s[1] == 0x55 && s[2] == 0x49 && s[3] == 0x43
    &&& s[4] == 0 && s[5] == 0 && s[6] == 0 && s[7] == 0
}

/// Each kind of image has its number.
pub proof fn kinds_are_numbered(i: int)
    requires
        0 <= i < 5,
    ensures
        kinds()[i].code() == i + 1,
{
}

/// A header takes 20 bytes, numbers with the lowest byte first: a mark of
/// eight bytes, the kind of image at 8, the width at 12 and the height at 16.
pub proof fn header_layout(s: Seq<u8>, r: Result<QuicHeader>)
    requires
        QuicHeader::reads(s, r),
    ensures
        r is Ok <==> s.len() >= 20 && marked(s) && 1 <= value(s, 8, 4) <= 5,
        r matches Ok(h) ==> {
            &&& h.image_type == kinds()[value(s, 8, 4) - 1]
            &&& h.width == value(s, 12, 4)
            &&& h.height == value(s, 16, 4)
        },
{
    lemma_u32(s, 8);
    lemma_u32(s, 12);
    lemma_u32(s, 16);
    assert(wire::u32_at(s, 0) == 0x4349_5551 <==> s[0] == 0x51 && s[1] == 0x55 && s[2] == 0x49
        && s[3] == 0x43);
    assert(wire::u32_at(s, 4) == 0 <==> s[4] == 0 && s[5] == 0 && s[6] == 0 && s[7] == 0);
    match r {
        Err(_) => {},
        Ok(h) => {
            let i = value(s, 8, 4) - 1;
            kinds_are_numbered(i);
            assert(h.image_type.code() == kinds()[i].code());
        },
    }
}

/// A header is written as it is read.
pub proof fn header_is_written_so(h: QuicHeader, r: Result<QuicHeader>)
    requires
        QuicHeader::reads(h.wire(), r),
    ensures
        h.wire().len() == 20,
        marked(h.wire()),
        value(h.wire(), 8, 4) == h.image_type.code(),
        value(h.wire(), 12, 4) == h.width,
        value(h.wire(), 16, 4) == h.height,
{
    assert(h.wire() + Seq::<u8>::empty() =~= h.wire());
    header::header_round_trip(h, Seq::empty(), r);
    header_layout(h.wire(), r);
    lemma_u32(h.wire(), 8);
}

} // verus!
