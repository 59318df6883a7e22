//! The header of an LZ stream.

use vstd::prelude::*;

use crate::lz::error::{LzError, Result};
use crate::proto::wire;

verus! {

/// "LZ  ".
pub const LZ_MAGIC: u32 = 0x2020_5a4c;

/// Major 1, minor 1.
pub const LZ_VERSION: u32 = 0x0001_0001;

pub const LZ_HEADER_SIZE: usize = 28;

/// Image type carried by the LZ stream header.
#[derive(Debug, Clone, Copy, PartialEq, Eq, Structural)]
pub enum LzImageType {
    Plt1Le,
    Plt1Be,
    Plt4Le,
    Plt4Be,
    Plt8,
    Rgb16,
    Rgb24,
    Rgb32,
    Rgba,
    Xxxa,
    A8,
}

impl LzImageType {
    /// The number that stands for this type on the wire.
    pub open spec fn code(self) -> u32 {
        match self {
            LzImageType::Plt1Le => 1,
            LzImageType::Plt1Be => 2,
            LzImageType::Plt4Le => 3,
            LzImageType::Plt4Be => 4,
            LzImageType::Plt8 => 5,
            LzImageType::Rgb16 => 6,
            LzImageType::Rgb24 => 7,
            LzImageType::Rgb32 => 8,
            LzImageType::Rgba => 9,
            LzImageType::Xxxa => 10,
            LzImageType::A8 => 11,
        }
    }

    /// The number that stands for this type on the wire.
    pub fn to_u32(self) -> (v: u32)
        ensures
            v == self.code(),
    {
        match self {
            LzImageType::Plt1Le => 1,
            LzImageType::Plt1Be => 2,
            LzImageType::Plt4Le => 3,
            LzImageType::Plt4Be => 4,
            LzImageType::Plt8 => 5,
            LzImageType::Rgb16 => 6,
            LzImageType::Rgb24 => 7,
            LzImageType::Rgb32 => 8,
            LzImageType::Rgba => 9,
            LzImageType::Xxxa => 10,
            LzImageType::A8 => 11,
        }
    }

    pub fn from_u32(v: u32) -> (r: Result<Self>)
        ensures
            match r {
                Ok(t) => t.code() == v,
                Err(e) => !(1 <= v <= 11) && e == (LzError::Short { need: 0, have: 0 }),
            },
    {
        Ok(
            match v {
                1 => LzImageType::Plt1Le,
                2 => LzImageType::Plt1Be,
                3 => LzImageType::Plt4Le,
                4 => LzImageType::Plt4Be,
                5 => LzImageType::Plt8,
                6 => LzImageType::Rgb16,
                7 => LzImageType::Rgb24,
                8 => LzImageType::Rgb32,
                9 => LzImageType::Rgba,
                10 => LzImageType::Xxxa,
                11 => LzImageType::A8,
                _ => return Err(LzError::Short { need: 0, have: 0 }),
            },
        )
    }
}

/// LZ stream header. All fields are big-endian on the wire.
#[derive(Debug, Clone, Copy, PartialEq, Eq, Structural)]
pub struct LzHeader {
    pub image_type: LzImageType,
    pub width: u32,
    pub height: u32,
    pub stride: u32,
    pub top_down: bool,
}

impl LzHeader {
    /// The twenty-eight bytes of a header.
    pub open spec fn wire(self) -> Seq<u8> {
        wire::be32(LZ_MAGIC) + wire::be32(LZ_VERSION) + wire::be32(self.image_type.code())
            + wire::be32(self.width) + wire::be32(self.height) + wire::be32(self.stride)
            + wire::be32(
            if self.top_down {
                1
            } else {
                0
            },
        )
    }

    /// What the first bytes of a stream say, or why they are no header.
    pub open spec fn reads(s: Seq<u8>, r: Result<LzHeader>) -> bool {
        if s.len() < LZ_HEADER_SIZE {
            r == Err::<LzHeader, _>(LzError::Short { need: LZ_HEADER_SIZE, have: s.len() as usize })
        } else if wire::be32_at(s, 0) != LZ_MAGIC {
            r == Err::<LzHeader, _>(
                LzError::BadMagic { expected: LZ_MAGIC, got: wire::be32_at(s, 0) },
            )
        } else if wire::be32_at(s, 4) != LZ_VERSION {
            r == Err::<LzHeader, _>(
                LzError::BadVersion {
                    major: wire::be32_at(s, 4) / 65536,
                    minor: wire::be32_at(s, 4) % 65536,
                },
            )
        } else if !(1 <= wire::be32_at(s, 8) <= 11) {
            r == Err::<LzHeader, _>(LzError::Short { need: 0, have: 0 })
        } else {
            &&& r matches Ok(h)
            &&& h.image_type.code() == wire::be32_at(s, 8)
            &&& h.width == wire::be32_at(s, 12)
            &&& h.height == wire::be32_at(s, 16)
            &&& h.stride == wire::be32_at(s, 20)
            &&& h.top_down == (wire::be32_at(s, 24) != 0)
        }
    }

    pub fn decode(buf: &[u8]) -> (r: Result<Self>)
        ensures
            Self::reads(buf@, r),
    {
        let len: usize = buf.len();
        if len < LZ_HEADER_SIZE {
            return Err(LzError::Short { need: LZ_HEADER_SIZE, have: len });
        }
        let magic: u32 = be_u32(buf, 0);
        if magic != LZ_MAGIC {
            return Err(LzError::BadMagic { expected: LZ_MAGIC, got: magic });
        }
        let version: u32 = be_u32(buf, 4);
        if version != LZ_VERSION {
            return Err(LzError::BadVersion { major: version / 65536, minor: version % 65536 });
        }
        let image_type = LzImageType::from_u32(be_u32(buf, 8))?;
        Ok(
            Self {
                image_type,
                width: be_u32(buf, 12),
                height: be_u32(buf, 16),
                stride: be_u32(buf, 20),
                top_down: be_u32(buf, 24) != 0,
            },
        )
    }

    pub fn encode(&self, out: &mut Vec<u8>)
        ensures
            final(out)@ == old(out)@ + self.wire(),
    {
        push_be_u32(out, LZ_MAGIC);
        push_be_u32(out, LZ_VERSION);
        push_be_u32(out, self.image_type.to_u32());
        push_be_u32(out, self.width);
        push_be_u32(out, self.height);
        push_be_u32(out, self.stride);
        push_be_u32(
            out,
            if self.top_down {
                1
            } else {
                0
            },
        );
        assert(out@ =~= old(out)@ + self.wire());
    }
}

pub(crate) fn be_u32(b: &[u8], i: usize) -> (v: u32)
    requires
        i + 4 <= b@.len(),
    ensures
        v == wire::be32_at(b@, i as int),
{
    let _len: usize = b.len();
    b[i + 3] as u32 + 256 * b[i + 2] as u32 + 65536 * b[i + 1] as u32 + 16777216 * b[i] as u32
}

pub(crate) fn push_be_u32(out: &mut Vec<u8>, v: u32)
    ensures
        final(out)@ == old(out)@ + wire::be32(v),
{
    out.push((v / 16777216) as u8);
    out.push((v / 65536 % 256) as u8);
    out.push((v / 256 % 256) as u8);
    out.push((v % 256) as u8);
    assert(out@ =~= old(out)@ + wire::be32(v));
}

/// A header reads back as it was written, whatever follows it.
#[verifier::rlimit(50)]
#[verifier::spinoff_prover]
pub proof fn header_round_trip(h: LzHeader, tail: Seq<u8>, r: Result<LzHeader>)
    requires
        LzHeader::reads(h.wire() + tail, r),
    ensures
        r == Ok::<LzHeader, LzError>(h),
{
    let s = h.wire() + tail;
    let top: u32 = if h.top_down {
        1
    } else {
        0
    };
    assert(wire::be32_at(s, 0) == LZ_MAGIC) by {
        assert(s.subrange(0, 4) =~= wire::be32(LZ_MAGIC));
        wire::be32_at_be32(s, 0, LZ_MAGIC);
    }
    assert(wire::be32_at(s, 4) == LZ_VERSION) by {
        assert(s.subrange(4, 8) =~= wire::be32(LZ_VERSION));
        wire::be32_at_be32(s, 4, LZ_VERSION);
    }
    assert(wire::be32_at(s, 8) == h.image_type.code()) by {
        assert(s.subrange(8, 12) =~= wire::be32(h.image_type.code()));
        wire::be32_at_be32(s, 8, h.image_type.code());
    }
    assert(wire::be32_at(s, 12) == h.width) by {
        assert(s.subrange(12, 16) =~= wire::be32(h.width));
        wire::be32_at_be32(s, 12, h.width);
    }
    assert(wire::be32_at(s, 16) == h.height) by {
        assert(s.subrange(16, 20) =~= wire::be32(h.height));
        wire::be32_at_be32(s, 16, h.height);
    }
    assert(wire::be32_at(s, 20) == h.stride) by {
        assert(s.subrange(20, 24) =~= wire::be32(h.stride));
        wire::be32_at_be32(s, 20, h.stride);
    }
    assert(wire::be32_at(s, 24) == top) by {
        assert(s.subrange(24, 28) =~= wire::be32(top));
        wire::be32_at_be32(s, 24, top);
    }
}

} // verus!
