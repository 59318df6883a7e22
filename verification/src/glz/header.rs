//! The header of a GLZ stream.

use vstd::prelude::*;

use crate::glz::error::{GlzError, Result};
use crate::lz::header::{be_u32, push_be_u32};
use crate::lz::{LzError, LzImageType};
use crate::proto::wire;

verus! {

/// "LZ  ".
pub const GLZ_MAGIC: u32 = 0x2020_5a4c;

/// Major 1, minor 1.
pub const GLZ_VERSION: u32 = 0x0001_0001;

pub const GLZ_HEADER_SIZE: usize = 33;

/// Header of a GLZ-compressed image. All fields are big-endian on the wire.
/// `top_down` is packed into the high nibble of the type byte.
#[derive(Debug, Clone, Copy, PartialEq, Eq, Structural)]
pub struct GlzHeader {
    pub image_type: LzImageType,
    pub top_down: bool,
    pub width: u32,
    pub height: u32,
    pub stride: u32,
    pub id: u64,
    pub win_head_dist: u32,
}

impl GlzHeader {
    /// The byte that holds the type and the direction.
    pub open spec fn type_byte(self) -> u8 {
        (self.image_type.code() + if self.top_down {
            16int
        } else {
            0int
        }) as u8
    }

    /// The thirty-three bytes of a header.
    pub open spec fn wire(self) -> Seq<u8> {
        wire::be32(GLZ_MAGIC) + wire::be32(GLZ_VERSION) + seq![self.type_byte()] + wire::be32(
            self.width,
        ) + wire::be32(self.height) + wire::be32(self.stride) + wire::be64(self.id) + wire::be32(
            self.win_head_dist,
        )
    }

    /// What the first bytes of a stream say, or why they are no header.
    pub open spec fn reads(s: Seq<u8>, r: Result<GlzHeader>) -> bool {
        if s.len() < GLZ_HEADER_SIZE {
            r == Err::<GlzHeader, _>(
                GlzError::Short { need: GLZ_HEADER_SIZE, have: s.len() as usize },
            )
        } else if wire::be32_at(s, 0) != GLZ_MAGIC {
            r == Err::<GlzHeader, _>(
                GlzError::BadMagic { expected: GLZ_MAGIC, got: wire::be32_at(s, 0) },
            )
        } else if wire::be32_at(s, 4) != GLZ_VERSION {
            r == Err::<GlzHeader, _>(
                GlzError::BadVersion {
                    major: wire::be32_at(s, 4) / 65536,
                    minor: wire::be32_at(s, 4) % 65536,
                },
            )
        } else if !(1 <= s[8] % 16 <= 11) {
            r == Err::<GlzHeader, _>(GlzError::Lz(LzError::Short { need: 0, have: 0 }))
        } else {
            &&& r matches Ok(h)
            &&& h.image_type.code() == s[8] % 16
            &&& h.top_down == (s[8] / 16 != 0)
            &&& h.width == wire::be32_at(s, 9)
            &&& h.height == wire::be32_at(s, 13)
            &&& h.stride == wire::be32_at(s, 17)
            &&& h.id == wire::be64_at(s, 21)
            &&& h.win_head_dist == wire::be32_at(s, 29)
        }
    }

    pub fn decode(buf: &[u8]) -> (r: Result<Self>)
        ensures
            Self::reads(buf@, r),
    {
        let len: usize = buf.len();
        if len < GLZ_HEADER_SIZE {
            return Err(GlzError::Short { need: GLZ_HEADER_SIZE, have: len });
        }
        let magic: u32 = be_u32(buf, 0);
        if magic != GLZ_MAGIC {
            return Err(GlzError::BadMagic { expected: GLZ_MAGIC, got: magic });
        }
        let version: u32 = be_u32(buf, 4);
        if version != GLZ_VERSION {
            return Err(GlzError::BadVersion { major: version / 65536, minor: version % 65536 });
        }
        let tmp: u8 = buf[8];
        let image_type = match LzImageType::from_u32((tmp % 16) as u32) {
            Ok(t) => t,
            Err(e) => {
                return Err(GlzError::Lz(e));
            },
        };
        let high: u32 = be_u32(buf, 21);
        let low: u32 = be_u32(buf, 25);
        Ok(
            Self {
                image_type,
                top_down: tmp / 16 != 0,
                width: be_u32(buf, 9),
                height: be_u32(buf, 13),
                stride: be_u32(buf, 17),
                id: low as u64 + 4294967296 * high as u64,
                win_head_dist: be_u32(buf, 29),
            },
        )
    }

    pub fn encode(&self, out: &mut Vec<u8>)
        ensures
            final(out)@ == old(out)@ + self.wire(),
    {
        push_be_u32(out, GLZ_MAGIC);
        push_be_u32(out, GLZ_VERSION);
        let code: u32 = self.image_type.to_u32();
        let tmp: u32 = if self.top_down {
            code + 16
        } else {
            code
        };
        out.push(tmp as u8);
        push_be_u32(out, self.width);
        push_be_u32(out, self.height);
        push_be_u32(out, self.stride);
        push_be_u32(out, (self.id / 4294967296) as u32);
        push_be_u32(out, (self.id % 4294967296) as u32);
        push_be_u32(out, self.win_head_dist);
        assert(out@ =~= old(out)@ + self.wire());
    }
}

impl GlzHeader {
    /// The fields of this header stand at the start of `s`.
    spec fn laid_out(self, s: Seq<u8>) -> bool {
        &&& s.len() >= GLZ_HEADER_SIZE
        &&& wire::be32_at(s, 0) == GLZ_MAGIC
        &&& wire::be32_at(s, 4) == GLZ_VERSION
        &&& s[8] == self.type_byte()
        &&& wire::be32_at(s, 9) == self.width
        &&& wire::be32_at(s, 13) == self.height
        &&& wire::be32_at(s, 17) == self.stride
        &&& wire::be64_at(s, 21) == self.id
        &&& wire::be32_at(s, 29) == self.win_head_dist
    }
}

#[verifier::rlimit(50)]
#[verifier::spinoff_prover]
proof fn lemma_laid_out(h: GlzHeader, tail: Seq<u8>)
    ensures
        h.laid_out(h.wire() + tail),
{
    let s = h.wire() + tail;
    let t = seq![h.type_byte()];
    let magic = wire::be32(GLZ_MAGIC);
    let version = wire::be32(GLZ_VERSION);
    let front = magic + version + t;
    let width = wire::be32(h.width);
    let height = wire::be32(h.height);
    let stride = wire::be32(h.stride);
    let id = wire::be64(h.id);
    let dist = wire::be32(h.win_head_dist);
    wire::lemma_lengths();
    assert(s.subrange(0, 4) == magic && s.subrange(4, 8) == version && s.subrange(8, 9) == t
        && s.subrange(9, 13) == width && s.subrange(13, 17) == height && s.subrange(17, 21)
        == stride && s.subrange(21, 29) == id && s.subrange(29, 33) == dist) by {
        broadcast use wire::group_parts;

    }
    assert(s.subrange(8, 9)[0] == s[8]);
    wire::be32_at_be32(s, 0, GLZ_MAGIC);
    wire::be32_at_be32(s, 4, GLZ_VERSION);
    wire::be32_at_be32(s, 9, h.width);
    wire::be32_at_be32(s, 13, h.height);
    wire::be32_at_be32(s, 17, h.stride);
    wire::be64_at_be64(s, 21, h.id);
    wire::be32_at_be32(s, 29, h.win_head_dist);
}

/// A header reads back as it was written, whatever follows it.
#[verifier::rlimit(50)]
#[verifier::spinoff_prover]
pub proof fn header_round_trip(h: GlzHeader, tail: Seq<u8>, r: Result<GlzHeader>)
    requires
        GlzHeader::reads(h.wire() + tail, r),
    ensures
        r == Ok::<GlzHeader, GlzError>(h),
{
    lemma_laid_out(h, tail);
    lemma_reads(h, h.wire() + tail, r);
}

#[verifier::rlimit(50)]
#[verifier::spinoff_prover]
proof fn lemma_reads(h: GlzHeader, s: Seq<u8>, r: Result<GlzHeader>)
    requires
        h.laid_out(s),
        GlzHeader::reads(s, r),
    ensures
        r == Ok::<GlzHeader, GlzError>(h),
{
}

} // verus!
