//! The header of a QUIC stream.

use vstd::prelude::*;

use crate::proto::wire;
use crate::quic::bits::QUIC_HEADER_SIZE;
use crate::quic::error::{QuicError, Result};

verus! {

/// "QUIC".
pub const QUIC_MAGIC: u32 = 0x4349_5551;

/// Major 0, minor 0.
pub const QUIC_VERSION: u32 = 0;

/// Pixel layout of the coded image.
#[derive(Debug, Clone, Copy, PartialEq, Eq, Structural)]
pub enum QuicImageType {
    Gray,
    Rgb16,
    Rgb24,
    Rgb32,
    Rgba,
}

impl QuicImageType {
    /// The number that stands for this type on the wire.
    pub open spec fn code(self) -> u32 {
        match self {
            QuicImageType::Gray => 1,
            QuicImageType::Rgb16 => 2,
            QuicImageType::Rgb24 => 3,
            QuicImageType::Rgb32 => 4,
            QuicImageType::Rgba => 5,
        }
    }

    /// The number that stands for this type on the wire.
    pub fn to_u32(self) -> (v: u32)
        ensures
            v == self.code(),
    {
        match self {
            QuicImageType::Gray => 1,
            QuicImageType::Rgb16 => 2,
            QuicImageType::Rgb24 => 3,
            QuicImageType::Rgb32 => 4,
            QuicImageType::Rgba => 5,
        }
    }

    pub fn from_u32(v: u32) -> (r: Result<Self>)
        ensures
            match r {
                Ok(t) => t.code() == v,
                Err(e) => !(1 <= v <= 5) && e == QuicError::BadImageType(v),
            },
    {
        Ok(
            match v {
                1 => QuicImageType::Gray,
                2 => QuicImageType::Rgb16,
                3 => QuicImageType::Rgb24,
                4 => QuicImageType::Rgb32,
                5 => QuicImageType::Rgba,
                _ => return Err(QuicError::BadImageType(v)),
            },
        )
    }

    /// Bytes per output pixel after decoding to its native format.
    pub fn bytes_per_pixel(self) -> (n: u32)
        ensures
            n == (match self {
                QuicImageType::Gray => 1u32,
                QuicImageType::Rgb16 => 2,
                QuicImageType::Rgb24 => 3,
                QuicImageType::Rgb32 | QuicImageType::Rgba => 4,
            }),
    {
        match self {
            QuicImageType::Gray => 1,
            QuicImageType::Rgb16 => 2,
            QuicImageType::Rgb24 => 3,
            QuicImageType::Rgb32 | QuicImageType::Rgba => 4,
        }
    }
}

/// Per-stream QUIC header. All fields are little-endian on the wire.
#[derive(Debug, Clone, Copy, PartialEq, Eq, Structural)]
pub struct QuicHeader {
    pub image_type: QuicImageType,
    pub width: u32,
    pub height: u32,
}

impl QuicHeader {
    /// The twenty bytes of a header.
    pub open spec fn wire(self) -> Seq<u8> {
        wire::le32(QUIC_MAGIC) + wire::le32(QUIC_VERSION) + wire::le32(self.image_type.code())
            + wire::le32(self.width) + wire::le32(self.height)
    }

    /// What the first bytes of a stream say, or why they are no header.
    pub open spec fn reads(s: Seq<u8>, r: Result<QuicHeader>) -> bool {
        if s.len() < QUIC_HEADER_SIZE {
            r == Err::<QuicHeader, _>(
                QuicError::Short { need: QUIC_HEADER_SIZE, have: s.len() as usize },
            )
        } else if wire::u32_at(s, 0) != QUIC_MAGIC {
            r == Err::<QuicHeader, _>(
                QuicError::BadMagic { expected: QUIC_MAGIC, got: wire::u32_at(s, 0) },
            )
        } else if wire::u32_at(s, 4) != QUIC_VERSION {
            r == Err::<QuicHeader, _>(
                QuicError::BadVersion {
                    major: wire::u32_at(s, 4) / 65536,
                    minor: wire::u32_at(s, 4) % 65536,
                },
            )
        } else if !(1 <= wire::u32_at(s, 8) <= 5) {
            r == Err::<QuicHeader, _>(QuicError::BadImageType(wire::u32_at(s, 8)))
        } else {
            &&& r matches Ok(h)
            &&& h.image_type.code() == wire::u32_at(s, 8)
            &&& h.width == wire::u32_at(s, 12)
            &&& h.height == wire::u32_at(s, 16)
        }
    }

    pub fn decode(buf: &[u8]) -> (r: Result<Self>)
        ensures
            Self::reads(buf@, r),
    {
        let len: usize = buf.len();
        if len < QUIC_HEADER_SIZE {
            return Err(QuicError::Short { need: QUIC_HEADER_SIZE, have: len });
        }
        let magic: u32 = le_u32(buf, 0);
        if magic != QUIC_MAGIC {
            return Err(QuicError::BadMagic { expected: QUIC_MAGIC, got: magic });
        }
        let version: u32 = le_u32(buf, 4);
        if version != QUIC_VERSION {
            return Err(QuicError::BadVersion { major: version / 65536, minor: version % 65536 });
        }
        let image_type = QuicImageType::from_u32(le_u32(buf, 8))?;
        let width: u32 = le_u32(buf, 12);
        let height: u32 = le_u32(buf, 16);
        Ok(Self { image_type, width, height })
    }

    pub fn encode(&self, out: &mut Vec<u8>)
        ensures
            final(out)@ == old(out)@ + self.wire(),
    {
        push_le_u32(out, QUIC_MAGIC);
        push_le_u32(out, QUIC_VERSION);
        push_le_u32(out, self.image_type.to_u32());
        push_le_u32(out, self.width);
        push_le_u32(out, self.height);
        assert(out@ =~= old(out)@ + self.wire());
    }
}

fn le_u32(b: &[u8], i: usize) -> (v: u32)
    requires
        i + 4 <= b@.len(),
    ensures
        v == wire::u32_at(b@, i as int),
{
    b[i] as u32 + 256 * b[i + 1] as u32 + 65536 * b[i + 2] as u32 + 16777216 * b[i + 3] as u32
}

fn push_le_u32(out: &mut Vec<u8>, v: u32)
    ensures
        final(out)@ == old(out)@ + wire::le32(v),
{
    out.push((v % 256) as u8);
    out.push((v / 256 % 256) as u8);
    out.push((v / 65536 % 256) as u8);
    out.push((v / 16777216) as u8);
    assert(out@ =~= old(out)@ + wire::le32(v));
}

/// A header reads back as it was written, whatever follows it.
#[verifier::rlimit(50)]
#[verifier::spinoff_prover]
pub proof fn header_round_trip(h: QuicHeader, tail: Seq<u8>, r: Result<QuicHeader>)
    requires
        QuicHeader::reads(h.wire() + tail, r),
    ensures
        r == Ok::<QuicHeader, QuicError>(h),
{
    let s = h.wire() + tail;
    assert(wire::u32_at(s, 0) == QUIC_MAGIC) by {
        assert(s.subrange(0, 4) =~= wire::le32(QUIC_MAGIC));
        wire::u32_at_le32(s, 0, QUIC_MAGIC);
    }
    assert(wire::u32_at(s, 4) == QUIC_VERSION) by {
        assert(s.subrange(4, 8) =~= wire::le32(QUIC_VERSION));
        wire::u32_at_le32(s, 4, QUIC_VERSION);
    }
    assert(wire::u32_at(s, 8) == h.image_type.code()) by {
        assert(s.subrange(8, 12) =~= wire::le32(h.image_type.code()));
        wire::u32_at_le32(s, 8, h.image_type.code());
    }
    assert(wire::u32_at(s, 12) == h.width) by {
        assert(s.subrange(12, 16) =~= wire::le32(h.width));
        wire::u32_at_le32(s, 12, h.width);
    }
    assert(wire::u32_at(s, 16) == h.height) by {
        assert(s.subrange(16, 20) =~= wire::le32(h.height));
        wire::u32_at_le32(s, 16, h.height);
    }
}

} // verus!
