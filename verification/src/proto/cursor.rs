//! Cursor-channel message bodies.
//!
//! In SPICE's `SERVER` mouse mode the guest does not paint the cursor into
//! the framebuffer; the cursor sprite and position arrive on a dedicated
//! sub-channel so the viewer can composite them on top. In `CLIENT` mouse
//! mode the local OS draws the cursor and these messages are mostly advisory,
//! but servers still send them.
//!
//! The alpha cursor (`kind == 0`, 32-bit ARGB) is the one whose pixels are
//! understood. Other legacy types (mono, palette-indexed) are parsed as
//! headers so the caller can report an unsupported type, but their pixel data
//! is returned unconverted.
//!
//! Wire layout:
//!
//! ```text
//! SpicePoint16      { i16 x, i16 y }
//! SpiceCursorHeader {
//!     u64 unique;   // cache key
//!     u16 type;     // 0=ALPHA, 1=MONO, 2=4, 3=8, 4=16, 5=24, 6=32
//!     u16 width, height;
//!     u16 hot_spot_x, hot_spot_y;
//! }
//! SpiceCursor {
//!     u16 flags;
//!     SpiceCursorHeader header;
//!     u8  data[];   // the rest of the message
//! }
//! ```

use vstd::prelude::*;
use vstd::slice::slice_to_vec;

use crate::proto::error::{ProtoError, Result};
use crate::proto::types;
use crate::proto::types::{Reader, Writer};
use crate::proto::wire;

pub mod cursor_flag;
pub mod cursor_msg;
pub mod cursor_type;

verus! {

/// Upper bound on cursor sprite dimensions. SPICE in practice caps at 64x64
/// for hardware cursors and 128x128 for software ones.
pub const MAX_CURSOR_DIM: u16 = 512;

/// Upper bound on cursor pixel-data payload: `MAX_CURSOR_DIM` squared, times
/// the 4 bytes of an alpha pixel.
pub const MAX_CURSOR_BYTES: usize = 1_048_576;

/// Cursor sprite metadata.
#[derive(Debug, Clone, Copy, PartialEq, Eq, Structural)]
pub struct CursorHeader {
    pub unique: u64,
    pub kind: u16,
    pub width: u16,
    pub height: u16,
    pub hot_spot_x: u16,
    pub hot_spot_y: u16,
}

impl CursorHeader {
    pub const SIZE: usize = 18;

    /// The cursor header whose bytes start at `i`.
    pub open spec fn spec_at(s: Seq<u8>, i: int) -> CursorHeader {
        CursorHeader {
            unique: wire::u64_at(s, i),
            kind: wire::u16_at(s, i + 8),
            width: wire::u16_at(s, i + 10),
            height: wire::u16_at(s, i + 12),
            hot_spot_x: wire::u16_at(s, i + 14),
            hot_spot_y: wire::u16_at(s, i + 16),
        }
    }

    /// The bytes of a cursor header.
    pub open spec fn wire(self) -> Seq<u8> {
        wire::le64(self.unique) + wire::le16(self.kind) + wire::le16(self.width)
            + wire::le16(self.height) + wire::le16(self.hot_spot_x)
            + wire::le16(self.hot_spot_y)
    }

    /// What the bytes from `i` on read as, and where they end.
    pub open spec fn parse_at(s: Seq<u8>, i: int) -> Result<(CursorHeader, int)> {
        match wire::short_in(seq![8, 2, 2, 2, 2, 2], s.len() - i) {
            Some(e) => Err(e),
            None => Ok((Self::spec_at(s, i), i + 18)),
        }
    }

    pub fn decode(r: &mut Reader<'_>) -> (res: Result<Self>)
        ensures
            types::reads(*old(r), *final(r), Self::parse_at(old(r).input(), old(r).at()), res),
    {
        proof {
            reveal_with_fuel(wire::short_from, 7);
        }
        Ok(
            Self {
                unique: r.u64()?,
                kind: r.u16()?,
                width: r.u16()?,
                height: r.u16()?,
                hot_spot_x: r.u16()?,
                hot_spot_y: r.u16()?,
            },
        )
    }

    pub fn encode(&self, w: &mut Writer)
        ensures
            final(w)@ == old(w)@ + self.wire(),
    {
        w.u64(self.unique);
        w.u16(self.kind);
        w.u16(self.width);
        w.u16(self.height);
        w.u16(self.hot_spot_x);
        w.u16(self.hot_spot_y);
        assert(w@ =~= old(w)@ + self.wire());
    }
}

/// A cursor header reads back as it was written, wherever it stands.
#[verifier::rlimit(50)]
#[verifier::spinoff_prover]
pub proof fn cursor_header_round_trip(m: CursorHeader, head: Seq<u8>, tail: Seq<u8>)
    ensures
        CursorHeader::parse_at(head + (m.wire() + tail), head.len() as int) == Ok::<(CursorHeader, int), ProtoError>(
            (m, head.len() as int + 18),
        ),
{
    reveal_with_fuel(wire::short_from, 7);
    let s = m.wire() + tail;
    let all = head + s;
    assert(all.skip(head.len() as int) =~= s);
    wire::lemma_lengths();
    assert(wire::u64_at(s, 0) == m.unique) by {
        broadcast use wire::group_parts;

        assert(s.subrange(0, 8) == wire::le64(m.unique));
        wire::u64_at_le64(s, 0, m.unique);
    }
    assert(wire::u16_at(s, 8) == m.kind) by {
        broadcast use wire::group_parts;

        assert(s.subrange(8, 10) == wire::le16(m.kind));
        wire::u16_at_le16(s, 8, m.kind);
    }
    assert(wire::u16_at(s, 10) == m.width) by {
        broadcast use wire::group_parts;

        assert(s.subrange(10, 12) == wire::le16(m.width));
        wire::u16_at_le16(s, 10, m.width);
    }
    assert(wire::u16_at(s, 12) == m.height) by {
        broadcast use wire::group_parts;

        assert(s.subrange(12, 14) == wire::le16(m.height));
        wire::u16_at_le16(s, 12, m.height);
    }
    assert(wire::u16_at(s, 14) == m.hot_spot_x) by {
        broadcast use wire::group_parts;

        assert(s.subrange(14, 16) == wire::le16(m.hot_spot_x));
        wire::u16_at_le16(s, 14, m.hot_spot_x);
    }
    assert(wire::u16_at(s, 16) == m.hot_spot_y) by {
        broadcast use wire::group_parts;

        assert(s.subrange(16, 18) == wire::le16(m.hot_spot_y));
        wire::u16_at_le16(s, 16, m.hot_spot_y);
    }
    wire::lemma_shifted(head, s, 0);
    wire::lemma_shifted(head, s, 8);
    wire::lemma_shifted(head, s, 10);
    wire::lemma_shifted(head, s, 12);
    wire::lemma_shifted(head, s, 14);
    wire::lemma_shifted(head, s, 16);
}

/// A cursor sprite as sent on the wire.
#[derive(Debug, Clone, PartialEq, Eq)]
pub struct Cursor {
    pub flags: u16,
    pub header: CursorHeader,
    /// Raw pixel bytes in the format described by `header.kind`. For ALPHA
    /// this is `width * height * 4` ARGB bytes. Empty when the `FROM_CACHE`
    /// flag is set (the server is referring to a previously `CACHE_ME`'d entry
    /// by `header.unique`).
    pub data: Vec<u8>,
}

/// One of the two bits that refer to a cached sprite is set.
pub open spec fn from_cache(flags: u16) -> bool {
    flags / 2 % 2 == 1 || flags / 4 % 2 == 1
}

impl Cursor {
    /// The bytes of a cursor.
    pub open spec fn wire(self) -> Seq<u8> {
        wire::le16(self.flags) + self.header.wire() + self.data@
    }

    /// A cursor within the limits, whose sprite is inline or in the cache.
    pub open spec fn well_formed(self) -> bool {
        &&& self.header.width <= MAX_CURSOR_DIM
        &&& self.header.height <= MAX_CURSOR_DIM
        &&& self.data@.len() <= MAX_CURSOR_BYTES
        &&& from_cache(self.flags) ==> self.data@.len() == 0
    }

    /// The bytes from `i` on read as `res`.
    pub open spec fn reads_at(s: Seq<u8>, i: int, res: Result<Cursor>) -> bool {
        if s.len() < i + 2 {
            res == Err::<Cursor, _>(ProtoError::Short { need: 2, have: (s.len() - i) as usize })
        } else {
            let flags = wire::u16_at(s, i);
            match CursorHeader::parse_at(s, i + 2) {
                Err(e) => res == Err::<Cursor, _>(e),
                Ok((header, j)) => {
                    let data = if from_cache(flags) {
                        Seq::empty()
                    } else {
                        s.skip(j)
                    };
                    if header.width > MAX_CURSOR_DIM || header.height > MAX_CURSOR_DIM {
                        res == Err::<Cursor, _>(
                            ProtoError::SizeTooLarge {
                                declared: (header.width * header.height) as u32,
                                max: 262144,
                            },
                        )
                    } else if data.len() > MAX_CURSOR_BYTES {
                        res == Err::<Cursor, _>(
                            ProtoError::SizeTooLarge {
                                declared: (data.len() % 4294967296) as u32,
                                max: 1048576,
                            },
                        )
                    } else {
                        &&& res matches Ok(c)
                        &&& c.flags == flags
                        &&& c.header == header
                        &&& c.data@ == data
                    }
                },
            }
        }
    }

    pub fn decode(r: &mut Reader<'_>) -> (res: Result<Self>)
        ensures
            Self::reads_at(old(r).input(), old(r).at(), res),
            final(r).input() == old(r).input(),
            res matches Ok(c) ==> final(r).at() == (if from_cache(c.flags) {
                old(r).at() + 20
            } else {
                old(r).input().len() as int
            }),
    {
        let flags: u16 = r.u16()?;
        let header = CursorHeader::decode(r)?;
        if header.width > MAX_CURSOR_DIM || header.height > MAX_CURSOR_DIM {
            assert(header.width * header.height <= 65535 * 65535) by (nonlinear_arith)
                requires
                    header.width <= 65535,
                    header.height <= 65535,
            ;
            return Err(
                ProtoError::SizeTooLarge {
                    declared: header.width as u32 * header.height as u32,
                    max: 262144,
                },
            );
        }
        // From-cache cursors have no inline payload.
        if flags / 2 % 2 == 1 || flags / 4 % 2 == 1 {
            let data: Vec<u8> = Vec::new();
            assert(data@ =~= Seq::<u8>::empty());
            return Ok(Self { flags, header, data });
        }
        let n: usize = r.remaining();
        let rest = r.bytes(n)?;
        assert(rest@ =~= old(r).input().skip(old(r).at() + 20));
        if n > MAX_CURSOR_BYTES {
            return Err(
                ProtoError::SizeTooLarge {
                    declared: (n as u64 % 4294967296) as u32,
                    max: 1048576,
                },
            );
        }
        let data = slice_to_vec(rest);
        Ok(Self { flags, header, data })
    }

    pub fn encode(&self, w: &mut Writer)
        ensures
            final(w)@ == old(w)@ + self.wire(),
    {
        w.u16(self.flags);
        self.header.encode(w);
        w.bytes(self.data.as_slice());
        assert(w@ =~= old(w)@ + self.wire());
    }
}

/// A cursor that ends a message reads back as it was written.
#[verifier::rlimit(50)]
#[verifier::spinoff_prover]
pub proof fn cursor_round_trip(m: Cursor, head: Seq<u8>, res: Result<Cursor>)
    requires
        m.well_formed(),
        Cursor::reads_at(head + m.wire(), head.len() as int, res),
    ensures
        res matches Ok(n) && n.flags == m.flags && n.header == m.header && n.data@ == m.data@,
{
    wire::lemma_lengths();
    let flags = wire::le16(m.flags);
    let header = m.header.wire();
    let s = head + m.wire();
    let i = head.len() as int;
    assert(header.len() == 18);
    assert(s =~= (head + flags) + (header + m.data@));
    cursor_header_round_trip(m.header, head + flags, m.data@);
    assert(s.subrange(i, i + 2) =~= flags);
    wire::u16_at_le16(s, i, m.flags);
    assert(s.skip(i + 20) =~= m.data@);
}

/// `SPICE_MSG_CURSOR_INIT`.
#[derive(Debug, Clone, PartialEq, Eq)]
pub struct CursorInit {
    pub position_x: i16,
    pub position_y: i16,
    pub trail_length: u16,
    pub trail_frequency: u16,
    pub visible: u8,
    pub cursor: Cursor,
}

impl CursorInit {
    /// A message body reads as `res`.
    pub open spec fn reads(s: Seq<u8>, res: Result<CursorInit>) -> bool {
        match wire::short_in(seq![2, 2, 2, 2, 1], s.len() as int) {
            Some(e) => res == Err::<CursorInit, _>(e),
            None => {
                &&& res matches Ok(m) ==> {
                    &&& m.position_x == wire::i16_at(s, 0)
                    &&& m.position_y == wire::i16_at(s, 2)
                    &&& m.trail_length == wire::u16_at(s, 4)
                    &&& m.trail_frequency == wire::u16_at(s, 6)
                    &&& m.visible == s[8]
                }
                &&& Cursor::reads_at(
                    s,
                    9,
                    match res {
                        Ok(m) => Ok(m.cursor),
                        Err(e) => Err(e),
                    },
                )
            },
        }
    }

    pub fn decode(buf: &[u8]) -> (res: Result<Self>)
        ensures
            Self::reads(buf@, res),
    {
        proof {
            reveal_with_fuel(wire::short_from, 6);
        }
        let mut r = Reader::new(buf);
        let position_x: i16 = r.i16()?;
        let position_y: i16 = r.i16()?;
        let trail_length: u16 = r.u16()?;
        let trail_frequency: u16 = r.u16()?;
        let visible: u8 = r.u8()?;
        let cursor = Cursor::decode(&mut r)?;
        Ok(Self { position_x, position_y, trail_length, trail_frequency, visible, cursor })
    }
}

/// `SPICE_MSG_CURSOR_SET`.
#[derive(Debug, Clone, PartialEq, Eq)]
pub struct CursorSet {
    pub position_x: i16,
    pub position_y: i16,
    pub visible: u8,
    pub cursor: Cursor,
}

impl CursorSet {
    /// A message body reads as `res`.
    pub open spec fn reads(s: Seq<u8>, res: Result<CursorSet>) -> bool {
        match wire::short_in(seq![2, 2, 1], s.len() as int) {
            Some(e) => res == Err::<CursorSet, _>(e),
            None => {
                &&& res matches Ok(m) ==> {
                    &&& m.position_x == wire::i16_at(s, 0)
                    &&& m.position_y == wire::i16_at(s, 2)
                    &&& m.visible == s[4]
                }
                &&& Cursor::reads_at(
                    s,
                    5,
                    match res {
                        Ok(m) => Ok(m.cursor),
                        Err(e) => Err(e),
                    },
                )
            },
        }
    }

    pub fn decode(buf: &[u8]) -> (res: Result<Self>)
        ensures
            Self::reads(buf@, res),
    {
        proof {
            reveal_with_fuel(wire::short_from, 4);
        }
        let mut r = Reader::new(buf);
        let position_x: i16 = r.i16()?;
        let position_y: i16 = r.i16()?;
        let visible: u8 = r.u8()?;
        let cursor = Cursor::decode(&mut r)?;
        Ok(Self { position_x, position_y, visible, cursor })
    }
}

/// `SPICE_MSG_CURSOR_MOVE`.
#[derive(Debug, Clone, Copy, PartialEq, Eq, Structural)]
pub struct CursorMove {
    pub position_x: i16,
    pub position_y: i16,
}

impl CursorMove {
    /// The cursor-move message whose bytes start at `i`.
    pub open spec fn spec_at(s: Seq<u8>, i: int) -> CursorMove {
        CursorMove {
            position_x: wire::i16_at(s, i),
            position_y: wire::i16_at(s, i + 2),
        }
    }

    /// What a message body reads as.
    pub open spec fn parse(s: Seq<u8>) -> Result<CursorMove> {
        match wire::short_in(seq![2, 2], s.len() as int) {
            Some(e) => Err(e),
            None => Ok(Self::spec_at(s, 0)),
        }
    }

    pub fn decode(buf: &[u8]) -> (res: Result<Self>)
        ensures
            res == Self::parse(buf@),
    {
        proof {
            reveal_with_fuel(wire::short_from, 3);
        }
        let mut r = Reader::new(buf);
        Ok(
            Self {
                position_x: r.i16()?,
                position_y: r.i16()?,
            },
        )
    }
}

/// `SPICE_MSG_CURSOR_INVAL_ONE`.
#[derive(Debug, Clone, Copy, PartialEq, Eq, Structural)]
pub struct CursorInvalOne {
    pub unique: u64,
}

impl CursorInvalOne {
    /// The cursor-invalidate message whose bytes start at `i`.
    pub open spec fn spec_at(s: Seq<u8>, i: int) -> CursorInvalOne {
        CursorInvalOne {
            unique: wire::u64_at(s, i),
        }
    }

    /// What a message body reads as.
    pub open spec fn parse(s: Seq<u8>) -> Result<CursorInvalOne> {
        match wire::short_in(seq![8], s.len() as int) {
            Some(e) => Err(e),
            None => Ok(Self::spec_at(s, 0)),
        }
    }

    pub fn decode(buf: &[u8]) -> (res: Result<Self>)
        ensures
            res == Self::parse(buf@),
    {
        proof {
            reveal_with_fuel(wire::short_from, 2);
        }
        let mut r = Reader::new(buf);
        Ok(
            Self {
                unique: r.u64()?,
            },
        )
    }
}

} // verus!
