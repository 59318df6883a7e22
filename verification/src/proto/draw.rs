//! Display-channel drawing commands.
//!
//! SPICE's drawing commands use a marshal-tree wire format: a flat struct up
//! front, with `u32` offsets inside it pointing to variable-length
//! sub-structures that follow. Offsets are measured from the start of the
//! message body. An offset of `0` means absent.

use vstd::prelude::*;

use crate::proto::error::{ProtoError, Result};
use crate::proto::types;
use crate::proto::types::{Point, Reader, Rect, Writer};
use crate::proto::wire;

pub mod brush_type;
pub mod clip_type;
pub mod ropd;
pub mod scale_mode;

verus! {

/// Clip region accompanying every drawing command.
#[derive(Debug, Clone, Copy, PartialEq, Eq, Structural)]
pub enum Clip {
    NoClip,
    /// Clip rectangles are pointed to by this offset.
    Rects { offset: u32 },
}

impl Clip {
    /// The bytes of a clip region.
    pub open spec fn wire(self) -> Seq<u8> {
        match self {
            Clip::NoClip => seq![clip_type::NONE],
            Clip::Rects { offset } => seq![clip_type::RECTS] + wire::le32(offset),
        }
    }

    /// What the bytes from `i` on read as, and where they end. Of an unknown
    /// type the tag is all there is.
    pub open spec fn parse_at(s: Seq<u8>, i: int) -> Result<(Clip, int)> {
        if i + 1 > s.len() {
            Err(ProtoError::Short { need: 1, have: 0 })
        } else if s[i] == clip_type::NONE {
            Ok((Clip::NoClip, i + 1))
        } else if s[i] == clip_type::RECTS {
            if i + 5 > s.len() {
                Err(ProtoError::Short { need: 4, have: (s.len() - i - 1) as usize })
            } else {
                Ok((Clip::Rects { offset: wire::u32_at(s, i + 1) }, i + 5))
            }
        } else {
            Ok((Clip::Rects { offset: 0 }, i + 1))
        }
    }

    pub fn decode(r: &mut Reader<'_>) -> (res: Result<Self>)
        ensures
            types::reads(*old(r), *final(r), Self::parse_at(old(r).input(), old(r).at()), res),
    {
        let t: u8 = r.u8()?;
        if t == clip_type::NONE {
            Ok(Clip::NoClip)
        } else if t == clip_type::RECTS {
            let offset: u32 = r.u32()?;
            Ok(Clip::Rects { offset })
        } else {
            Ok(Clip::Rects { offset: 0 })
        }
    }

    pub fn encode(&self, w: &mut Writer)
        ensures
            final(w)@ == old(w)@ + self.wire(),
    {
        match self {
            Clip::NoClip => w.u8(clip_type::NONE),
            Clip::Rects { offset } => {
                w.u8(clip_type::RECTS);
                w.u32(*offset);
            },
        }
        assert(w@ =~= old(w)@ + self.wire());
    }
}

/// A clip region reads back as it was written, wherever it stands.
#[verifier::rlimit(50)]
#[verifier::spinoff_prover]
pub proof fn clip_round_trip(m: Clip, head: Seq<u8>, tail: Seq<u8>)
    ensures
        Clip::parse_at(head + (m.wire() + tail), head.len() as int) == Ok::<
            (Clip, int),
            ProtoError,
        >((m, head.len() as int + m.wire().len())),
{
    let s = m.wire() + tail;
    wire::lemma_lengths();
    wire::lemma_shifted(head, s, 0);
    wire::lemma_shifted(head, s, 1);
    match m {
        Clip::NoClip => {
            assert(s[0] == clip_type::NONE);
        },
        Clip::Rects { offset } => {
            assert(s[0] == clip_type::RECTS);
            assert(s.subrange(1, 5) =~= wire::le32(offset));
            wire::u32_at_le32(s, 1, offset);
        },
    }
}

/// Paint brush: solid color, pattern, or none.
#[derive(Debug, Clone, Copy, PartialEq, Eq, Structural)]
pub enum Brush {
    NoBrush,
    /// 32-bit color (little-endian). For a 32-bit `xRGB`/`ARGB` surface the
    /// bytes in memory are `B, G, R, A`.
    Solid(u32),
    /// Pattern image and origin. The image is pointed to by `offset` within
    /// the message body.
    Pattern { offset: u32, pos: Point },
}

impl Brush {
    /// The bytes of a brush.
    pub open spec fn wire(self) -> Seq<u8> {
        match self {
            Brush::NoBrush => wire::le32(brush_type::NONE),
            Brush::Solid(c) => wire::le32(brush_type::SOLID) + wire::le32(c),
            Brush::Pattern { offset, pos } => wire::le32(brush_type::PATTERN) + wire::le32(offset)
                + wire::le32s(pos.x) + wire::le32s(pos.y),
        }
    }

    /// What the bytes from `i` on read as, and where they end. An unknown type
    /// is no brush.
    pub open spec fn parse_at(s: Seq<u8>, i: int) -> Result<(Brush, int)> {
        if i + 4 > s.len() {
            Err(ProtoError::Short { need: 4, have: (s.len() - i) as usize })
        } else if wire::u32_at(s, i) == brush_type::SOLID {
            if i + 8 > s.len() {
                Err(ProtoError::Short { need: 4, have: (s.len() - i - 4) as usize })
            } else {
                Ok((Brush::Solid(wire::u32_at(s, i + 4)), i + 8))
            }
        } else if wire::u32_at(s, i) == brush_type::PATTERN {
            match wire::short_in(seq![4, 4, 4], s.len() - i - 4) {
                Some(e) => Err(e),
                None => Ok(
                    (
                        Brush::Pattern {
                            offset: wire::u32_at(s, i + 4),
                            pos: Point { x: wire::i32_at(s, i + 8), y: wire::i32_at(s, i + 12) },
                        },
                        i + 16,
                    ),
                ),
            }
        } else {
            Ok((Brush::NoBrush, i + 4))
        }
    }

    pub fn decode(r: &mut Reader<'_>) -> (res: Result<Self>)
        ensures
            types::reads(*old(r), *final(r), Self::parse_at(old(r).input(), old(r).at()), res),
    {
        proof {
            reveal_with_fuel(wire::short_from, 4);
        }
        let t: u32 = r.u32()?;
        if t == brush_type::SOLID {
            Ok(Brush::Solid(r.u32()?))
        } else if t == brush_type::PATTERN {
            let offset: u32 = r.u32()?;
            let x: i32 = r.i32()?;
            let y: i32 = r.i32()?;
            Ok(Brush::Pattern { offset, pos: Point { x, y } })
        } else {
            Ok(Brush::NoBrush)
        }
    }

    pub fn encode(&self, w: &mut Writer)
        ensures
            final(w)@ == old(w)@ + self.wire(),
    {
        match self {
            Brush::NoBrush => w.u32(brush_type::NONE),
            Brush::Solid(c) => {
                w.u32(brush_type::SOLID);
                w.u32(*c);
            },
            Brush::Pattern { offset, pos } => {
                w.u32(brush_type::PATTERN);
                w.u32(*offset);
                w.i32(pos.x);
                w.i32(pos.y);
            },
        }
        assert(w@ =~= old(w)@ + self.wire());
    }
}

/// A brush reads back as it was written, wherever it stands.
#[verifier::rlimit(50)]
#[verifier::spinoff_prover]
pub proof fn brush_round_trip(m: Brush, head: Seq<u8>, tail: Seq<u8>)
    ensures
        Brush::parse_at(head + (m.wire() + tail), head.len() as int) == Ok::<
            (Brush, int),
            ProtoError,
        >((m, head.len() as int + m.wire().len())),
{
    reveal_with_fuel(wire::short_from, 4);
    let s = m.wire() + tail;
    wire::lemma_lengths();
    wire::lemma_shifted(head, s, 0);
    wire::lemma_shifted(head, s, 4);
    wire::lemma_shifted(head, s, 8);
    wire::lemma_shifted(head, s, 12);
    let code: u32 = match m {
        Brush::NoBrush => brush_type::NONE,
        Brush::Solid(_) => brush_type::SOLID,
        Brush::Pattern { .. } => brush_type::PATTERN,
    };
    assert(wire::u32_at(s, 0) == code) by {
        broadcast use wire::group_parts;

        assert(s.subrange(0, 4) == wire::le32(code));
        wire::u32_at_le32(s, 0, code);
    }
    match m {
        Brush::NoBrush => {},
        Brush::Solid(c) => {
            assert(s.subrange(4, 8) =~= wire::le32(c));
            wire::u32_at_le32(s, 4, c);
        },
        Brush::Pattern { offset, pos } => {
            assert(wire::u32_at(s, 4) == offset) by {
                broadcast use wire::group_parts;

                assert(s.subrange(4, 8) == wire::le32(offset));
                wire::u32_at_le32(s, 4, offset);
            }
            assert(wire::i32_at(s, 8) == pos.x) by {
                broadcast use wire::group_parts;

                assert(s.subrange(8, 12) == wire::le32s(pos.x));
                wire::i32_at_le32s(s, 8, pos.x);
            }
            assert(wire::i32_at(s, 12) == pos.y) by {
                broadcast use wire::group_parts;

                assert(s.subrange(12, 16) == wire::le32s(pos.y));
                wire::i32_at_le32s(s, 12, pos.y);
            }
        },
    }
}

/// Mask attached to drawing commands. `bitmap_offset == 0` means no mask.
#[derive(Debug, Clone, Copy, PartialEq, Eq, Structural)]
pub struct QMask {
    pub flags: u8,
    pub pos: Point,
    pub bitmap_offset: u32,
}

impl QMask {
    /// The bytes of a mask.
    pub open spec fn wire(self) -> Seq<u8> {
        seq![self.flags] + wire::le32s(self.pos.x) + wire::le32s(self.pos.y) + wire::le32(
            self.bitmap_offset,
        )
    }

    /// What the bytes from `i` on read as, and where they end.
    pub open spec fn parse_at(s: Seq<u8>, i: int) -> Result<(QMask, int)> {
        match wire::short_in(seq![1, 4, 4, 4], s.len() - i) {
            Some(e) => Err(e),
            None => Ok(
                (
                    QMask {
                        flags: s[i],
                        pos: Point { x: wire::i32_at(s, i + 1), y: wire::i32_at(s, i + 5) },
                        bitmap_offset: wire::u32_at(s, i + 9),
                    },
                    i + 13,
                ),
            ),
        }
    }

    pub fn decode(r: &mut Reader<'_>) -> (res: Result<Self>)
        ensures
            types::reads(*old(r), *final(r), Self::parse_at(old(r).input(), old(r).at()), res),
    {
        proof {
            reveal_with_fuel(wire::short_from, 5);
        }
        let flags: u8 = r.u8()?;
        let x: i32 = r.i32()?;
        let y: i32 = r.i32()?;
        let bitmap_offset: u32 = r.u32()?;
        Ok(Self { flags, pos: Point { x, y }, bitmap_offset })
    }

    pub fn encode(&self, w: &mut Writer)
        ensures
            final(w)@ == old(w)@ + self.wire(),
    {
        w.u8(self.flags);
        w.i32(self.pos.x);
        w.i32(self.pos.y);
        w.u32(self.bitmap_offset);
        assert(w@ =~= old(w)@ + self.wire());
    }

    pub fn has_bitmap(&self) -> (b: bool)
        ensures
            b == (self.bitmap_offset != 0),
    {
        self.bitmap_offset != 0
    }
}

/// A mask reads back as it was written, wherever it stands.
#[verifier::rlimit(50)]
#[verifier::spinoff_prover]
pub proof fn q_mask_round_trip(m: QMask, head: Seq<u8>, tail: Seq<u8>)
    ensures
        QMask::parse_at(head + (m.wire() + tail), head.len() as int) == Ok::<
            (QMask, int),
            ProtoError,
        >((m, head.len() as int + 13)),
        m.wire().len() == 13,
{
    reveal_with_fuel(wire::short_from, 5);
    let s = m.wire() + tail;
    wire::lemma_lengths();
    wire::lemma_shifted(head, s, 0);
    wire::lemma_shifted(head, s, 1);
    wire::lemma_shifted(head, s, 5);
    wire::lemma_shifted(head, s, 9);
    assert(s[0] == m.flags);
    assert(wire::i32_at(s, 1) == m.pos.x) by {
        broadcast use wire::group_parts;

        assert(s.subrange(1, 5) == wire::le32s(m.pos.x));
        wire::i32_at_le32s(s, 1, m.pos.x);
    }
    assert(wire::i32_at(s, 5) == m.pos.y) by {
        broadcast use wire::group_parts;

        assert(s.subrange(5, 9) == wire::le32s(m.pos.y));
        wire::i32_at_le32s(s, 5, m.pos.y);
    }
    assert(wire::u32_at(s, 9) == m.bitmap_offset) by {
        broadcast use wire::group_parts;

        assert(s.subrange(9, 13) == wire::le32(m.bitmap_offset));
        wire::u32_at_le32(s, 9, m.bitmap_offset);
    }
}

/// Common header shared by every drawing command.
#[derive(Debug, Clone, Copy, PartialEq, Eq, Structural)]
pub struct DrawBase {
    pub surface_id: u32,
    pub bounds: Rect,
    pub clip: Clip,
}

impl DrawBase {
    /// The bytes of a drawing command's header.
    pub open spec fn wire(self) -> Seq<u8> {
        wire::le32(self.surface_id) + self.bounds.wire() + self.clip.wire()
    }

    /// What the bytes from `i` on read as, and where they end.
    pub open spec fn parse_at(s: Seq<u8>, i: int) -> Result<(DrawBase, int)> {
        if i + 4 > s.len() {
            Err(ProtoError::Short { need: 4, have: (s.len() - i) as usize })
        } else {
            match Rect::parse_at(s, i + 4) {
                Err(e) => Err(e),
                Ok((bounds, j)) => match Clip::parse_at(s, j) {
                    Err(e) => Err(e),
                    Ok((clip, k)) => Ok(
                        (DrawBase { surface_id: wire::u32_at(s, i), bounds, clip }, k),
                    ),
                },
            }
        }
    }

    pub fn decode(r: &mut Reader<'_>) -> (res: Result<Self>)
        ensures
            types::reads(*old(r), *final(r), Self::parse_at(old(r).input(), old(r).at()), res),
    {
        let surface_id: u32 = r.u32()?;
        let bounds = Rect::decode(r)?;
        let clip = Clip::decode(r)?;
        Ok(Self { surface_id, bounds, clip })
    }

    pub fn encode(&self, w: &mut Writer)
        ensures
            final(w)@ == old(w)@ + self.wire(),
    {
        w.u32(self.surface_id);
        self.bounds.encode(w);
        self.clip.encode(w);
        assert(w@ =~= old(w)@ + self.wire());
    }
}

/// A drawing command's header reads back as it was written, wherever it
/// stands.
#[verifier::rlimit(50)]
#[verifier::spinoff_prover]
pub proof fn draw_base_round_trip(m: DrawBase, head: Seq<u8>, tail: Seq<u8>)
    ensures
        DrawBase::parse_at(head + (m.wire() + tail), head.len() as int) == Ok::<
            (DrawBase, int),
            ProtoError,
        >((m, head.len() as int + m.wire().len())),
{
    wire::lemma_lengths();
    let id = wire::le32(m.surface_id);
    let bounds = m.bounds.wire();
    let clip = m.clip.wire();
    let s = head + (m.wire() + tail);
    let h1 = head + id;
    let h2 = h1 + bounds;
    assert(s =~= h1 + (bounds + (clip + tail)));
    assert(s =~= h2 + (clip + tail));
    let n = head.len() as int;
    assert(s.subrange(n, n + 4) =~= id);
    wire::u32_at_le32(s, n, m.surface_id);
    types::rect_round_trip(m.bounds, h1, clip + tail);
    clip_round_trip(m.clip, h2, tail);
}

/// Parsed `MSG_DISPLAY_DRAW_FILL` body.
#[derive(Debug, Clone, Copy, PartialEq, Eq, Structural)]
pub struct DrawFill {
    pub base: DrawBase,
    pub brush: Brush,
    pub rop_descriptor: u16,
    pub mask: QMask,
}

impl DrawFill {
    /// The bytes of a fill.
    pub open spec fn wire(self) -> Seq<u8> {
        self.base.wire() + self.brush.wire() + wire::le16(self.rop_descriptor) + self.mask.wire()
    }

    /// What a message body reads as.
    pub open spec fn parse(s: Seq<u8>) -> Result<DrawFill> {
        match DrawBase::parse_at(s, 0) {
            Err(e) => Err(e),
            Ok((base, i)) => match Brush::parse_at(s, i) {
                Err(e) => Err(e),
                Ok((brush, j)) => if j + 2 > s.len() {
                    Err(ProtoError::Short { need: 2, have: (s.len() - j) as usize })
                } else {
                    match QMask::parse_at(s, j + 2) {
                        Err(e) => Err(e),
                        Ok((mask, _)) => Ok(
                            DrawFill {
                                base,
                                brush,
                                rop_descriptor: wire::u16_at(s, j),
                                mask,
                            },
                        ),
                    }
                },
            },
        }
    }

    pub fn decode(buf: &[u8]) -> (res: Result<Self>)
        ensures
            res == Self::parse(buf@),
    {
        let mut r = Reader::new(buf);
        let base = DrawBase::decode(&mut r)?;
        let brush = Brush::decode(&mut r)?;
        let rop_descriptor: u16 = r.u16()?;
        let mask = QMask::decode(&mut r)?;
        Ok(Self { base, brush, rop_descriptor, mask })
    }

    pub fn encode(&self, w: &mut Writer)
        ensures
            final(w)@ == old(w)@ + self.wire(),
    {
        self.base.encode(w);
        self.brush.encode(w);
        w.u16(self.rop_descriptor);
        self.mask.encode(w);
        assert(w@ =~= old(w)@ + self.wire());
    }

    /// This fill can be rendered as a single solid rectangle.
    pub open spec fn simple_solid(self) -> bool {
        &&& self.base.clip is NoClip
        &&& self.brush is Solid
        &&& self.rop_descriptor == ropd::OP_PUT
        &&& self.mask.bitmap_offset == 0
    }

    /// True when this fill can be rendered as a single solid rectangle without
    /// reading the destination surface (no complex rop, no mask, no clip
    /// rects).
    pub fn is_simple_solid(&self) -> (b: bool)
        ensures
            b == self.simple_solid(),
    {
        matches!(self.clip(), Clip::NoClip) && matches!(self.brush, Brush::Solid(_))
            && self.rop_descriptor == ropd::OP_PUT && !self.mask.has_bitmap()
    }

    pub fn clip(&self) -> (c: Clip)
        ensures
            c == self.base.clip,
    {
        self.base.clip
    }

    pub fn solid_color(&self) -> (c: Option<u32>)
        ensures
            c == (match self.brush {
                Brush::Solid(c) => Some(c),
                _ => None,
            }),
    {
        match self.brush {
            Brush::Solid(c) => Some(c),
            _ => None,
        }
    }
}

/// Four parts and what follows them, grouped around each part.
proof fn lemma_four_parts(a: Seq<u8>, b: Seq<u8>, c: Seq<u8>, d: Seq<u8>, t: Seq<u8>)
    ensures
        ({
            let s = a + b + c + d + t;
            let n = (a + b).len() as int;
            &&& s == Seq::<u8>::empty() + (a + (b + c + d + t))
            &&& s == a + (b + (c + d + t))
            &&& s == (a + b + c) + (d + t)
            &&& s.subrange(n, n + c.len()) == c
        }),
{
    let s = a + b + c + d + t;
    let n = (a + b).len() as int;
    assert(s =~= Seq::<u8>::empty() + (a + (b + c + d + t)));
    assert(s =~= a + (b + (c + d + t)));
    assert(s =~= (a + b + c) + (d + t));
    assert(s.subrange(n, n + c.len()) =~= c);
}

proof fn lemma_parse_fill(m: DrawFill, s: Seq<u8>, i: int, j: int, end: int)
    requires
        DrawBase::parse_at(s, 0) == Ok::<(DrawBase, int), ProtoError>((m.base, i)),
        Brush::parse_at(s, i) == Ok::<(Brush, int), ProtoError>((m.brush, j)),
        j + 2 <= s.len(),
        wire::u16_at(s, j) == m.rop_descriptor,
        QMask::parse_at(s, j + 2) == Ok::<(QMask, int), ProtoError>((m.mask, end)),
    ensures
        DrawFill::parse(s) == Ok::<DrawFill, ProtoError>(m),
{
}

/// A fill reads back as it was written, whatever follows it.
#[verifier::rlimit(60)]
#[verifier::spinoff_prover]
pub proof fn draw_fill_round_trip(m: DrawFill, tail: Seq<u8>)
    ensures
        DrawFill::parse(m.wire() + tail) == Ok::<DrawFill, ProtoError>(m),
{
    let base = m.base.wire();
    let brush = m.brush.wire();
    let rop = wire::le16(m.rop_descriptor);
    let mask = m.mask.wire();
    let s = m.wire() + tail;
    let none = Seq::<u8>::empty();
    let i = base.len() as int;
    let j = (base + brush).len() as int;
    let end = j + 2 + mask.len();
    lemma_four_parts(base, brush, rop, mask, tail);
    assert(DrawBase::parse_at(s, 0) == Ok::<(DrawBase, int), ProtoError>((m.base, i))) by {
        draw_base_round_trip(m.base, none, brush + rop + mask + tail);
    }
    assert(Brush::parse_at(s, i) == Ok::<(Brush, int), ProtoError>((m.brush, j))) by {
        brush_round_trip(m.brush, base, rop + mask + tail);
    }
    assert(wire::u16_at(s, j) == m.rop_descriptor) by {
        wire::u16_at_le16(s, j, m.rop_descriptor);
    }
    assert(QMask::parse_at(s, j + 2) == Ok::<(QMask, int), ProtoError>((m.mask, end))) by {
        q_mask_round_trip(m.mask, base + brush + rop, tail);
    }
    lemma_parse_fill(m, s, i, j, end);
}

/// `MSG_DISPLAY_COPY_BITS`: copy a rectangle from `src_pos` to `base.bounds`
/// within the same surface. Used heavily by compositors for window movement,
/// scrolling, and shadow updates.
#[derive(Debug, Clone, Copy, PartialEq, Eq, Structural)]
pub struct CopyBits {
    pub base: DrawBase,
    pub src_pos: Point,
}

impl CopyBits {
    /// The bytes of a copy inside a surface.
    pub open spec fn wire(self) -> Seq<u8> {
        self.base.wire() + wire::le32s(self.src_pos.x) + wire::le32s(self.src_pos.y)
    }

    /// What a message body reads as.
    pub open spec fn parse(s: Seq<u8>) -> Result<CopyBits> {
        match DrawBase::parse_at(s, 0) {
            Err(e) => Err(e),
            Ok((base, i)) => match wire::short_in(seq![4, 4], s.len() - i) {
                Some(e) => Err(e),
                None => Ok(
                    CopyBits {
                        base,
                        src_pos: Point { x: wire::i32_at(s, i), y: wire::i32_at(s, i + 4) },
                    },
                ),
            },
        }
    }

    pub fn decode(buf: &[u8]) -> (res: Result<Self>)
        ensures
            res == Self::parse(buf@),
    {
        proof {
            reveal_with_fuel(wire::short_from, 3);
        }
        let mut r = Reader::new(buf);
        let base = DrawBase::decode(&mut r)?;
        let x: i32 = r.i32()?;
        let y: i32 = r.i32()?;
        Ok(Self { base, src_pos: Point { x, y } })
    }

    pub fn encode(&self, w: &mut Writer)
        ensures
            final(w)@ == old(w)@ + self.wire(),
    {
        self.base.encode(w);
        w.i32(self.src_pos.x);
        w.i32(self.src_pos.y);
        assert(w@ =~= old(w)@ + self.wire());
    }
}

/// A copy inside a surface reads back as it was written, whatever follows it.
#[verifier::rlimit(50)]
#[verifier::spinoff_prover]
pub proof fn copy_bits_round_trip(m: CopyBits, tail: Seq<u8>)
    ensures
        CopyBits::parse(m.wire() + tail) == Ok::<CopyBits, ProtoError>(m),
{
    reveal_with_fuel(wire::short_from, 3);
    wire::lemma_lengths();
    let base = m.base.wire();
    let x = wire::le32s(m.src_pos.x);
    let y = wire::le32s(m.src_pos.y);
    let s = m.wire() + tail;
    let none = Seq::<u8>::empty();
    assert(s =~= none + (base + (x + y + tail)));
    draw_base_round_trip(m.base, none, x + y + tail);
    let n = base.len() as int;
    assert(s.subrange(n, n + 4) =~= x);
    assert(s.subrange(n + 4, n + 8) =~= y);
    wire::i32_at_le32s(s, n, m.src_pos.x);
    wire::i32_at_le32s(s, n + 4, m.src_pos.y);
}

/// Fixed part of `MSG_DISPLAY_DRAW_COPY`. `src_bitmap_offset` points into the
/// same message body at a `SpiceImage`.
#[derive(Debug, Clone, Copy, PartialEq, Eq, Structural)]
pub struct DrawCopy {
    pub base: DrawBase,
    pub src_bitmap_offset: u32,
    pub src_area: Rect,
    pub rop_descriptor: u16,
    pub scale_mode: u8,
    pub mask: QMask,
}

impl DrawCopy {
    /// The bytes of a copy.
    pub open spec fn wire(self) -> Seq<u8> {
        self.base.wire() + wire::le32(self.src_bitmap_offset) + self.src_area.wire() + wire::le16(
            self.rop_descriptor,
        ) + seq![self.scale_mode] + self.mask.wire()
    }

    /// What a message body reads as.
    pub open spec fn parse(s: Seq<u8>) -> Result<DrawCopy> {
        match DrawBase::parse_at(s, 0) {
            Err(e) => Err(e),
            Ok((base, i)) => if i + 4 > s.len() {
                Err(ProtoError::Short { need: 4, have: (s.len() - i) as usize })
            } else {
                match Rect::parse_at(s, i + 4) {
                    Err(e) => Err(e),
                    Ok((src_area, j)) => match wire::short_in(seq![2, 1], s.len() - j) {
                        Some(e) => Err(e),
                        None => match QMask::parse_at(s, j + 3) {
                            Err(e) => Err(e),
                            Ok((mask, _)) => Ok(
                                DrawCopy {
                                    base,
                                    src_bitmap_offset: wire::u32_at(s, i),
                                    src_area,
                                    rop_descriptor: wire::u16_at(s, j),
                                    scale_mode: s[j + 2],
                                    mask,
                                },
                            ),
                        },
                    },
                }
            },
        }
    }

    pub fn decode(buf: &[u8]) -> (res: Result<Self>)
        ensures
            res == Self::parse(buf@),
    {
        proof {
            reveal_with_fuel(wire::short_from, 3);
        }
        let mut r = Reader::new(buf);
        let base = DrawBase::decode(&mut r)?;
        let src_bitmap_offset: u32 = r.u32()?;
        let src_area = Rect::decode(&mut r)?;
        let rop_descriptor: u16 = r.u16()?;
        let scale_mode: u8 = r.u8()?;
        let mask = QMask::decode(&mut r)?;
        Ok(Self { base, src_bitmap_offset, src_area, rop_descriptor, scale_mode, mask })
    }

    pub fn encode(&self, w: &mut Writer)
        ensures
            final(w)@ == old(w)@ + self.wire(),
    {
        self.base.encode(w);
        w.u32(self.src_bitmap_offset);
        self.src_area.encode(w);
        w.u16(self.rop_descriptor);
        w.u8(self.scale_mode);
        self.mask.encode(w);
        assert(w@ =~= old(w)@ + self.wire());
    }

    /// This copy needs no blending, mask, or clip.
    pub open spec fn simple_copy(self) -> bool {
        &&& self.base.clip is NoClip
        &&& self.rop_descriptor == ropd::OP_PUT
        &&& self.mask.bitmap_offset == 0
    }

    /// True when the copy can be rendered as a straight copy from `src_bitmap`
    /// into `base.bounds` with no blending, mask, or clip.
    pub fn is_simple_copy(&self) -> (b: bool)
        ensures
            b == self.simple_copy(),
    {
        matches!(self.base.clip, Clip::NoClip) && self.rop_descriptor == ropd::OP_PUT
            && !self.mask.has_bitmap()
    }
}

/// Six parts and what follows them, grouped around each part.
proof fn lemma_six_parts(
    a: Seq<u8>,
    b: Seq<u8>,
    c: Seq<u8>,
    d: Seq<u8>,
    e: Seq<u8>,
    f: Seq<u8>,
    t: Seq<u8>,
)
    requires
        e.len() == 1,
    ensures
        ({
            let s = a + b + c + d + e + f + t;
            let n = a.len() as int;
            let k = (a + b + c).len() as int;
            &&& s == Seq::<u8>::empty() + (a + (b + c + d + e + f + t))
            &&& s == (a + b) + (c + (d + e + f + t))
            &&& s == (a + b + c + d + e) + (f + t)
            &&& s.subrange(n, n + b.len()) == b
            &&& s.subrange(k, k + d.len()) == d
            &&& s[k + d.len()] == e[0]
        }),
{
    let s = a + b + c + d + e + f + t;
    let n = a.len() as int;
    let k = (a + b + c).len() as int;
    assert(s =~= Seq::<u8>::empty() + (a + (b + c + d + e + f + t)));
    assert(s =~= (a + b) + (c + (d + e + f + t)));
    assert(s =~= (a + b + c + d + e) + (f + t));
    assert(s.subrange(n, n + b.len()) =~= b);
    assert(s.subrange(k, k + d.len()) =~= d);
}

/// A copy reads back as it was written, whatever follows it.
#[verifier::rlimit(60)]
#[verifier::spinoff_prover]
pub proof fn draw_copy_round_trip(m: DrawCopy, tail: Seq<u8>)
    ensures
        DrawCopy::parse(m.wire() + tail) == Ok::<DrawCopy, ProtoError>(m),
{
    reveal_with_fuel(wire::short_from, 3);
    wire::lemma_lengths();
    let base = m.base.wire();
    let ofs = wire::le32(m.src_bitmap_offset);
    let area = m.src_area.wire();
    let rop = wire::le16(m.rop_descriptor);
    let scale = seq![m.scale_mode];
    let mask = m.mask.wire();
    let s = m.wire() + tail;
    lemma_six_parts(base, ofs, area, rop, scale, mask, tail);
    draw_base_round_trip(m.base, Seq::empty(), ofs + area + rop + scale + mask + tail);
    let n = base.len() as int;
    wire::u32_at_le32(s, n, m.src_bitmap_offset);
    types::rect_round_trip(m.src_area, base + ofs, rop + scale + mask + tail);
    let k = (base + ofs + area).len() as int;
    assert(area.len() == 16);
    wire::u16_at_le16(s, k, m.rop_descriptor);
    q_mask_round_trip(m.mask, base + ofs + area + rop + scale, tail);
}

} // verus!
