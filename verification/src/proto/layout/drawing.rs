//! Drawing, stream and cursor messages, field by field.

use vstd::prelude::*;

use crate::proto::cursor;
use crate::proto::cursor::{Cursor, CursorInit, CursorSet};
use crate::proto::draw;
use crate::proto::draw::{Brush, Clip, CopyBits, DrawBase, DrawCopy, DrawFill, QMask};
use crate::proto::error::Result;
use crate::proto::layout::records;
use crate::proto::layout::{
    lemma_u32, lemma_u64, numbers_are_read_in_base_256, signed_value, value,
};
use crate::proto::stream;
use crate::proto::stream::{StreamClip, StreamCreate, StreamData, StreamDataSized};
use crate::proto::types::Rect;
use crate::proto::wire;

verus! {

/// A rectangle stands at `i`: top, left, bottom and right edge, four bytes
/// each.
pub open spec fn rect_stands(s: Seq<u8>, i: int, r: Rect) -> bool {
    &&& i + 16 <= s.len()
    &&& r.top == signed_value(s, i, 4)
    &&& r.left == signed_value(s, i + 4, 4)
    &&& r.bottom == signed_value(s, i + 8, 4)
    &&& r.right == signed_value(s, i + 12, 4)
}

/// A mask stands at `i`.
pub open spec fn mask_stands(s: Seq<u8>, i: int, m: QMask) -> bool {
    &&& i + 13 <= s.len()
    &&& m.flags == s[i]
    &&& m.pos.x == signed_value(s, i + 1, 4)
    &&& m.pos.y == signed_value(s, i + 5, 4)
    &&& m.bitmap_offset == value(s, i + 9, 4)
}

/// A clip region stands from `i` up to `end`: a byte 0 for none, or a byte 1
/// and where the rectangles are. Any other byte is clipping of an unknown kind.
pub open spec fn clip_stands(s: Seq<u8>, i: int, c: Clip, end: int) -> bool {
    &&& i < s.len()
    &&& s[i] == 0 ==> c is NoClip && end == i + 1
    &&& s[i] == 1 ==> {
        &&& end == i + 5 <= s.len()
        &&& c matches Clip::Rects { offset }
        &&& offset == value(s, i + 1, 4)
    }
    &&& s[i] > 1 ==> c == (Clip::Rects { offset: 0 }) && end == i + 1
}

/// A clip region is read from its type byte and, where there is one, its
/// offset.
pub proof fn clip_layout(m: Clip, s: Seq<u8>, i: int)
    requires
        0 <= i <= s.len(),
    ensures
        Clip::parse_at(s, i) is Ok <==> i < s.len() && (s[i] == 1 ==> i + 5 <= s.len()),
        Clip::parse_at(s, i) matches Ok((c, end)) ==> clip_stands(s, i, c, end),
        clip_stands(m.wire(), 0, m, m.wire().len() as int),
{
    numbers_are_read_in_base_256(s, i + 1);
    let out = m.wire();
    let none = Seq::<u8>::empty();
    draw::clip_round_trip(m, none, none);
    assert(none + (out + none) =~= out);
    numbers_are_read_in_base_256(out, 1);
}

/// A brush stands from `i` up to `end`: four bytes for its type, 1 for a
/// colour and 2 for a pattern; any other is no brush.
pub open spec fn brush_stands(s: Seq<u8>, i: int, b: Brush, end: int) -> bool {
    let kind = value(s, i, 4);
    &&& i + 4 <= s.len()
    &&& kind == 1 ==> {
        &&& end == i + 8 <= s.len()
        &&& b matches Brush::Solid(color)
        &&& color == value(s, i + 4, 4)
    }
    &&& kind == 2 ==> {
        &&& end == i + 16 <= s.len()
        &&& b matches Brush::Pattern { offset, pos }
        &&& offset == value(s, i + 4, 4)
        &&& pos.x == signed_value(s, i + 8, 4)
        &&& pos.y == signed_value(s, i + 12, 4)
    }
    &&& kind != 1 && kind != 2 ==> b is NoBrush && end == i + 4
}

/// A brush is read from its type and what belongs to that type.
#[verifier::spinoff_prover]
pub proof fn brush_layout(m: Brush, s: Seq<u8>, i: int)
    requires
        0 <= i <= s.len(),
    ensures
        Brush::parse_at(s, i) is Ok <==> {
            &&& i + 4 <= s.len()
            &&& value(s, i, 4) == 1 ==> i + 8 <= s.len()
            &&& value(s, i, 4) == 2 ==> i + 16 <= s.len()
        },
        Brush::parse_at(s, i) matches Ok((b, end)) ==> brush_stands(s, i, b, end),
        brush_stands(m.wire(), 0, m, m.wire().len() as int),
{
    reveal_with_fuel(wire::short_from, 4);
    numbers_are_read_in_base_256(s, i);
    numbers_are_read_in_base_256(s, i + 4);
    numbers_are_read_in_base_256(s, i + 8);
    numbers_are_read_in_base_256(s, i + 12);
    let out = m.wire();
    let none = Seq::<u8>::empty();
    draw::brush_round_trip(m, none, none);
    assert(none + (out + none) =~= out);
    numbers_are_read_in_base_256(out, 0);
    numbers_are_read_in_base_256(out, 4);
    numbers_are_read_in_base_256(out, 8);
    numbers_are_read_in_base_256(out, 12);
}

proof fn lemma_rect_at(s: Seq<u8>, i: int)
    requires
        0 <= i <= s.len(),
    ensures
        Rect::parse_at(s, i) is Ok <==> i + 16 <= s.len(),
        Rect::parse_at(s, i) matches Ok((r, end)) ==> rect_stands(s, i, r) && end == i + 16,
{
    records::rect_layout(Rect { top: 0, left: 0, bottom: 0, right: 0 }, s, i);
}

proof fn lemma_mask_at(s: Seq<u8>, i: int)
    requires
        0 <= i <= s.len(),
    ensures
        QMask::parse_at(s, i) is Ok <==> i + 13 <= s.len(),
        QMask::parse_at(s, i) matches Ok((m, end)) ==> mask_stands(s, i, m) && end == i + 13,
{
    reveal_with_fuel(wire::short_from, 5);
    numbers_are_read_in_base_256(s, i + 1);
    numbers_are_read_in_base_256(s, i + 5);
    numbers_are_read_in_base_256(s, i + 9);
}

/// The head of a drawing command stands at the start of `s` and ends at `end`:
/// the surface, the rectangle to paint, and the clip region.
pub open spec fn base_stands(s: Seq<u8>, b: DrawBase, end: int) -> bool {
    &&& 20 <= s.len()
    &&& b.surface_id == value(s, 0, 4)
    &&& rect_stands(s, 4, b.bounds)
    &&& clip_stands(s, 20, b.clip, end)
}

/// Where the head of a drawing command ends.
pub open spec fn base_end(s: Seq<u8>) -> int {
    if s[20] == 1 {
        25
    } else {
        21
    }
}

proof fn lemma_base(s: Seq<u8>)
    ensures
        DrawBase::parse_at(s, 0) is Ok <==> 20 < s.len() && base_end(s) <= s.len(),
        DrawBase::parse_at(s, 0) matches Ok((b, end)) ==> base_stands(s, b, end) && end == base_end(
            s,
        ),
{
    numbers_are_read_in_base_256(s, 0);
    if s.len() >= 4 {
        lemma_rect_at(s, 4);
    }
    if s.len() >= 20 {
        clip_layout(Clip::NoClip, s, 20);
    }
}

/// A fill is laid out as head, brush, raster operation and mask.
pub open spec fn fill_stands(s: Seq<u8>, m: DrawFill) -> bool {
    exists|i: int, j: int| #[trigger]
        base_stands(s, m.base, i) && #[trigger] brush_stands(s, i, m.brush, j) && m.rop_descriptor
            == value(s, j, 2) && mask_stands(s, j + 2, m.mask)
}

/// A fill is read as head, brush, raster operation and mask, one after the
/// other, and written so.
pub proof fn draw_fill_layout(m: DrawFill, s: Seq<u8>)
    ensures
        DrawFill::parse(s) matches Ok(n) ==> fill_stands(s, n),
        fill_stands(m.wire(), m),
{
    lemma_fill(s);
    let out = m.wire();
    draw::draw_fill_round_trip(m, Seq::empty());
    assert(out + Seq::<u8>::empty() =~= out);
    lemma_fill(out);
}

proof fn lemma_fill(s: Seq<u8>)
    ensures
        DrawFill::parse(s) matches Ok(n) ==> fill_stands(s, n),
{
    lemma_base(s);
    match DrawFill::parse(s) {
        Err(_) => {},
        Ok(n) => {
            let i = DrawBase::parse_at(s, 0)->Ok_0.1;
            brush_layout(Brush::NoBrush, s, i);
            let j = Brush::parse_at(s, i)->Ok_0.1;
            numbers_are_read_in_base_256(s, j);
            lemma_mask_at(s, j + 2);
            assert(base_stands(s, n.base, i) && brush_stands(s, i, n.brush, j));
        },
    }
}

/// A fill with one colour and no clipping, byte by byte: the colour stands at
/// 25, the raster operation at 29 and the mask's bitmap at 40, and 44 bytes
/// are all that it takes.
pub proof fn solid_fill_layout(s: Seq<u8>)
    requires
        s.len() > 25,
        s[20] == 0,
        value(s, 21, 4) == 1,
    ensures
        DrawFill::parse(s) is Ok <==> s.len() >= 44,
        DrawFill::parse(s) matches Ok(n) ==> {
            &&& n.base.surface_id == value(s, 0, 4)
            &&& rect_stands(s, 4, n.base.bounds)
            &&& n.base.clip is NoClip
            &&& n.brush == Brush::Solid(value(s, 25, 4) as u32)
            &&& n.rop_descriptor == value(s, 29, 2)
            &&& n.mask.bitmap_offset == value(s, 40, 4)
        },
{
    lemma_base(s);
    brush_layout(Brush::NoBrush, s, 21);
    numbers_are_read_in_base_256(s, 29);
    if s.len() >= 31 {
        lemma_mask_at(s, 31);
    }
}

/// A copy of a rectangle is laid out as head, and the point to copy from.
pub open spec fn copy_bits_stands(s: Seq<u8>, m: CopyBits) -> bool {
    exists|i: int| #[trigger]
        base_stands(s, m.base, i) && i + 8 <= s.len() && m.src_pos.x == signed_value(s, i, 4)
            && m.src_pos.y == signed_value(s, i + 4, 4)
}

proof fn lemma_copy_bits(s: Seq<u8>)
    ensures
        CopyBits::parse(s) is Ok <==> 20 < s.len() && base_end(s) + 8 <= s.len(),
        CopyBits::parse(s) matches Ok(n) ==> copy_bits_stands(s, n),
{
    reveal_with_fuel(wire::short_from, 3);
    lemma_base(s);
    let k = base_end(s);
    numbers_are_read_in_base_256(s, k);
    numbers_are_read_in_base_256(s, k + 4);
    match CopyBits::parse(s) {
        Err(_) => {},
        Ok(n) => {
            assert(base_stands(s, n.base, k));
        },
    }
}

/// A copy of a rectangle is read as head and source point, and written so.
pub proof fn copy_bits_layout(m: CopyBits, s: Seq<u8>)
    ensures
        CopyBits::parse(s) is Ok <==> 20 < s.len() && base_end(s) + 8 <= s.len(),
        CopyBits::parse(s) matches Ok(n) ==> copy_bits_stands(s, n),
        copy_bits_stands(m.wire(), m),
{
    lemma_copy_bits(s);
    let out = m.wire();
    draw::copy_bits_round_trip(m, Seq::empty());
    assert(out + Seq::<u8>::empty() =~= out);
    lemma_copy_bits(out);
}

/// A draw-copy is laid out as head, where the image is, the part of the image,
/// the raster operation, the scale mode and the mask.
pub open spec fn draw_copy_stands(s: Seq<u8>, m: DrawCopy) -> bool {
    exists|i: int| #[trigger]
        base_stands(s, m.base, i) && m.src_bitmap_offset == value(s, i, 4) && rect_stands(
            s,
            i + 4,
            m.src_area,
        ) && m.rop_descriptor == value(s, i + 20, 2) && m.scale_mode == s[i + 22] && mask_stands(
            s,
            i + 23,
            m.mask,
        )
}

proof fn lemma_draw_copy(s: Seq<u8>)
    ensures
        DrawCopy::parse(s) is Ok <==> 20 < s.len() && base_end(s) + 36 <= s.len(),
        DrawCopy::parse(s) matches Ok(n) ==> draw_copy_stands(s, n),
{
    reveal_with_fuel(wire::short_from, 3);
    lemma_base(s);
    let k = base_end(s);
    numbers_are_read_in_base_256(s, k);
    numbers_are_read_in_base_256(s, k + 20);
    if k + 4 <= s.len() {
        lemma_rect_at(s, k + 4);
    }
    if k + 23 <= s.len() {
        lemma_mask_at(s, k + 23);
    }
    match DrawCopy::parse(s) {
        Err(_) => {},
        Ok(n) => {
            assert(base_stands(s, n.base, k));
        },
    }
}

/// A draw-copy is read field after field, and written so.
pub proof fn draw_copy_layout(m: DrawCopy, s: Seq<u8>)
    ensures
        DrawCopy::parse(s) is Ok <==> 20 < s.len() && base_end(s) + 36 <= s.len(),
        DrawCopy::parse(s) matches Ok(n) ==> draw_copy_stands(s, n),
        draw_copy_stands(m.wire(), m),
{
    lemma_draw_copy(s);
    let out = m.wire();
    draw::draw_copy_round_trip(m, Seq::empty());
    assert(out + Seq::<u8>::empty() =~= out);
    lemma_draw_copy(out);
}

/// A stream-create message is laid out so.
pub open spec fn stream_create_stands(s: Seq<u8>, m: StreamCreate) -> bool {
    &&& m.surface_id == value(s, 0, 4)
    &&& m.stream_id == value(s, 4, 4)
    &&& m.flags == s[8]
    &&& m.codec.code() == s[9]
    &&& m.stamp == value(s, 10, 8)
    &&& m.stream_width == value(s, 18, 4)
    &&& m.stream_height == value(s, 22, 4)
    &&& m.src_width == value(s, 26, 4)
    &&& m.src_height == value(s, 30, 4)
    &&& rect_stands(s, 34, m.dest)
    &&& exists|end: int| clip_stands(s, 50, m.clip, end)
}

proof fn lemma_stream_create(s: Seq<u8>)
    ensures
        StreamCreate::parse(s) is Ok <==> 50 < s.len() && 1 <= s[9] <= 5 && (s[50] == 1 ==> 55
            <= s.len()),
        StreamCreate::parse(s) matches Ok(n) ==> stream_create_stands(s, n),
{
    assert(wire::short_in(seq![4, 4, 1, 1], s.len() as int) is None <==> s.len() >= 10) by {
        reveal_with_fuel(wire::short_from, 5);
    }
    assert(wire::short_in(seq![8, 4, 4, 4, 4], s.len() - 10) is None <==> s.len() >= 34) by {
        reveal_with_fuel(wire::short_from, 6);
    }
    lemma_u32(s, 0);
    lemma_u32(s, 4);
    lemma_u64(s, 10);
    lemma_u32(s, 18);
    lemma_u32(s, 22);
    lemma_u32(s, 26);
    lemma_u32(s, 30);
    if s.len() >= 34 {
        lemma_rect_at(s, 34);
    }
    if s.len() >= 50 {
        clip_layout(Clip::NoClip, s, 50);
    }
}

/// A stream-create message is read field after field, and written so.
pub proof fn stream_create_layout(m: StreamCreate, s: Seq<u8>)
    ensures
        StreamCreate::parse(s) is Ok <==> 50 < s.len() && 1 <= s[9] <= 5 && (s[50] == 1 ==> 55
            <= s.len()),
        StreamCreate::parse(s) matches Ok(n) ==> stream_create_stands(s, n),
        stream_create_stands(m.wire(), m),
{
    lemma_stream_create(s);
    let out = m.wire();
    stream::stream_create_round_trip(m, Seq::empty());
    assert(out + Seq::<u8>::empty() =~= out);
    lemma_stream_create(out);
}

/// A stream-data message is laid out so: stream, time, the number of bytes,
/// and the bytes.
pub open spec fn stream_data_stands(s: Seq<u8>, m: StreamData) -> bool {
    &&& m.header.stream_id == value(s, 0, 4)
    &&& m.header.multi_media_time == value(s, 4, 4)
    &&& m.data@.len() == value(s, 8, 4)
    &&& 12 + m.data@.len() <= s.len()
    &&& forall|k: int| 0 <= k < m.data@.len() ==> #[trigger] m.data@[k] == s[12 + k]
}

proof fn lemma_stream_data(s: Seq<u8>, res: Result<StreamData>)
    requires
        StreamData::reads(s, res),
    ensures
        res is Ok <==> 12 <= s.len() && 12 + value(s, 8, 4) <= s.len(),
        res matches Ok(n) ==> stream_data_stands(s, n),
{
    reveal_with_fuel(wire::short_from, 3);
    numbers_are_read_in_base_256(s, 0);
    numbers_are_read_in_base_256(s, 4);
    numbers_are_read_in_base_256(s, 8);
}

/// A stream-data message is read so, and written so.
pub proof fn stream_data_layout(
    m: StreamData,
    s: Seq<u8>,
    res: Result<StreamData>,
    back: Result<StreamData>,
)
    requires
        StreamData::reads(s, res),
        StreamData::reads(m.wire(), back),
        m.data@.len() <= u32::MAX,
    ensures
        res is Ok <==> 12 <= s.len() && 12 + value(s, 8, 4) <= s.len(),
        res matches Ok(n) ==> stream_data_stands(s, n),
        stream_data_stands(m.wire(), m),
{
    lemma_stream_data(s, res);
    let out = m.wire();
    assert(out + Seq::<u8>::empty() =~= out);
    stream::stream_data_round_trip(m, Seq::empty(), back);
    lemma_stream_data(out, back);
}

/// A sized stream-data message is laid out so.
pub open spec fn stream_data_sized_stands(s: Seq<u8>, m: StreamDataSized) -> bool {
    &&& m.header.stream_id == value(s, 0, 4)
    &&& m.header.multi_media_time == value(s, 4, 4)
    &&& m.width == value(s, 8, 4)
    &&& m.height == value(s, 12, 4)
    &&& rect_stands(s, 16, m.dest)
    &&& m.data@.len() == value(s, 32, 4)
    &&& 36 + m.data@.len() <= s.len()
    &&& forall|k: int| 0 <= k < m.data@.len() ==> #[trigger] m.data@[k] == s[36 + k]
}

proof fn lemma_stream_data_sized(s: Seq<u8>, res: Result<StreamDataSized>)
    requires
        StreamDataSized::reads(s, res),
    ensures
        res is Ok <==> 36 <= s.len() && 36 + value(s, 32, 4) <= s.len(),
        res matches Ok(n) ==> stream_data_sized_stands(s, n),
{
    reveal_with_fuel(wire::short_from, 3);
    numbers_are_read_in_base_256(s, 0);
    numbers_are_read_in_base_256(s, 4);
    numbers_are_read_in_base_256(s, 8);
    numbers_are_read_in_base_256(s, 12);
    numbers_are_read_in_base_256(s, 32);
    if s.len() >= 16 {
        lemma_rect_at(s, 16);
    }
}

/// A sized stream-data message is read so, and written so.
pub proof fn stream_data_sized_layout(
    m: StreamDataSized,
    s: Seq<u8>,
    res: Result<StreamDataSized>,
    back: Result<StreamDataSized>,
)
    requires
        StreamDataSized::reads(s, res),
        StreamDataSized::reads(m.wire(), back),
        m.data@.len() <= u32::MAX,
    ensures
        res is Ok <==> 36 <= s.len() && 36 + value(s, 32, 4) <= s.len(),
        res matches Ok(n) ==> stream_data_sized_stands(s, n),
        stream_data_sized_stands(m.wire(), m),
{
    lemma_stream_data_sized(s, res);
    let out = m.wire();
    assert(out + Seq::<u8>::empty() =~= out);
    stream::stream_data_sized_round_trip(m, Seq::empty(), back);
    lemma_stream_data_sized(out, back);
}

/// A stream-clip message is a stream and its clip region.
pub proof fn stream_clip_layout(s: Seq<u8>)
    ensures
        StreamClip::parse(s) is Ok <==> 4 < s.len() && (s[4] == 1 ==> 9 <= s.len()),
        StreamClip::parse(s) matches Ok(n) ==> {
            &&& n.stream_id == value(s, 0, 4)
            &&& exists|end: int| clip_stands(s, 4, n.clip, end)
        },
{
    numbers_are_read_in_base_256(s, 0);
    if s.len() >= 4 {
        clip_layout(Clip::NoClip, s, 4);
    }
}

/// A cursor stands at `i`: flags, header, and its pixels up to the end. One
/// that comes from the client's cache, by bit 1 or bit 2 of the flags, has no
/// pixels.
pub open spec fn cursor_stands(s: Seq<u8>, i: int, c: Cursor) -> bool {
    &&& i + 20 <= s.len()
    &&& c.flags == value(s, i, 2)
    &&& c.header.unique == value(s, i + 2, 8)
    &&& c.header.kind == value(s, i + 10, 2)
    &&& c.header.width == value(s, i + 12, 2) <= 512
    &&& c.header.height == value(s, i + 14, 2) <= 512
    &&& c.header.hot_spot_x == value(s, i + 16, 2)
    &&& c.header.hot_spot_y == value(s, i + 18, 2)
    &&& if c.flags % 8 < 2 {
        &&& c.data@.len() == s.len() - (i + 20)
        &&& forall|k: int| 0 <= k < c.data@.len() ==> #[trigger] c.data@[k] == s[i + 20 + k]
    } else {
        c.data@.len() == 0
    }
}

/// A cursor is read so: where its header is whole, neither side is over 512,
/// and there are at most 1 MiB of pixels.
pub proof fn cursor_layout(s: Seq<u8>, i: int, res: Result<Cursor>)
    requires
        0 <= i <= s.len(),
        Cursor::reads_at(s, i, res),
    ensures
        res matches Ok(c) ==> cursor_stands(s, i, c),
        res is Ok <==> {
            &&& i + 20 <= s.len()
            &&& value(s, i + 12, 2) <= 512
            &&& value(s, i + 14, 2) <= 512
            &&& value(s, i, 2) % 8 < 2 ==> s.len() - (i + 20) <= 1048576
        },
{
    numbers_are_read_in_base_256(s, i);
    let flags = wire::u16_at(s, i);
    assert(cursor::from_cache(flags) <==> flags % 8 >= 2);
    if i + 2 <= s.len() {
        records::cursor_header_layout(
            cursor::CursorHeader {
                unique: 0,
                kind: 0,
                width: 0,
                height: 0,
                hot_spot_x: 0,
                hot_spot_y: 0,
            },
            s,
            i + 2,
        );
    }
}

/// A cursor-init message is the pointer's place, its trail, whether it is
/// shown, and the cursor.
pub proof fn cursor_init_layout(s: Seq<u8>, res: Result<CursorInit>)
    requires
        CursorInit::reads(s, res),
    ensures
        res matches Ok(m) ==> {
            &&& m.position_x == signed_value(s, 0, 2)
            &&& m.position_y == signed_value(s, 2, 2)
            &&& m.trail_length == value(s, 4, 2)
            &&& m.trail_frequency == value(s, 6, 2)
            &&& m.visible == s[8]
            &&& cursor_stands(s, 9, m.cursor)
        },
        res is Ok <==> {
            &&& s.len() >= 29
            &&& value(s, 21, 2) <= 512
            &&& value(s, 23, 2) <= 512
            &&& value(s, 9, 2) % 8 < 2 ==> s.len() - 29 <= 1048576
        },
{
    reveal_with_fuel(wire::short_from, 6);
    numbers_are_read_in_base_256(s, 0);
    numbers_are_read_in_base_256(s, 2);
    numbers_are_read_in_base_256(s, 4);
    numbers_are_read_in_base_256(s, 6);
    if s.len() >= 9 {
        let inner: Result<Cursor> = match res {
            Ok(m) => Ok(m.cursor),
            Err(e) => Err(e),
        };
        cursor_layout(s, 9, inner);
    }
}

/// A cursor-set message is the pointer's place, whether it is shown, and the
/// cursor.
pub proof fn cursor_set_layout(s: Seq<u8>, res: Result<CursorSet>)
    requires
        CursorSet::reads(s, res),
    ensures
        res matches Ok(m) ==> {
            &&& m.position_x == signed_value(s, 0, 2)
            &&& m.position_y == signed_value(s, 2, 2)
            &&& m.visible == s[4]
            &&& cursor_stands(s, 5, m.cursor)
        },
        res is Ok <==> {
            &&& s.len() >= 25
            &&& value(s, 17, 2) <= 512
            &&& value(s, 19, 2) <= 512
            &&& value(s, 5, 2) % 8 < 2 ==> s.len() - 25 <= 1048576
        },
{
    reveal_with_fuel(wire::short_from, 4);
    numbers_are_read_in_base_256(s, 0);
    numbers_are_read_in_base_256(s, 2);
    if s.len() >= 5 {
        let inner: Result<Cursor> = match res {
            Ok(m) => Ok(m.cursor),
            Err(e) => Err(e),
        };
        cursor_layout(s, 5, inner);
    }
}

} // verus!
