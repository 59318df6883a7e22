//! What goes between the client and a server, byte by byte: what the messages
//! of a server come to, and what is sent in answer.

use vstd::prelude::*;

use crate::client::ack;
use crate::client::builder::AttachPlan;
use crate::client::cursor;
use crate::client::display;
use crate::client::display::{DisplayView, StreamInfo};
use crate::client::events::{
    CursorEvent, DisplayEvent, InputEvent, MouseMode, RegionPixels, SurfaceFormat,
};
use crate::client::images;
use crate::client::images::Decoded;
use crate::client::inputs;
use crate::client::main_task;
use crate::client::mjpeg::{DecodedFrame, MjpegError};
use crate::proto::common::{AckSync, Pong, SetAck};
use crate::proto::cursor as cursor_proto;
use crate::proto::cursor::{Cursor, CursorInit, CursorSet};
use crate::proto::display::{Mode, MonitorsConfig, SurfaceCreate, SurfaceDestroy};
use crate::proto::draw::{CopyBits, DrawCopy};
use crate::proto::enums::ChannelType;
use crate::proto::error::ProtoError;
use crate::proto::inputs::{KeyCode, KeyModifiers, MouseButton, MouseMotion, MousePosition};
use crate::proto::layout::{drawing, lists, records, signed_value, value};
use crate::proto::main_chan;
use crate::proto::stream::{StreamCreate, StreamDestroy};
use crate::proto::types::Rect;
use crate::proto::wire;

verus! {

/// A surface format by its number.
pub proof fn formats_by_number(v: u32)
    ensures
        SurfaceFormat::of(1) == SurfaceFormat::A1,
        SurfaceFormat::of(8) == SurfaceFormat::A8,
        SurfaceFormat::of(16) == SurfaceFormat::Rgb555,
        SurfaceFormat::of(80) == SurfaceFormat::Rgb565,
        SurfaceFormat::of(32) == SurfaceFormat::Xrgb8888,
        SurfaceFormat::of(96) == SurfaceFormat::Argb8888,
        v != 1 && v != 8 && v != 16 && v != 80 && v != 32 && v != 96 ==> SurfaceFormat::of(v)
            == SurfaceFormat::Unknown(v),
{
}

/// A display message of type 314 announces a surface: its id, width, height,
/// format and flags stand one after the other, four bytes each. A flag of
/// worth one makes it the primary one. Its format is kept under its id.
pub proof fn surface_is_announced(
    before: DisplayView,
    body: Seq<u8>,
    events: Seq<DisplayEvent>,
    after: DisplayView,
)
    requires
        display::raises(before, 314, body, events, after),
    ensures
        body.len() >= 20,
        events == seq![
            DisplayEvent::SurfaceCreated {
                id: value(body, 0, 4) as u32,
                width: value(body, 4, 4) as u32,
                height: value(body, 8, 4) as u32,
                format: SurfaceFormat::of(value(body, 12, 4) as u32),
                primary: value(body, 16, 4) % 2 == 1,
            },
        ],
        after.surfaces == before.surfaces.insert(
            value(body, 0, 4) as u32,
            SurfaceFormat::of(value(body, 12, 4) as u32),
        ),
        after.streams == before.streams,
        after.dictionary == before.dictionary,
{
    records::surface_create_layout(SurfaceCreate::parse(body)->Ok_0, body);
}

/// A display message of type 315 takes a surface away.
pub proof fn surface_is_taken_away(
    before: DisplayView,
    body: Seq<u8>,
    events: Seq<DisplayEvent>,
    after: DisplayView,
)
    requires
        display::raises(before, 315, body, events, after),
    ensures
        body.len() >= 4,
        events == seq![DisplayEvent::SurfaceDestroyed { id: value(body, 0, 4) as u32 }],
        after.surfaces == before.surfaces.remove(value(body, 0, 4) as u32),
        after.streams == before.streams,
        after.dictionary == before.dictionary,
{
    records::surface_destroy_layout(SurfaceDestroy::parse(body)->Ok_0, body);
}

/// Display messages of types 101, 102 and 103 tell the mode, that what was
/// drawn can be shown, and that all surfaces are gone.
pub proof fn mode_mark_and_reset(
    before: DisplayView,
    msg_type: u16,
    body: Seq<u8>,
    events: Seq<DisplayEvent>,
    after: DisplayView,
)
    requires
        101 <= msg_type <= 103,
        display::raises(before, msg_type, body, events, after),
    ensures
        msg_type == 101 ==> events == seq![
            DisplayEvent::Mode {
                width: value(body, 0, 4) as u32,
                height: value(body, 4, 4) as u32,
                bits: value(body, 8, 4) as u32,
            },
        ],
        msg_type == 102 ==> events == seq![DisplayEvent::Mark],
        msg_type == 103 ==> events == seq![DisplayEvent::Reset],
        msg_type == 103 ==> after.surfaces == Map::<u32, SurfaceFormat>::empty(),
        msg_type != 103 ==> after.surfaces == before.surfaces,
        after.streams == before.streams,
        after.dictionary == before.dictionary,
{
    if msg_type == 101 {
        records::mode_layout(Mode::parse(body)->Ok_0, body);
    }
}

/// A display message of type 302 that fills with one colour, puts it as it is
/// and has no mask nor clipping: the region is the rectangle at 4, the colour
/// that at 25, and the surface that at 0.
pub proof fn solid_fill_is_a_region(
    before: DisplayView,
    body: Seq<u8>,
    events: Seq<DisplayEvent>,
    after: DisplayView,
)
    requires
        display::raises(before, 302, body, events, after),
        body.len() >= 44,
        body[20] == 0,
        value(body, 21, 4) == 1,
        value(body, 29, 2) == 8,
        value(body, 40, 4) == 0,
    ensures
        ({
            let id = value(body, 0, 4) as u32;
            &&& events.len() == 1
            &&& events[0] matches DisplayEvent::Region {
                surface_id,
                rect,
                pixels,
                surface_format,
            }
            &&& surface_id == id
            &&& drawing::rect_stands(body, 4, rect)
            &&& pixels == RegionPixels::SolidColor(value(body, 25, 4) as u32)
            &&& surface_format == if before.surfaces.dom().contains(id) {
                before.surfaces[id]
            } else {
                SurfaceFormat::Unknown(0)
            }
        }),
{
    drawing::solid_fill_layout(body);
}

/// A fill that is not put as it is, or has a mask, is told as one that is not
/// handled, with its type and its size.
pub proof fn other_fills_are_not_handled(
    before: DisplayView,
    body: Seq<u8>,
    events: Seq<DisplayEvent>,
    after: DisplayView,
)
    requires
        display::raises(before, 302, body, events, after),
        body.len() >= 44,
        body.len() <= usize::MAX,
        body[20] == 0,
        value(body, 21, 4) == 1,
        value(body, 29, 2) != 8 || value(body, 40, 4) != 0,
    ensures
        events == seq![DisplayEvent::UnhandledDraw { msg_type: 302, size: body.len() as usize }],
{
    drawing::solid_fill_layout(body);
}

/// A display message of type 304 without clipping draws a picture that stands
/// at the place that the number at 21 tells: the region is the rectangle at 4
/// and the pixels are the picture's. Where there is none, it is not handled.
pub proof fn draw_copy_is_a_region(
    before: DisplayView,
    body: Seq<u8>,
    events: Seq<DisplayEvent>,
    after: DisplayView,
)
    requires
        display::raises(before, 304, body, events, after),
        body.len() >= 57,
        body[20] == 0,
    ensures
        events.len() == 1,
        after.surfaces == before.surfaces,
        after.streams == before.streams,
        exists|d: Decoded| #[trigger]
            images::source_image(
                body,
                value(body, 21, 4) as u32,
                before.dictionary.images,
                d,
            ) && match d.region {
                None => events[0] == (DisplayEvent::UnhandledDraw {
                    msg_type: 304,
                    size: body.len() as usize,
                }),
                Some(p) => {
                    &&& events[0] matches DisplayEvent::Region { surface_id, rect, pixels, .. }
                    &&& surface_id == value(body, 0, 4)
                    &&& drawing::rect_stands(body, 4, rect)
                    &&& pixels matches RegionPixels::Raw { data, stride }
                    &&& data@ == p.pixels
                    &&& stride == p.stride
                },
            } && (d.keep is None ==> after.dictionary == before.dictionary),
{
    drawing::draw_copy_layout(DrawCopy::parse(body)->Ok_0, body);
    let copy = DrawCopy::parse(body)->Ok_0;
    let d = choose|d: Decoded| #[trigger]
        images::source_image(body, copy.src_bitmap_offset, before.dictionary.images, d)
            && display::copy_event(before.surfaces, body.len(), copy, d, events[0])
            && after.dictionary == display::kept(before.dictionary, d);
    assert(images::source_image(body, value(body, 21, 4) as u32, before.dictionary.images, d));
}

/// Drawing that is not fill nor copy, and what is told of caches, is told as not
/// handled, with its type and its size.
pub proof fn other_drawing_is_not_handled(
    before: DisplayView,
    msg_type: u16,
    body: Seq<u8>,
    events: Seq<DisplayEvent>,
    after: DisplayView,
)
    requires
        display::raises(before, msg_type, body, events, after),
        105 <= msg_type <= 108 || msg_type == 303 || 305 <= msg_type <= 313,
    ensures
        events == seq![DisplayEvent::UnhandledDraw { msg_type, size: body.len() as usize }],
        after.surfaces == before.surfaces,
        after.streams == before.streams,
        after.dictionary == before.dictionary,
{
}

/// Only a message that is too short fails: a ping of less than twelve bytes, a
/// request for acknowledgements of less than eight, a mode of less than twelve,
/// a surface of less than twenty, one to take away of less than four, and heads
/// that are not all there. Drawing never fails.
pub proof fn only_short_messages_fail(msg_type: u16, body: Seq<u8>, e: ProtoError)
    requires
        display::fails(msg_type, body, e),
    ensures
        msg_type == 4 ==> body.len() < 12,
        msg_type == 3 ==> body.len() < 8,
        msg_type == 101 ==> body.len() < 12,
        msg_type == 314 ==> body.len() < 20,
        msg_type == 315 ==> body.len() < 4,
        msg_type == 317 ==> body.len() < 4 || body.len() < 4 + 28 * value(body, 0, 2),
        msg_type == 4 || msg_type == 3 || msg_type == 101 || msg_type == 314 || msg_type == 315
            || msg_type == 317,
{
    if msg_type == 4 {
        assert(wire::short_in(seq![4, 8], body.len() as int) is None <==> body.len() >= 12) by {
            reveal_with_fuel(wire::short_from, 3);
        }
    } else if msg_type == 3 {
        records::set_ack_layout(SetAck { generation: 0, window: 0 }, body);
    } else if msg_type == 101 {
        records::mode_layout(Mode { x_res: 0, y_res: 0, bits: 0 }, body);
    } else if msg_type == 314 {
        records::surface_create_layout(
            SurfaceCreate { surface_id: 0, width: 0, height: 0, format: 0, flags: 0 },
            body,
        );
    } else if msg_type == 315 {
        records::surface_destroy_layout(SurfaceDestroy { surface_id: 0 }, body);
    } else if msg_type == 317 {
        lists::monitors_config_layout(body, Err(e));
    }
}

/// A display message of type 104 copies within a surface: the head, and the
/// point to copy from behind it.
pub proof fn copy_bits_is_a_copy(
    before: DisplayView,
    body: Seq<u8>,
    events: Seq<DisplayEvent>,
    after: DisplayView,
)
    requires
        display::raises(before, 104, body, events, after),
        body.len() >= 29,
        body[20] == 0,
    ensures
        events.len() == 1,
        events[0] matches DisplayEvent::CopyRect { surface_id, src_x, src_y, dest_rect } && {
            &&& surface_id == value(body, 0, 4)
            &&& src_x == signed_value(body, 21, 4)
            &&& src_y == signed_value(body, 25, 4)
            &&& drawing::rect_stands(body, 4, dest_rect)
        },
        after.surfaces == before.surfaces,
{
    drawing::copy_bits_layout(CopyBits::parse(body)->Ok_0, body);
}

/// A display message of type 125 ends a stream.
pub proof fn stream_is_ended(
    before: DisplayView,
    body: Seq<u8>,
    events: Seq<DisplayEvent>,
    after: DisplayView,
)
    requires
        display::raises(before, 125, body, events, after),
        body.len() >= 4,
    ensures
        events == seq![DisplayEvent::StreamDestroyed { stream_id: value(body, 0, 4) as u32 }],
        after.streams == before.streams.remove(value(body, 0, 4) as u32),
        after.surfaces == before.surfaces,
{
    records::stream_destroy_layout(StreamDestroy::parse(body)->Ok_0, body);
}

/// A display message of type 122 that has all of its bytes starts a stream:
/// what it says of the stream is told, and kept under the stream's id.
pub proof fn stream_is_started(
    before: DisplayView,
    body: Seq<u8>,
    events: Seq<DisplayEvent>,
    after: DisplayView,
)
    requires
        display::raises(before, 122, body, events, after),
        StreamCreate::parse(body) is Ok,
    ensures
        events.len() == 1,
        events[0] matches DisplayEvent::StreamCreated {
            stream_id,
            surface_id,
            codec,
            dest,
            src_width,
            src_height,
        } && {
            &&& StreamCreate::parse(body) matches Ok(m)
            &&& drawing::stream_create_stands(body, m)
            &&& stream_id == m.stream_id
            &&& surface_id == m.surface_id
            &&& codec == m.codec
            &&& dest == m.dest
            &&& src_width == m.src_width
            &&& src_height == m.src_height
            &&& after.streams == before.streams.insert(stream_id, StreamInfo { codec, dest })
        },
        after.surfaces == before.surfaces,
{
    drawing::stream_create_layout(StreamCreate::parse(body)->Ok_0, body);
}

/// Cursor messages: type 104 moves the cursor to a place of two signed numbers,
/// 105 hides it, 107 forgets the one with the id of eight bytes, and 108
/// forgets them all. Others but 101 and 103 say nothing.
pub proof fn cursor_messages_by_type(msg_type: u16, body: Seq<u8>, event: Option<CursorEvent>)
    requires
        cursor::raises(msg_type, body, event),
    ensures
        msg_type == 104 && body.len() >= 4 ==> event == Some(
            CursorEvent::Move {
                x: signed_value(body, 0, 2) as i32,
                y: signed_value(body, 2, 2) as i32,
            },
        ),
        msg_type == 104 && body.len() < 4 ==> event is None,
        msg_type == 105 ==> event == Some(CursorEvent::Hide),
        msg_type == 107 && body.len() >= 8 ==> event == Some(
            CursorEvent::InvalidateOne { unique: value(body, 0, 8) as u64 },
        ),
        msg_type == 108 ==> event == Some(CursorEvent::InvalidateAll),
        msg_type < 101 || msg_type == 102 || msg_type == 106 || msg_type > 108 ==> event is None,
{
    records::cursor_move_layout(body);
    records::cursor_inval_one_layout(body);
}

proof fn lemma_digits(a: int, b: int, c: int, d: int)
    requires
        0 <= a < 256,
        0 <= b < 256,
        0 <= c < 256,
        0 <= d < 256,
    ensures
        ({
            let v = a + 256 * b + 65536 * c + 16777216 * d;
            &&& v % 256 == a
            &&& v / 256 % 256 == b
            &&& v / 65536 % 256 == c
            &&& v / 16777216 == d
            &&& 0 <= v < 0x1_0000_0000
        }),
{
    let v = a + 256 * b + 65536 * c + 16777216 * d;
    assert(v / 256 == b + 256 * c + 65536 * d);
    assert(v / 65536 == c + 256 * d);
}

proof fn lemma_le32(s: Seq<u8>, i: int)
    requires
        0 <= i,
        i + 4 <= s.len(),
    ensures
        wire::le32(wire::u32_at(s, i)) == s.subrange(i, i + 4),
{
    lemma_digits(s[i] as int, s[i + 1] as int, s[i + 2] as int, s[i + 3] as int);
    assert(wire::le32(wire::u32_at(s, i)) =~= s.subrange(i, i + 4));
}

proof fn lemma_le64(s: Seq<u8>, i: int)
    requires
        0 <= i,
        i + 8 <= s.len(),
    ensures
        wire::le64(wire::u64_at(s, i)) == s.subrange(i, i + 8),
{
    lemma_le32(s, i);
    lemma_le32(s, i + 4);
    let low = wire::u32_at(s, i);
    let high = wire::u32_at(s, i + 4);
    assert(wire::u64_at(s, i) % 4294967296 == low);
    assert(wire::u64_at(s, i) / 4294967296 == high);
    assert(s.subrange(i, i + 4) + s.subrange(i + 4, i + 8) =~= s.subrange(i, i + 8));
}

/// A ping, of type 4 on every channel, is answered by a message of type 3 that
/// has the first twelve bytes of the ping: its id and its time. What else the
/// ping holds does not come back.
pub proof fn pings_come_back(ack: ack::AckState, body: Seq<u8>)
    requires
        body.len() >= 12,
    ensures
        display::replies(ack, 4, body) == seq![(3u16, body.take(12))],
        main_task::replies(ack, 4, body) == seq![(3u16, body.take(12))],
        cursor::reply(4, body) == Some((3u16, body.take(12))),
        inputs::server_reply(4, body) == Ok::<Option<(u16, Seq<u8>)>, ProtoError>(
            Some((3u16, body.take(12))),
        ),
{
    let short = wire::short_in(seq![4, 8], body.len() as int);
    assert(short is None) by {
        reveal_with_fuel(wire::short_from, 3);
    }
    let pong = Pong { id: wire::u32_at(body, 0), timestamp: wire::u64_at(body, 4) };
    assert(pong.wire() =~= body.take(12)) by {
        wire::lemma_lengths();
        lemma_le32(body, 0);
        lemma_le64(body, 4);
    }
}

/// A request for acknowledgements, of type 3 on every channel, is answered by a
/// message of type 1 that has its first four bytes, the generation.
pub proof fn ack_requests_are_confirmed(ack: ack::AckState, body: Seq<u8>)
    requires
        body.len() >= 8,
    ensures
        display::replies(ack, 3, body) == seq![(1u16, body.take(4))],
        main_task::replies(ack, 3, body) == seq![(1u16, body.take(4))],
        cursor::reply(3, body) == Some((1u16, body.take(4))),
        inputs::server_reply(3, body) == Ok::<Option<(u16, Seq<u8>)>, ProtoError>(
            Some((1u16, body.take(4))),
        ),
        display::ack_after(ack, 3, body).window == value(body, 4, 4),
        display::ack_after(ack, 3, body).remaining == value(body, 4, 4),
        main_task::ack_after(ack, 3, body).window == value(body, 4, 4),
        main_task::ack_after(ack, 3, body).remaining == value(body, 4, 4),
{
    records::set_ack_layout(SetAck::parse(body)->Ok_0, body);
    let sync = AckSync { generation: SetAck::parse(body)->Ok_0.generation };
    assert(sync.wire() =~= body.take(4)) by {
        wire::lemma_lengths();
        lemma_le32(body, 0);
    }
}

/// Of the messages of a window each counts but requests for acknowledgements,
/// pings and what belongs to a migration: types 3, 4, 1 and 2. The last of a
/// window is answered by an empty message of type 2, and a new window starts.
pub proof fn windows_are_acknowledged(ack: ack::AckState, msg_type: u16, body: Seq<u8>)
    requires
        ack.window > 0,
        0 < ack.remaining <= ack.window,
        msg_type == 0 || 4 < msg_type,
        !main_task::dropped(msg_type, body),
    ensures
        ack.remaining == 1 ==> {
            &&& display::replies(ack, msg_type, body) == seq![(2u16, Seq::<u8>::empty())]
            &&& main_task::replies(ack, msg_type, body) == seq![(2u16, Seq::<u8>::empty())]
            &&& display::ack_after(ack, msg_type, body).remaining == ack.window
            &&& main_task::ack_after(ack, msg_type, body).remaining == ack.window
        },
        ack.remaining > 1 ==> {
            &&& display::replies(ack, msg_type, body).len() == 0
            &&& main_task::replies(ack, msg_type, body).len() == 0
            &&& display::ack_after(ack, msg_type, body).remaining == ack.remaining - 1
            &&& main_task::ack_after(ack, msg_type, body).remaining == ack.remaining - 1
        },
        display::ack_after(ack, msg_type, body).window == ack.window,
        ack::counts(msg_type),
        !ack::counts(1),
        !ack::counts(2),
        !ack::counts(3),
        !ack::counts(4),
{
}

/// A main message of type 105 tells the mouse mode by its second number, at
/// 4: the client's where the bit of worth two is set, else the server's.
pub proof fn mouse_mode_is_told(msg_type: u16, body: Seq<u8>)
    requires
        body.len() >= 8,
    ensures
        main_task::reported_mode(105, body) == Some(
            if value(body, 4, 4) / 2 % 2 == 1 {
                MouseMode::Client
            } else {
                MouseMode::Server
            },
        ),
        msg_type != 105 ==> main_task::reported_mode(msg_type, body) is None,
{
    records::mouse_mode_layout(main_chan::MouseMode::parse(body)->Ok_0, body);
}

/// Key events go out as messages of type 101 for a key that goes down, 102 for
/// one that comes up and 103 for the lock keys: the code, lowest byte first.
pub proof fn keys_are_sent_so(code: u32, locks: u32)
    ensures
        inputs::event_message(InputEvent::KeyDown(code)).0 == 101,
        inputs::event_message(InputEvent::KeyUp(code)).0 == 102,
        inputs::event_message(InputEvent::KeyDown(code)).1.len() == 4,
        inputs::event_message(InputEvent::KeyUp(code)).1.len() == 4,
        value(inputs::event_message(InputEvent::KeyDown(code)).1, 0, 4) == code,
        value(inputs::event_message(InputEvent::KeyUp(code)).1, 0, 4) == code,
        inputs::event_message(InputEvent::KeyModifiers(locks)).0 == 103,
        inputs::event_message(InputEvent::KeyModifiers(locks)).1.len() == 4,
        value(inputs::event_message(InputEvent::KeyModifiers(locks)).1, 0, 4) == locks,
{
    let m = KeyCode { code };
    records::key_code_layout(m, m.wire());
    let m = KeyModifiers { keyboard_modifiers: locks };
    records::inputs_init_layout(m, m.wire());
}

/// Mouse events go out as messages of types 111 to 114: a motion has two signed
/// numbers and the buttons, a position two numbers, the buttons and the
/// display, and a press or a release the button and the buttons.
pub proof fn mouse_events_are_sent_so(
    dx: i32,
    dy: i32,
    x: u32,
    y: u32,
    button: u8,
    buttons: u32,
    display: u8,
)
    ensures
        ({
            let (kind, bytes) = inputs::event_message(
                InputEvent::MouseMotion { dx, dy, buttons },
            );
            &&& kind == 111
            &&& signed_value(bytes, 0, 4) == dx
            &&& signed_value(bytes, 4, 4) == dy
            &&& value(bytes, 8, 4) == buttons
            &&& bytes.len() == 12
        }),
        ({
            let (kind, bytes) = inputs::event_message(
                InputEvent::MousePosition { x, y, buttons, display },
            );
            &&& kind == 112
            &&& value(bytes, 0, 4) == x
            &&& value(bytes, 4, 4) == y
            &&& value(bytes, 8, 4) == buttons
            &&& bytes[12] == display
            &&& bytes.len() == 13
        }),
        inputs::event_message(InputEvent::MousePress { button, buttons }).0 == 113,
        inputs::event_message(InputEvent::MouseRelease { button, buttons }).0 == 114,
        inputs::event_message(InputEvent::MousePress { button, buttons }).1[0] == button,
        inputs::event_message(InputEvent::MouseRelease { button, buttons }).1[0] == button,
        value(inputs::event_message(InputEvent::MousePress { button, buttons }).1, 1, 4) == buttons,
        inputs::event_message(InputEvent::MousePress { button, buttons }).1.len() == 5,
        inputs::event_message(InputEvent::MousePress { button, buttons }).1
            == inputs::event_message(InputEvent::MouseRelease { button, buttons }).1,
{
    let m = MouseMotion { dx, dy, buttons_state: buttons };
    records::mouse_motion_layout(m, m.wire());
    let m = MousePosition { x, y, buttons_state: buttons, display_id: display };
    records::mouse_position_layout(m, m.wire());
    let m = MouseButton { button, buttons_state: buttons };
    records::mouse_button_layout(m, m.wire());
}

/// Channels are attached in the order of their numbers, each that is planned
/// once, and no other.
pub proof fn channels_attach_in_order(plan: AttachPlan, i: int, j: int)
    ensures
        0 <= i < j < plan.order().len() ==> plan.order()[i].code() < plan.order()[j].code(),
        plan.order().contains(ChannelType::Display) <==> plan.display,
        plan.order().contains(ChannelType::Inputs) <==> plan.inputs,
        plan.order().contains(ChannelType::Cursor) <==> plan.cursor,
        0 <= i < plan.order().len() ==> 2 <= plan.order()[i].code() <= 4,
{
    let o = plan.order();
    let d = if plan.display {
        1int
    } else {
        0
    };
    let n = if plan.inputs {
        1int
    } else {
        0
    };
    if plan.display {
        assert(o[0] == ChannelType::Display);
    }
    if plan.inputs {
        assert(o[d] == ChannelType::Inputs);
    }
    if plan.cursor {
        assert(o[d + n] == ChannelType::Cursor);
    }
}

/// The client opens the display channel by a message of type 101: the same id
/// for its pixmap cache and its dictionary, a cache of 128 Mi pixels and a
/// dictionary of 16 Mi.
pub proof fn display_is_opened_so(salt: u8)
    ensures
        ({
            let bytes = display::init_for(salt).wire();
            &&& bytes.len() == 14
            &&& bytes[0] == salt
            &&& signed_value(bytes, 1, 8) == 128 * 1024 * 1024
            &&& bytes[9] == salt
            &&& signed_value(bytes, 10, 4) == 16 * 1024 * 1024
        }),
{
    let m = display::init_for(salt);
    records::display_init_layout(m, m.wire());
}

/// A cursor that is set: what is told of one whose bytes start at `i`, put at a
/// place and shown or not. One in the cache goes by its id. One of kind 0 has
/// four bytes for each pixel, in rows; where these are not all there nothing is
/// told. One of another kind has no pixels. A flag of worth one asks to keep it.
pub open spec fn sprite_told(
    s: Seq<u8>,
    i: int,
    px: int,
    py: int,
    shown: bool,
    event: Option<CursorEvent>,
) -> bool {
    let flags = value(s, i, 2);
    let id = value(s, i + 2, 8);
    let kind = value(s, i + 10, 2);
    let size = 4 * (value(s, i + 12, 2) * value(s, i + 14, 2));
    if flags % 8 >= 2 {
        event == Some(
            CursorEvent::SetFromCache {
                x: px as i32,
                y: py as i32,
                unique: id as u64,
                visible: shown,
            },
        )
    } else if kind == 0 && s.len() < i + 20 + size {
        event is None
    } else {
        &&& event matches Some(CursorEvent::SetSprite {
            x,
            y,
            hot_x,
            hot_y,
            width,
            height,
            pixels,
            unique,
            cacheable,
            visible,
        })
        &&& x == px
        &&& y == py
        &&& unique == id
        &&& width == value(s, i + 12, 2)
        &&& height == value(s, i + 14, 2)
        &&& hot_x == value(s, i + 16, 2)
        &&& hot_y == value(s, i + 18, 2)
        &&& visible == shown
        &&& cacheable == (flags % 2 == 1)
        &&& kind == 0 ==> pixels@.len() == size && forall|k: int|
            0 <= k < size ==> #[trigger] pixels@[k] == s[i + 20 + k]
        &&& kind != 0 ==> pixels@.len() == 0
    }
}

proof fn lemma_sprite(
    s: Seq<u8>,
    i: int,
    x: i16,
    y: i16,
    visible: bool,
    c: Cursor,
    event: Option<CursorEvent>,
)
    requires
        drawing::cursor_stands(s, i, c),
        cursor::sprite_event(x, y, visible, c, event),
    ensures
        sprite_told(s, i, x as int, y as int, visible, event),
{
    let size = 4 * (c.header.width * c.header.height);
    assert(size >= 0) by (nonlinear_arith)
        requires
            size == 4 * (c.header.width * c.header.height),
    ;
    assert(c.flags % 8 >= 2 <==> cursor_proto::from_cache(c.flags));
    if c.flags % 8 < 2 && c.header.kind == 0 && c.data@.len() >= size {
        let pixels = c.data@.take(size);
        assert forall|k: int| 0 <= k < size implies #[trigger] pixels[k] == s[i + 20 + k] by {
            assert(c.data@[k] == s[i + 20 + k]);
        }
    }
}

/// A cursor message of type 101 sets the first cursor: its place, its trail and
/// whether it is shown stand before it, in nine bytes.
pub proof fn first_cursor_is_set_so(body: Seq<u8>, event: Option<CursorEvent>)
    requires
        cursor::raises(101, body, event),
        body.len() >= 29,
        value(body, 21, 2) <= 512,
        value(body, 23, 2) <= 512,
        body.len() <= 29 + 1048576,
    ensures
        sprite_told(
            body,
            9,
            signed_value(body, 0, 2),
            signed_value(body, 2, 2),
            body[8] != 0,
            event,
        ),
{
    if exists|m: CursorInit| #[trigger]
        CursorInit::reads(body, Ok(m)) && cursor::sprite_event(
            m.position_x,
            m.position_y,
            m.visible != 0,
            m.cursor,
            event,
        ) {
        let m = choose|m: CursorInit| #[trigger]
            CursorInit::reads(body, Ok(m)) && cursor::sprite_event(
                m.position_x,
                m.position_y,
                m.visible != 0,
                m.cursor,
                event,
            );
        drawing::cursor_init_layout(body, Ok(m));
        lemma_sprite(body, 9, m.position_x, m.position_y, m.visible != 0, m.cursor, event);
    } else {
        let e = choose|e: ProtoError| #[trigger] CursorInit::reads(body, Err(e));
        drawing::cursor_init_layout(body, Err(e));
    }
}

/// A cursor message of type 103 sets another: its place and whether it is shown
/// stand before it, in five bytes.
pub proof fn cursor_is_set_so(body: Seq<u8>, event: Option<CursorEvent>)
    requires
        cursor::raises(103, body, event),
        body.len() >= 25,
        value(body, 17, 2) <= 512,
        value(body, 19, 2) <= 512,
        body.len() <= 25 + 1048576,
    ensures
        sprite_told(
            body,
            5,
            signed_value(body, 0, 2),
            signed_value(body, 2, 2),
            body[4] != 0,
            event,
        ),
{
    if exists|m: CursorSet| #[trigger]
        CursorSet::reads(body, Ok(m)) && cursor::sprite_event(
            m.position_x,
            m.position_y,
            m.visible != 0,
            m.cursor,
            event,
        ) {
        let m = choose|m: CursorSet| #[trigger]
            CursorSet::reads(body, Ok(m)) && cursor::sprite_event(
                m.position_x,
                m.position_y,
                m.visible != 0,
                m.cursor,
                event,
            );
        drawing::cursor_set_layout(body, Ok(m));
        lemma_sprite(body, 5, m.position_x, m.position_y, m.visible != 0, m.cursor, event);
    } else {
        let e = choose|e: ProtoError| #[trigger] CursorSet::reads(body, Err(e));
        drawing::cursor_set_layout(body, Err(e));
    }
}

/// A display message of type 317 tells of the monitors: how many there may be,
/// and each head in the order in which it stands.
pub proof fn monitors_are_told_so(
    before: DisplayView,
    body: Seq<u8>,
    events: Seq<DisplayEvent>,
    after: DisplayView,
)
    requires
        display::raises(before, 317, body, events, after),
    ensures
        events.len() == 1,
        events[0] matches DisplayEvent::MonitorsConfig { max_allowed, heads } && {
            &&& max_allowed == value(body, 2, 2)
            &&& heads@.len() == value(body, 0, 2)
            &&& forall|k: int|
                0 <= k < heads@.len() ==> lists::head_stands(body, 4 + 28 * k, #[trigger] heads@[k])
        },
        after.surfaces == before.surfaces,
{
    let m = choose|m: MonitorsConfig| #[trigger]
        MonitorsConfig::reads(body, Ok(m)) && events == seq![
            DisplayEvent::MonitorsConfig { max_allowed: m.max_allowed, heads: m.heads },
        ];
    lists::monitors_config_layout(body, Ok(m));
}

/// A frame of a stream is shown where the stream goes, or where the message
/// says, with four bytes for each pixel of a row. One that cannot be read is
/// left out.
pub proof fn frames_are_told_so(
    stream_id: u32,
    time: u32,
    dest: Rect,
    frame: Result<DecodedFrame, MjpegError>,
    event: Option<DisplayEvent>,
)
    requires
        display::frame_event(stream_id, time, dest, frame, event),
    ensures
        frame is Err <==> event is None,
        frame matches Ok(f) ==> {
            &&& event matches Some(DisplayEvent::StreamFrame {
                stream_id: of,
                multi_media_time,
                dest_rect,
                pixels,
            })
            &&& of == stream_id
            &&& multi_media_time == time
            &&& dest_rect == dest
            &&& pixels matches RegionPixels::Raw { data, stride }
            &&& data == f.bgra
            &&& stride == 4 * f.width
        },
{
}

/// Frames of a stream that was not started, or not as motion JPEG, show
/// nothing.
pub proof fn unknown_streams_show_nothing(
    streams: Map<u32, StreamInfo>,
    stream_id: u32,
    time: u32,
    sized: Option<Rect>,
    payload: Seq<u8>,
    events: Seq<DisplayEvent>,
)
    requires
        display::stream_events(streams, stream_id, time, sized, payload, events),
    ensures
        !streams.dom().contains(stream_id) ==> events.len() == 0,
        streams.dom().contains(stream_id) && streams[stream_id].codec.code() != 1 ==> events.len()
            == 0,
        events.len() <= 1,
        events.len() == 1 ==> {
            &&& events[0] matches DisplayEvent::StreamFrame { stream_id: of, dest_rect, .. }
            &&& of == stream_id
            &&& dest_rect == match sized {
                Some(rect) => rect,
                None => streams[stream_id].dest,
            }
        },
{
}

} // verus!
