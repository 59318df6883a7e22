//! Cursor-channel handler: parse cursor sprite / position / visibility updates
//! into [`CursorEvent`]s.

use vstd::prelude::*;
use vstd::slice::{slice_subrange, slice_to_vec};

use crate::client::events::CursorEvent;
use crate::net::channel::Outgoing;
use crate::net::control;
use crate::net::control::{answer_ping, answer_set_ack};
use crate::proto::common::SetAck;
use crate::proto::cursor as cursor_proto;
use crate::proto::cursor::{cursor_msg, cursor_type};
use crate::proto::cursor::{Cursor, CursorInit, CursorInvalOne, CursorMove, CursorSet};
use crate::proto::enums::msg;
use crate::proto::error::ProtoError;

verus! {

/// What a cursor-channel message leads to.
pub struct CursorReaction {
    pub out: Option<Outgoing>,
    pub event: Option<CursorEvent>,
}

/// The event that a sprite at a place leads to. A reference to the cache leads
/// to one that names the sprite. An alpha sprite comes with its pixels, cut to
/// its size; one that is short of pixels leads to none. A sprite of another
/// kind comes without pixels.
pub open spec fn sprite_event(
    x: i16,
    y: i16,
    visible: bool,
    cursor: Cursor,
    event: Option<CursorEvent>,
) -> bool {
    let h = cursor.header;
    let size = 4 * (h.width * h.height);
    if cursor_proto::from_cache(cursor.flags) {
        event == Some(
            CursorEvent::SetFromCache { x: x as i32, y: y as i32, unique: h.unique, visible },
        )
    } else if h.kind == cursor_type::ALPHA && cursor.data@.len() < size {
        event is None
    } else {
        &&& event matches Some(CursorEvent::SetSprite {
            x: ex,
            y: ey,
            hot_x,
            hot_y,
            width,
            height,
            pixels,
            unique,
            cacheable,
            visible: ev,
        })
        &&& ex == x
        &&& ey == y
        &&& hot_x == h.hot_spot_x
        &&& hot_y == h.hot_spot_y
        &&& width == h.width
        &&& height == h.height
        &&& pixels@ == (if h.kind == cursor_type::ALPHA {
            cursor.data@.take(size)
        } else {
            Seq::empty()
        })
        &&& unique == h.unique
        &&& cacheable == (cursor.flags % 2 == 1)
        &&& ev == visible
    }
}

/// Shared Init/Set to event mapping.
pub fn cursor_to_event(x: i16, y: i16, visible: bool, cursor: &Cursor) -> (event: Option<
    CursorEvent,
>)
    ensures
        sprite_event(x, y, visible, *cursor, event),
{
    if cursor.flags / 2 % 2 == 1 || cursor.flags / 4 % 2 == 1 {
        return Some(
            CursorEvent::SetFromCache {
                x: x as i32,
                y: y as i32,
                unique: cursor.header.unique,
                visible,
            },
        );
    }
    let width: u16 = cursor.header.width;
    let height: u16 = cursor.header.height;
    let pixels: Vec<u8> = if cursor.header.kind == cursor_type::ALPHA {
        assert(width * height <= 65535 * 65535) by (nonlinear_arith)
            requires
                width <= 65535,
                height <= 65535,
        ;
        let expected: u64 = width as u64 * height as u64 * 4;
        if (cursor.data.len() as u64) < expected {
            return None;
        }
        let rest = slice_subrange(cursor.data.as_slice(), 0, expected as usize);
        assert(rest@ =~= cursor.data@.take(expected as int));
        slice_to_vec(rest)
    } else {
        Vec::new()
    };
    assert(cursor.header.kind != cursor_type::ALPHA ==> pixels@ =~= Seq::<u8>::empty());
    Some(
        CursorEvent::SetSprite {
            x: x as i32,
            y: y as i32,
            hot_x: cursor.header.hot_spot_x,
            hot_y: cursor.header.hot_spot_y,
            width,
            height,
            pixels,
            unique: cursor.header.unique,
            cacheable: cursor.flags % 2 == 1,
            visible,
        },
    )
}

/// The event that a message leads to. One that cannot be read leads to none.
pub open spec fn raises(msg_type: u16, body: Seq<u8>, event: Option<CursorEvent>) -> bool {
    if msg_type == cursor_msg::INIT {
        ||| exists|m: CursorInit| #[trigger]
            CursorInit::reads(body, Ok(m)) && sprite_event(
                m.position_x,
                m.position_y,
                m.visible != 0,
                m.cursor,
                event,
            )
        ||| exists|e: ProtoError| #[trigger]
            CursorInit::reads(body, Err(e)) && event is None
    } else if msg_type == cursor_msg::SET {
        ||| exists|m: CursorSet| #[trigger]
            CursorSet::reads(body, Ok(m)) && sprite_event(
                m.position_x,
                m.position_y,
                m.visible != 0,
                m.cursor,
                event,
            )
        ||| exists|e: ProtoError| #[trigger]
            CursorSet::reads(body, Err(e)) && event is None
    } else if msg_type == cursor_msg::MOVE {
        event == (match CursorMove::parse(body) {
            Ok(m) => Some(
                CursorEvent::Move { x: m.position_x as i32, y: m.position_y as i32 },
            ),
            Err(_) => None,
        })
    } else if msg_type == cursor_msg::HIDE {
        event == Some(CursorEvent::Hide)
    } else if msg_type == cursor_msg::INVAL_ONE {
        event == (match CursorInvalOne::parse(body) {
            Ok(m) => Some(CursorEvent::InvalidateOne { unique: m.unique }),
            Err(_) => None,
        })
    } else if msg_type == cursor_msg::INVAL_ALL {
        event == Some(CursorEvent::InvalidateAll)
    } else {
        event is None
    }
}

/// What is sent on a message.
pub open spec fn reply(msg_type: u16, body: Seq<u8>) -> Option<(u16, Seq<u8>)> {
    if msg_type == msg::PING {
        match control::pong_for(body) {
            Ok(m) => Some(m),
            Err(_) => None,
        }
    } else if msg_type == msg::SET_ACK {
        match control::ack_sync_for(body) {
            Ok(m) => Some(m),
            Err(_) => None,
        }
    } else {
        None
    }
}

/// Take a cursor-channel message. One that cannot be read is dropped. Trails
/// are a legacy decoration, and a reset can be inferred from what follows it;
/// neither raises an event.
pub fn handle_cursor(msg_type: u16, body: &[u8]) -> (r: CursorReaction)
    ensures
        raises(msg_type, body@, r.event),
        match reply(msg_type, body@) {
            Some(m) => r.out matches Some(o) && o@ == m,
            None => r.out is None,
        },
{
    if msg_type == msg::PING {
        CursorReaction { out: answer_ping(body).ok(), event: None }
    } else if msg_type == msg::SET_ACK {
        match SetAck::decode(body) {
            Ok(ack) => CursorReaction { out: Some(answer_set_ack(&ack)), event: None },
            Err(_) => CursorReaction { out: None, event: None },
        }
    } else {
        CursorReaction { out: None, event: cursor_event(msg_type, body) }
    }
}

fn cursor_event(msg_type: u16, body: &[u8]) -> (event: Option<CursorEvent>)
    requires
        msg_type != msg::PING,
        msg_type != msg::SET_ACK,
    ensures
        raises(msg_type, body@, event),
{
    if msg_type == cursor_msg::INIT {
        match CursorInit::decode(body) {
            Ok(m) => {
                assert(CursorInit::reads(body@, Ok(m)));
                cursor_to_event(m.position_x, m.position_y, m.visible != 0, &m.cursor)
            },
            Err(e) => {
                assert(CursorInit::reads(body@, Err(e)));
                None
            },
        }
    } else if msg_type == cursor_msg::SET {
        match CursorSet::decode(body) {
            Ok(m) => {
                assert(CursorSet::reads(body@, Ok(m)));
                cursor_to_event(m.position_x, m.position_y, m.visible != 0, &m.cursor)
            },
            Err(e) => {
                assert(CursorSet::reads(body@, Err(e)));
                None
            },
        }
    } else if msg_type == cursor_msg::MOVE {
        match CursorMove::decode(body) {
            Ok(m) => Some(CursorEvent::Move { x: m.position_x as i32, y: m.position_y as i32 }),
            Err(_) => None,
        }
    } else if msg_type == cursor_msg::HIDE {
        Some(CursorEvent::Hide)
    } else if msg_type == cursor_msg::INVAL_ONE {
        match CursorInvalOne::decode(body) {
            Ok(m) => Some(CursorEvent::InvalidateOne { unique: m.unique }),
            Err(_) => None,
        }
    } else if msg_type == cursor_msg::INVAL_ALL {
        Some(CursorEvent::InvalidateAll)
    } else {
        None
    }
}

} // verus!
