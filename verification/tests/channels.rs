//! What the client makes of main, inputs and cursor messages.

use capsaicin::client::ack::{is_counted, AckState};
use capsaicin::client::cursor::{cursor_to_event, handle_cursor};
use capsaicin::client::inputs::{encode_event, handle_server_msg};
use capsaicin::client::main_task::handle_main;
use capsaicin::client::{CursorEvent, InputEvent, MouseMode, SurfaceFormat};
use capsaicin::proto::common::{Ping, Pong, SetAck};
use capsaicin::proto::cursor::{
    cursor_flag, cursor_msg, cursor_type, Cursor, CursorHeader,
};
use capsaicin::proto::display::surface_fmt;
use capsaicin::proto::enums::{main_msg, msg, msgc};
use capsaicin::proto::inputs::client_msg;
use capsaicin::proto::types::Writer;

fn ping(id: u32, timestamp: u64) -> Vec<u8> {
    let mut w = Writer::new();
    Ping { id, timestamp, data: vec![0xEE; 5] }.encode(&mut w);
    w.into_vec()
}

fn set_ack(generation: u32, window: u32) -> Vec<u8> {
    let mut w = Writer::new();
    SetAck { generation, window }.encode(&mut w);
    w.into_vec()
}

#[test]
fn one_ack_per_window() {
    let mut ack = AckState::default();
    assert!((0..10).all(|_| !ack.note_message()));
    ack.on_set_ack(3);
    let due: Vec<bool> = (0..7).map(|_| ack.note_message()).collect();
    assert_eq!(due, vec![false, false, true, false, false, true, false]);
    ack.on_set_ack(1);
    assert!(ack.note_message() && ack.note_message());
    ack.on_set_ack(0);
    assert!(!ack.note_message());
}

#[test]
fn control_messages_do_not_count() {
    for t in [msg::SET_ACK, msg::PING, msg::MIGRATE, msg::MIGRATE_DATA] {
        assert!(!is_counted(t));
    }
    assert!(is_counted(msg::NOTIFY));
    assert!(is_counted(main_msg::MOUSE_MODE));
}

#[test]
fn main_channel_reactions() {
    let mut ack = AckState::default();
    let r = handle_main(&mut ack, msg::PING, &ping(7, 99));
    assert_eq!(r.out.len(), 1);
    assert_eq!(r.out[0].msg_type, msgc::PONG);
    assert_eq!(Pong::decode(&r.out[0].body).unwrap(), Pong { id: 7, timestamp: 99 });

    let r = handle_main(&mut ack, msg::SET_ACK, &set_ack(4, 2));
    assert_eq!(r.out[0].msg_type, msgc::ACK_SYNC);
    assert_eq!(r.out[0].body, vec![4, 0, 0, 0]);

    // supported = both, current = CLIENT
    let r = handle_main(&mut ack, main_msg::MOUSE_MODE, &[3, 0, 0, 0, 2, 0, 0, 0]);
    assert_eq!(r.mouse_mode, Some(MouseMode::Client));
    assert!(r.out.is_empty());
    let r = handle_main(&mut ack, main_msg::MOUSE_MODE, &[3, 0, 0, 0, 1, 0, 0, 0]);
    assert_eq!(r.mouse_mode, Some(MouseMode::Server));
    assert_eq!(r.out.len(), 1);
    assert_eq!(r.out[0].msg_type, msgc::ACK);

    // What cannot be read is dropped.
    let before = ack;
    let r = handle_main(&mut ack, main_msg::MOUSE_MODE, &[3]);
    assert!(r.out.is_empty() && r.mouse_mode.is_none());
    let r = handle_main(&mut ack, msg::PING, &[1]);
    assert!(r.out.is_empty());
    assert_eq!(ack, before);
}

#[test]
fn input_events_become_messages() {
    let cases = [
        (InputEvent::KeyDown(0x1e), client_msg::INPUTS_KEY_DOWN, vec![0x1e, 0, 0, 0]),
        (InputEvent::KeyUp(0xe0cd), client_msg::INPUTS_KEY_UP, vec![0xcd, 0xe0, 0, 0]),
        (
            InputEvent::MousePress { button: 1, buttons: 1 },
            client_msg::INPUTS_MOUSE_PRESS,
            vec![1, 1, 0, 0, 0],
        ),
        (
            InputEvent::MouseRelease { button: 3, buttons: 0 },
            client_msg::INPUTS_MOUSE_RELEASE,
            vec![3, 0, 0, 0, 0],
        ),
        (
            InputEvent::MouseMotion { dx: 1, dy: -2, buttons: 4 },
            client_msg::INPUTS_MOUSE_MOTION,
            vec![1, 0, 0, 0, 0xfe, 0xff, 0xff, 0xff, 4, 0, 0, 0],
        ),
        (
            InputEvent::MousePosition { x: 2, y: 3, buttons: 1, display: 9 },
            client_msg::INPUTS_MOUSE_POSITION,
            vec![2, 0, 0, 0, 3, 0, 0, 0, 1, 0, 0, 0, 9],
        ),
    ];
    for (event, msg_type, body) in cases {
        let o = encode_event(event);
        assert_eq!((o.msg_type, o.body), (msg_type, body));
    }
    assert_eq!(
        encode_event(InputEvent::KeyModifiers(5)).msg_type,
        client_msg::INPUTS_KEY_MODIFIERS
    );
}

#[test]
fn the_inputs_channel_answers_control_messages() {
    let o = handle_server_msg(msg::PING, &ping(1, 2)).unwrap().unwrap();
    assert_eq!(o.msg_type, msgc::PONG);
    let o = handle_server_msg(msg::SET_ACK, &set_ack(8, 1)).unwrap().unwrap();
    assert_eq!((o.msg_type, o.body), (msgc::ACK_SYNC, vec![8, 0, 0, 0]));
    assert!(handle_server_msg(101, &[0, 0]).unwrap().is_none());
    assert!(handle_server_msg(msg::PING, &[]).is_err());
}

fn sprite(flags: u16, kind: u16, data: Vec<u8>) -> Cursor {
    Cursor {
        flags,
        header: CursorHeader {
            unique: 77,
            kind,
            width: 2,
            height: 1,
            hot_spot_x: 1,
            hot_spot_y: 0,
        },
        data,
    }
}

#[test]
fn sprites_become_events() {
    let pixels = vec![1, 2, 3, 4, 5, 6, 7, 8, 9, 10];
    let event = cursor_to_event(
        -3,
        4,
        true,
        &sprite(cursor_flag::CACHE_ME, cursor_type::ALPHA, pixels.clone()),
    );
    assert_eq!(
        event,
        Some(CursorEvent::SetSprite {
            x: -3,
            y: 4,
            hot_x: 1,
            hot_y: 0,
            width: 2,
            height: 1,
            pixels: pixels[..8].to_vec(),
            unique: 77,
            cacheable: true,
            visible: true,
        })
    );
    // Short of pixels.
    assert_eq!(cursor_to_event(0, 0, true, &sprite(0, cursor_type::ALPHA, vec![0; 7])), None);
    // Of another kind: without pixels.
    match cursor_to_event(0, 0, false, &sprite(0, cursor_type::MONO, vec![1])) {
        Some(CursorEvent::SetSprite { pixels, cacheable, visible, .. }) => {
            assert!(pixels.is_empty() && !cacheable && !visible);
        }
        other => panic!("expected SetSprite, got {other:?}"),
    }
    assert_eq!(
        cursor_to_event(5, 6, true, &sprite(cursor_flag::FROM_CACHE, cursor_type::ALPHA, vec![])),
        Some(CursorEvent::SetFromCache { x: 5, y: 6, unique: 77, visible: true })
    );
}

#[test]
fn cursor_messages_become_events() {
    let event = |msg_type, body: &[u8]| handle_cursor(msg_type, body).event;
    assert_eq!(
        event(cursor_msg::MOVE, &[0xff, 0xff, 2, 0]),
        Some(CursorEvent::Move { x: -1, y: 2 })
    );
    assert_eq!(event(cursor_msg::HIDE, &[]), Some(CursorEvent::Hide));
    assert_eq!(
        event(cursor_msg::INVAL_ONE, &[1, 0, 0, 0, 0, 0, 0, 0]),
        Some(CursorEvent::InvalidateOne { unique: 1 })
    );
    assert_eq!(event(cursor_msg::INVAL_ALL, &[]), Some(CursorEvent::InvalidateAll));
    assert_eq!(event(cursor_msg::TRAIL, &[1, 0, 1, 0]), None);
    assert_eq!(event(cursor_msg::RESET, &[]), None);
    assert_eq!(event(cursor_msg::MOVE, &[1]), None);

    // SET: position (3, 4), visible, a cached sprite.
    let mut body = vec![3, 0, 4, 0, 1];
    body.extend_from_slice(&cursor_flag::FROM_CACHE.to_le_bytes());
    body.extend_from_slice(&77u64.to_le_bytes());
    body.extend_from_slice(&[0; 10]);
    assert_eq!(
        event(cursor_msg::SET, &body),
        Some(CursorEvent::SetFromCache { x: 3, y: 4, unique: 77, visible: true })
    );

    let r = handle_cursor(msg::PING, &ping(1, 2));
    assert_eq!(r.out.map(|o| o.msg_type), Some(msgc::PONG));
    let r = handle_cursor(msg::SET_ACK, &set_ack(1, 2));
    assert_eq!(r.out.map(|o| o.msg_type), Some(msgc::ACK_SYNC));
}

#[test]
fn numbers_on_the_wire_stand_for_modes_and_formats() {
    assert_eq!(MouseMode::from_raw(2), MouseMode::Client);
    assert_eq!(MouseMode::from_raw(3), MouseMode::Client);
    assert_eq!(MouseMode::from_raw(1), MouseMode::Server);
    let cases = [
        (surface_fmt::_32_xRGB, SurfaceFormat::Xrgb8888, Some(4)),
        (surface_fmt::_32_ARGB, SurfaceFormat::Argb8888, Some(4)),
        (surface_fmt::_16_565, SurfaceFormat::Rgb565, Some(2)),
        (surface_fmt::_16_555, SurfaceFormat::Rgb555, Some(2)),
        (surface_fmt::_8_A, SurfaceFormat::A8, Some(1)),
        (surface_fmt::_1_A, SurfaceFormat::A1, None),
        (12345, SurfaceFormat::Unknown(12345), None),
    ];
    for (raw, format, bytes) in cases {
        assert_eq!(SurfaceFormat::from_raw(raw), format);
        assert_eq!(format.bytes_per_pixel(), bytes);
    }
}
