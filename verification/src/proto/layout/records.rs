//! Records of a fixed size, field by field.
//!
//! Each law says the same of one record: it is there where all of its bytes
//! are, each field is the number spelled at its place, and it is written in
//! exactly these bytes.

use vstd::prelude::*;

use crate::proto::layout::{
    lemma_i16, lemma_i32, lemma_i64, lemma_u16, lemma_u32, lemma_u64, signed_value, value,
};
use crate::proto::common;
use crate::proto::common::{AckSync, Disconnecting, Pong, SetAck};
use crate::proto::cursor;
use crate::proto::cursor::{CursorHeader, CursorInvalOne, CursorMove};
use crate::proto::display;
use crate::proto::display::{DisplayInit, Head, Mode, SurfaceCreate, SurfaceDestroy};
use crate::proto::draw;
use crate::proto::draw::QMask;
use crate::proto::header;
use crate::proto::header::{DataHeader, MiniDataHeader};
use crate::proto::image;
use crate::proto::image::{Bitmap, ImageDescriptor};
use crate::proto::inputs;
use crate::proto::inputs::{InputsInit, KeyCode, MouseButton, MouseMotion, MousePosition};
use crate::proto::main_chan;
use crate::proto::main_chan::{ClientInfo, Init, MouseMode, MouseModeRequest, MultiMediaTime};
use crate::proto::stream;
use crate::proto::stream::{StreamDataHeader, StreamDestroy};
use crate::proto::types;
use crate::proto::types::Rect;
use crate::proto::wire;

verus! {

/// A set-ack message takes 8 bytes:
/// `generation` at 0, `window` at 4.
#[verifier::spinoff_prover]
pub proof fn set_ack_layout(m: SetAck, s: Seq<u8>)
    ensures
        SetAck::parse(s) is Ok <==> s.len() >= 8,
        SetAck::parse(s) matches Ok(n) ==> {
            &&& n.generation == value(s, 0, 4)
            &&& n.window == value(s, 4, 4)
        },
        m.wire().len() == 8,
        value(m.wire(), 0, 4) == m.generation,
        value(m.wire(), 4, 4) == m.window,
{
    assert(wire::short_in(seq![4, 4], s.len() as int) is None <==> s.len() >= 8) by {
        reveal_with_fuel(wire::short_from, 3);
    }
    lemma_u32(s, 0);
    lemma_u32(s, 4);
    wire::lemma_lengths();
    let out = m.wire();
    common::set_ack_round_trip(m, Seq::empty());
    assert(out + Seq::<u8>::empty() =~= out);
    lemma_u32(out, 0);
    lemma_u32(out, 4);
}

/// An ack-sync message takes 4 bytes:
/// `generation` at 0.
#[verifier::spinoff_prover]
pub proof fn ack_sync_layout(m: AckSync, s: Seq<u8>)
    ensures
        AckSync::parse(s) is Ok <==> s.len() >= 4,
        AckSync::parse(s) matches Ok(n) ==> {
            &&& n.generation == value(s, 0, 4)
        },
        m.wire().len() == 4,
        value(m.wire(), 0, 4) == m.generation,
{
    assert(wire::short_in(seq![4], s.len() as int) is None <==> s.len() >= 4) by {
        reveal_with_fuel(wire::short_from, 2);
    }
    lemma_u32(s, 0);
    wire::lemma_lengths();
    let out = m.wire();
    common::ack_sync_round_trip(m, Seq::empty());
    assert(out + Seq::<u8>::empty() =~= out);
    lemma_u32(out, 0);
}

/// A pong takes 12 bytes:
/// `id` at 0, `timestamp` at 4.
#[verifier::spinoff_prover]
pub proof fn pong_layout(m: Pong, s: Seq<u8>)
    ensures
        Pong::parse(s) is Ok <==> s.len() >= 12,
        Pong::parse(s) matches Ok(n) ==> {
            &&& n.id == value(s, 0, 4)
            &&& n.timestamp == value(s, 4, 8)
        },
        m.wire().len() == 12,
        value(m.wire(), 0, 4) == m.id,
        value(m.wire(), 4, 8) == m.timestamp,
{
    assert(wire::short_in(seq![4, 8], s.len() as int) is None <==> s.len() >= 12) by {
        reveal_with_fuel(wire::short_from, 3);
    }
    lemma_u32(s, 0);
    lemma_u64(s, 4);
    wire::lemma_lengths();
    let out = m.wire();
    common::pong_round_trip(m, Seq::empty());
    assert(out + Seq::<u8>::empty() =~= out);
    lemma_u32(out, 0);
    lemma_u64(out, 4);
}

/// A disconnecting message takes 12 bytes:
/// `time_stamp` at 0, `reason` at 8.
#[verifier::spinoff_prover]
pub proof fn disconnecting_layout(m: Disconnecting, s: Seq<u8>)
    ensures
        Disconnecting::parse(s) is Ok <==> s.len() >= 12,
        Disconnecting::parse(s) matches Ok(n) ==> {
            &&& n.time_stamp == value(s, 0, 8)
            &&& n.reason == value(s, 8, 4)
        },
        m.wire().len() == 12,
        value(m.wire(), 0, 8) == m.time_stamp,
        value(m.wire(), 8, 4) == m.reason,
{
    assert(wire::short_in(seq![8, 4], s.len() as int) is None <==> s.len() >= 12) by {
        reveal_with_fuel(wire::short_from, 3);
    }
    lemma_u64(s, 0);
    lemma_u32(s, 8);
    wire::lemma_lengths();
    let out = m.wire();
    common::disconnecting_round_trip(m, Seq::empty());
    assert(out + Seq::<u8>::empty() =~= out);
    lemma_u64(out, 0);
    lemma_u32(out, 8);
}

/// A full data header takes 18 bytes:
/// `serial` at 0, `msg_type` at 8, `size` at 10, `sub_list` at 14.
#[verifier::spinoff_prover]
pub proof fn data_header_layout(m: DataHeader, s: Seq<u8>)
    ensures
        DataHeader::parse(s) is Ok <==> s.len() >= 18,
        DataHeader::parse(s) matches Ok(n) ==> {
            &&& n.serial == value(s, 0, 8)
            &&& n.msg_type == value(s, 8, 2)
            &&& n.size == value(s, 10, 4)
            &&& n.sub_list == value(s, 14, 4)
        },
        m.wire().len() == 18,
        value(m.wire(), 0, 8) == m.serial,
        value(m.wire(), 8, 2) == m.msg_type,
        value(m.wire(), 10, 4) == m.size,
        value(m.wire(), 14, 4) == m.sub_list,
{
    lemma_u64(s, 0);
    lemma_u16(s, 8);
    lemma_u32(s, 10);
    lemma_u32(s, 14);
    wire::lemma_lengths();
    let out = m.wire();
    header::data_header_round_trip(m, Seq::empty());
    assert(out + Seq::<u8>::empty() =~= out);
    lemma_u64(out, 0);
    lemma_u16(out, 8);
    lemma_u32(out, 10);
    lemma_u32(out, 14);
}

/// A mini header takes 6 bytes:
/// `msg_type` at 0, `size` at 2.
#[verifier::spinoff_prover]
pub proof fn mini_header_layout(m: MiniDataHeader, s: Seq<u8>)
    ensures
        MiniDataHeader::parse(s) is Ok <==> s.len() >= 6,
        MiniDataHeader::parse(s) matches Ok(n) ==> {
            &&& n.msg_type == value(s, 0, 2)
            &&& n.size == value(s, 2, 4)
        },
        m.wire().len() == 6,
        value(m.wire(), 0, 2) == m.msg_type,
        value(m.wire(), 2, 4) == m.size,
{
    lemma_u16(s, 0);
    lemma_u32(s, 2);
    wire::lemma_lengths();
    let out = m.wire();
    header::mini_header_round_trip(m, Seq::empty());
    assert(out + Seq::<u8>::empty() =~= out);
    lemma_u16(out, 0);
    lemma_u32(out, 2);
}

/// An inputs-init message takes 4 bytes:
/// `keyboard_modifiers` at 0.
#[verifier::spinoff_prover]
pub proof fn inputs_init_layout(m: InputsInit, s: Seq<u8>)
    ensures
        InputsInit::parse(s) is Ok <==> s.len() >= 4,
        InputsInit::parse(s) matches Ok(n) ==> {
            &&& n.keyboard_modifiers == value(s, 0, 4)
        },
        m.wire().len() == 4,
        value(m.wire(), 0, 4) == m.keyboard_modifiers,
{
    assert(wire::short_in(seq![4], s.len() as int) is None <==> s.len() >= 4) by {
        reveal_with_fuel(wire::short_from, 2);
    }
    lemma_u32(s, 0);
    wire::lemma_lengths();
    let out = m.wire();
    inputs::inputs_init_round_trip(m, Seq::empty());
    assert(out + Seq::<u8>::empty() =~= out);
    lemma_u32(out, 0);
}

/// A key message takes 4 bytes:
/// `code` at 0.
#[verifier::spinoff_prover]
pub proof fn key_code_layout(m: KeyCode, s: Seq<u8>)
    ensures
        KeyCode::parse(s) is Ok <==> s.len() >= 4,
        KeyCode::parse(s) matches Ok(n) ==> {
            &&& n.code == value(s, 0, 4)
        },
        m.wire().len() == 4,
        value(m.wire(), 0, 4) == m.code,
{
    assert(wire::short_in(seq![4], s.len() as int) is None <==> s.len() >= 4) by {
        reveal_with_fuel(wire::short_from, 2);
    }
    lemma_u32(s, 0);
    wire::lemma_lengths();
    let out = m.wire();
    inputs::key_code_round_trip(m, Seq::empty());
    assert(out + Seq::<u8>::empty() =~= out);
    lemma_u32(out, 0);
}

/// A mouse-motion message takes 12 bytes:
/// `dx` at 0, `dy` at 4, `buttons_state` at 8.
#[verifier::spinoff_prover]
pub proof fn mouse_motion_layout(m: MouseMotion, s: Seq<u8>)
    ensures
        MouseMotion::parse(s) is Ok <==> s.len() >= 12,
        MouseMotion::parse(s) matches Ok(n) ==> {
            &&& n.dx == signed_value(s, 0, 4)
            &&& n.dy == signed_value(s, 4, 4)
            &&& n.buttons_state == value(s, 8, 4)
        },
        m.wire().len() == 12,
        signed_value(m.wire(), 0, 4) == m.dx,
        signed_value(m.wire(), 4, 4) == m.dy,
        value(m.wire(), 8, 4) == m.buttons_state,
{
    assert(wire::short_in(seq![4, 4, 4], s.len() as int) is None <==> s.len() >= 12) by {
        reveal_with_fuel(wire::short_from, 4);
    }
    lemma_i32(s, 0);
    lemma_i32(s, 4);
    lemma_u32(s, 8);
    wire::lemma_lengths();
    let out = m.wire();
    inputs::mouse_motion_round_trip(m, Seq::empty());
    assert(out + Seq::<u8>::empty() =~= out);
    lemma_i32(out, 0);
    lemma_i32(out, 4);
    lemma_u32(out, 8);
}

/// A mouse-position message takes 13 bytes:
/// `x` at 0, `y` at 4, `buttons_state` at 8, `display_id` at 12.
#[verifier::spinoff_prover]
pub proof fn mouse_position_layout(m: MousePosition, s: Seq<u8>)
    ensures
        MousePosition::parse(s) is Ok <==> s.len() >= 13,
        MousePosition::parse(s) matches Ok(n) ==> {
            &&& n.x == value(s, 0, 4)
            &&& n.y == value(s, 4, 4)
            &&& n.buttons_state == value(s, 8, 4)
            &&& n.display_id == s[12]
        },
        m.wire().len() == 13,
        value(m.wire(), 0, 4) == m.x,
        value(m.wire(), 4, 4) == m.y,
        value(m.wire(), 8, 4) == m.buttons_state,
        m.wire()[12] == m.display_id,
{
    assert(wire::short_in(seq![4, 4, 4, 1], s.len() as int) is None <==> s.len() >= 13) by {
        reveal_with_fuel(wire::short_from, 5);
    }
    lemma_u32(s, 0);
    lemma_u32(s, 4);
    lemma_u32(s, 8);
    wire::lemma_lengths();
    let out = m.wire();
    inputs::mouse_position_round_trip(m, Seq::empty());
    assert(out + Seq::<u8>::empty() =~= out);
    lemma_u32(out, 0);
    lemma_u32(out, 4);
    lemma_u32(out, 8);
}

/// A mouse-button message takes 5 bytes:
/// `button` at 0, `buttons_state` at 1.
#[verifier::spinoff_prover]
pub proof fn mouse_button_layout(m: MouseButton, s: Seq<u8>)
    ensures
        MouseButton::parse(s) is Ok <==> s.len() >= 5,
        MouseButton::parse(s) matches Ok(n) ==> {
            &&& n.button == s[0]
            &&& n.buttons_state == value(s, 1, 4)
        },
        m.wire().len() == 5,
        m.wire()[0] == m.button,
        value(m.wire(), 1, 4) == m.buttons_state,
{
    assert(wire::short_in(seq![1, 4], s.len() as int) is None <==> s.len() >= 5) by {
        reveal_with_fuel(wire::short_from, 3);
    }
    lemma_u32(s, 1);
    wire::lemma_lengths();
    let out = m.wire();
    inputs::mouse_button_round_trip(m, Seq::empty());
    assert(out + Seq::<u8>::empty() =~= out);
    lemma_u32(out, 1);
}

/// A main-channel init message takes 32 bytes:
/// `session_id` at 0, `display_channels_hint` at 4, `supported_mouse_modes`
/// at 8, `current_mouse_mode` at 12, `agent_connected` at 16, `agent_tokens`
/// at 20, `multi_media_time` at 24, `ram_hint` at 28.
#[verifier::rlimit(60)]
#[verifier::spinoff_prover]
pub proof fn init_layout(m: Init, s: Seq<u8>)
    ensures
        Init::parse(s) is Ok <==> s.len() >= 32,
        Init::parse(s) matches Ok(n) ==> {
            &&& n.session_id == value(s, 0, 4)
            &&& n.display_channels_hint == value(s, 4, 4)
            &&& n.supported_mouse_modes == value(s, 8, 4)
            &&& n.current_mouse_mode == value(s, 12, 4)
            &&& n.agent_connected == value(s, 16, 4)
            &&& n.agent_tokens == value(s, 20, 4)
            &&& n.multi_media_time == value(s, 24, 4)
            &&& n.ram_hint == value(s, 28, 4)
        },
        m.wire().len() == 32,
        value(m.wire(), 0, 4) == m.session_id,
        value(m.wire(), 4, 4) == m.display_channels_hint,
        value(m.wire(), 8, 4) == m.supported_mouse_modes,
        value(m.wire(), 12, 4) == m.current_mouse_mode,
        value(m.wire(), 16, 4) == m.agent_connected,
        value(m.wire(), 20, 4) == m.agent_tokens,
        value(m.wire(), 24, 4) == m.multi_media_time,
        value(m.wire(), 28, 4) == m.ram_hint,
{
    assert(wire::short_in(seq![4, 4, 4, 4, 4, 4, 4, 4], s.len() as int) is None <==> s.len() >= 32) by {
        reveal_with_fuel(wire::short_from, 9);
    }
    lemma_u32(s, 0);
    lemma_u32(s, 4);
    lemma_u32(s, 8);
    lemma_u32(s, 12);
    lemma_u32(s, 16);
    lemma_u32(s, 20);
    lemma_u32(s, 24);
    lemma_u32(s, 28);
    wire::lemma_lengths();
    let out = m.wire();
    main_chan::init_round_trip(m, Seq::empty());
    assert(out + Seq::<u8>::empty() =~= out);
    lemma_u32(out, 0);
    lemma_u32(out, 4);
    lemma_u32(out, 8);
    lemma_u32(out, 12);
    lemma_u32(out, 16);
    lemma_u32(out, 20);
    lemma_u32(out, 24);
    lemma_u32(out, 28);
}

/// A client-info message takes 8 bytes:
/// `cache_size` at 0.
#[verifier::spinoff_prover]
pub proof fn client_info_layout(m: ClientInfo, s: Seq<u8>)
    ensures
        ClientInfo::parse(s) is Ok <==> s.len() >= 8,
        ClientInfo::parse(s) matches Ok(n) ==> {
            &&& n.cache_size == value(s, 0, 8)
        },
        m.wire().len() == 8,
        value(m.wire(), 0, 8) == m.cache_size,
{
    assert(wire::short_in(seq![8], s.len() as int) is None <==> s.len() >= 8) by {
        reveal_with_fuel(wire::short_from, 2);
    }
    lemma_u64(s, 0);
    wire::lemma_lengths();
    let out = m.wire();
    main_chan::client_info_round_trip(m, Seq::empty());
    assert(out + Seq::<u8>::empty() =~= out);
    lemma_u64(out, 0);
}

/// A mouse-mode message takes 8 bytes:
/// `supported_modes` at 0, `current_mode` at 4.
#[verifier::spinoff_prover]
pub proof fn mouse_mode_layout(m: MouseMode, s: Seq<u8>)
    ensures
        MouseMode::parse(s) is Ok <==> s.len() >= 8,
        MouseMode::parse(s) matches Ok(n) ==> {
            &&& n.supported_modes == value(s, 0, 4)
            &&& n.current_mode == value(s, 4, 4)
        },
        m.wire().len() == 8,
        value(m.wire(), 0, 4) == m.supported_modes,
        value(m.wire(), 4, 4) == m.current_mode,
{
    assert(wire::short_in(seq![4, 4], s.len() as int) is None <==> s.len() >= 8) by {
        reveal_with_fuel(wire::short_from, 3);
    }
    lemma_u32(s, 0);
    lemma_u32(s, 4);
    wire::lemma_lengths();
    let out = m.wire();
    main_chan::mouse_mode_round_trip(m, Seq::empty());
    assert(out + Seq::<u8>::empty() =~= out);
    lemma_u32(out, 0);
    lemma_u32(out, 4);
}

/// A mouse-mode request takes 4 bytes:
/// `mode` at 0.
#[verifier::spinoff_prover]
pub proof fn mouse_mode_request_layout(m: MouseModeRequest, s: Seq<u8>)
    ensures
        MouseModeRequest::parse(s) is Ok <==> s.len() >= 4,
        MouseModeRequest::parse(s) matches Ok(n) ==> {
            &&& n.mode == value(s, 0, 4)
        },
        m.wire().len() == 4,
        value(m.wire(), 0, 4) == m.mode,
{
    assert(wire::short_in(seq![4], s.len() as int) is None <==> s.len() >= 4) by {
        reveal_with_fuel(wire::short_from, 2);
    }
    lemma_u32(s, 0);
    wire::lemma_lengths();
    let out = m.wire();
    main_chan::mouse_mode_request_round_trip(m, Seq::empty());
    assert(out + Seq::<u8>::empty() =~= out);
    lemma_u32(out, 0);
}

/// A multi-media time message takes 4 bytes:
/// `time` at 0.
#[verifier::spinoff_prover]
pub proof fn multi_media_time_layout(m: MultiMediaTime, s: Seq<u8>)
    ensures
        MultiMediaTime::parse(s) is Ok <==> s.len() >= 4,
        MultiMediaTime::parse(s) matches Ok(n) ==> {
            &&& n.time == value(s, 0, 4)
        },
        m.wire().len() == 4,
        value(m.wire(), 0, 4) == m.time,
{
    assert(wire::short_in(seq![4], s.len() as int) is None <==> s.len() >= 4) by {
        reveal_with_fuel(wire::short_from, 2);
    }
    lemma_u32(s, 0);
    wire::lemma_lengths();
    let out = m.wire();
    main_chan::multi_media_time_round_trip(m, Seq::empty());
    assert(out + Seq::<u8>::empty() =~= out);
    lemma_u32(out, 0);
}

/// A display-init message takes 14 bytes:
/// `pixmap_cache_id` at 0, `pixmap_cache_size` at 1, `glz_dictionary_id` at
/// 9, `glz_dictionary_window_size` at 10.
#[verifier::spinoff_prover]
pub proof fn display_init_layout(m: DisplayInit, s: Seq<u8>)
    ensures
        DisplayInit::parse(s) is Ok <==> s.len() >= 14,
        DisplayInit::parse(s) matches Ok(n) ==> {
            &&& n.pixmap_cache_id == s[0]
            &&& n.pixmap_cache_size == signed_value(s, 1, 8)
            &&& n.glz_dictionary_id == s[9]
            &&& n.glz_dictionary_window_size == signed_value(s, 10, 4)
        },
        m.wire().len() == 14,
        m.wire()[0] == m.pixmap_cache_id,
        signed_value(m.wire(), 1, 8) == m.pixmap_cache_size,
        m.wire()[9] == m.glz_dictionary_id,
        signed_value(m.wire(), 10, 4) == m.glz_dictionary_window_size,
{
    assert(wire::short_in(seq![1, 8, 1, 4], s.len() as int) is None <==> s.len() >= 14) by {
        reveal_with_fuel(wire::short_from, 5);
    }
    lemma_i64(s, 1);
    lemma_i32(s, 10);
    wire::lemma_lengths();
    let out = m.wire();
    display::display_init_round_trip(m, Seq::empty());
    assert(out + Seq::<u8>::empty() =~= out);
    lemma_i64(out, 1);
    lemma_i32(out, 10);
}

/// A surface-create message takes 20 bytes:
/// `surface_id` at 0, `width` at 4, `height` at 8, `format` at 12, `flags` at
/// 16.
#[verifier::rlimit(60)]
#[verifier::spinoff_prover]
pub proof fn surface_create_layout(m: SurfaceCreate, s: Seq<u8>)
    ensures
        SurfaceCreate::parse(s) is Ok <==> s.len() >= 20,
        SurfaceCreate::parse(s) matches Ok(n) ==> {
            &&& n.surface_id == value(s, 0, 4)
            &&& n.width == value(s, 4, 4)
            &&& n.height == value(s, 8, 4)
            &&& n.format == value(s, 12, 4)
            &&& n.flags == value(s, 16, 4)
        },
        m.wire().len() == 20,
        value(m.wire(), 0, 4) == m.surface_id,
        value(m.wire(), 4, 4) == m.width,
        value(m.wire(), 8, 4) == m.height,
        value(m.wire(), 12, 4) == m.format,
        value(m.wire(), 16, 4) == m.flags,
{
    assert(wire::short_in(seq![4, 4, 4, 4, 4], s.len() as int) is None <==> s.len() >= 20) by {
        reveal_with_fuel(wire::short_from, 6);
    }
    lemma_u32(s, 0);
    lemma_u32(s, 4);
    lemma_u32(s, 8);
    lemma_u32(s, 12);
    lemma_u32(s, 16);
    wire::lemma_lengths();
    let out = m.wire();
    display::surface_create_round_trip(m, Seq::empty());
    assert(out + Seq::<u8>::empty() =~= out);
    lemma_u32(out, 0);
    lemma_u32(out, 4);
    lemma_u32(out, 8);
    lemma_u32(out, 12);
    lemma_u32(out, 16);
}

/// A surface-destroy message takes 4 bytes:
/// `surface_id` at 0.
#[verifier::spinoff_prover]
pub proof fn surface_destroy_layout(m: SurfaceDestroy, s: Seq<u8>)
    ensures
        SurfaceDestroy::parse(s) is Ok <==> s.len() >= 4,
        SurfaceDestroy::parse(s) matches Ok(n) ==> {
            &&& n.surface_id == value(s, 0, 4)
        },
        m.wire().len() == 4,
        value(m.wire(), 0, 4) == m.surface_id,
{
    assert(wire::short_in(seq![4], s.len() as int) is None <==> s.len() >= 4) by {
        reveal_with_fuel(wire::short_from, 2);
    }
    lemma_u32(s, 0);
    wire::lemma_lengths();
    let out = m.wire();
    display::surface_destroy_round_trip(m, Seq::empty());
    assert(out + Seq::<u8>::empty() =~= out);
    lemma_u32(out, 0);
}

/// A mode message takes 12 bytes:
/// `x_res` at 0, `y_res` at 4, `bits` at 8.
#[verifier::spinoff_prover]
pub proof fn mode_layout(m: Mode, s: Seq<u8>)
    ensures
        Mode::parse(s) is Ok <==> s.len() >= 12,
        Mode::parse(s) matches Ok(n) ==> {
            &&& n.x_res == value(s, 0, 4)
            &&& n.y_res == value(s, 4, 4)
            &&& n.bits == value(s, 8, 4)
        },
        m.wire().len() == 12,
        value(m.wire(), 0, 4) == m.x_res,
        value(m.wire(), 4, 4) == m.y_res,
        value(m.wire(), 8, 4) == m.bits,
{
    assert(wire::short_in(seq![4, 4, 4], s.len() as int) is None <==> s.len() >= 12) by {
        reveal_with_fuel(wire::short_from, 4);
    }
    lemma_u32(s, 0);
    lemma_u32(s, 4);
    lemma_u32(s, 8);
    wire::lemma_lengths();
    let out = m.wire();
    display::mode_round_trip(m, Seq::empty());
    assert(out + Seq::<u8>::empty() =~= out);
    lemma_u32(out, 0);
    lemma_u32(out, 4);
    lemma_u32(out, 8);
}

/// A monitor head takes 28 bytes:
/// `id` at 0, `surface_id` at 4, `width` at 8, `height` at 12, `x` at 16, `y`
/// at 20, `flags` at 24.
#[verifier::rlimit(60)]
#[verifier::spinoff_prover]
pub proof fn head_layout(m: Head, s: Seq<u8>, i: int)
    requires
        0 <= i <= s.len(),
    ensures
        Head::parse_at(s, i) is Ok <==> s.len() >= i + 28,
        Head::parse_at(s, i) matches Ok((n, end)) ==> {
            &&& end == i + 28
            &&& n.id == value(s, i, 4)
            &&& n.surface_id == value(s, i + 4, 4)
            &&& n.width == value(s, i + 8, 4)
            &&& n.height == value(s, i + 12, 4)
            &&& n.x == value(s, i + 16, 4)
            &&& n.y == value(s, i + 20, 4)
            &&& n.flags == value(s, i + 24, 4)
        },
        m.wire().len() == 28,
        value(m.wire(), 0, 4) == m.id,
        value(m.wire(), 4, 4) == m.surface_id,
        value(m.wire(), 8, 4) == m.width,
        value(m.wire(), 12, 4) == m.height,
        value(m.wire(), 16, 4) == m.x,
        value(m.wire(), 20, 4) == m.y,
        value(m.wire(), 24, 4) == m.flags,
{
    assert(wire::short_in(seq![4, 4, 4, 4, 4, 4, 4], s.len() - i) is None <==> s.len() >= i + 28) by {
        reveal_with_fuel(wire::short_from, 8);
    }
    lemma_u32(s, i);
    lemma_u32(s, i + 4);
    lemma_u32(s, i + 8);
    lemma_u32(s, i + 12);
    lemma_u32(s, i + 16);
    lemma_u32(s, i + 20);
    lemma_u32(s, i + 24);
    wire::lemma_lengths();
    let out = m.wire();
    display::head_round_trip(m, Seq::empty(), Seq::empty());
    assert(Seq::<u8>::empty() + (out + Seq::<u8>::empty()) =~= out);
    lemma_u32(out, 0);
    lemma_u32(out, 4);
    lemma_u32(out, 8);
    lemma_u32(out, 12);
    lemma_u32(out, 16);
    lemma_u32(out, 20);
    lemma_u32(out, 24);
}

/// A rectangle takes 16 bytes:
/// `top` at 0, `left` at 4, `bottom` at 8, `right` at 12.
#[verifier::spinoff_prover]
pub proof fn rect_layout(m: Rect, s: Seq<u8>, i: int)
    requires
        0 <= i <= s.len(),
    ensures
        Rect::parse_at(s, i) is Ok <==> s.len() >= i + 16,
        Rect::parse_at(s, i) matches Ok((n, end)) ==> {
            &&& end == i + 16
            &&& n.top == signed_value(s, i, 4)
            &&& n.left == signed_value(s, i + 4, 4)
            &&& n.bottom == signed_value(s, i + 8, 4)
            &&& n.right == signed_value(s, i + 12, 4)
        },
        m.wire().len() == 16,
        signed_value(m.wire(), 0, 4) == m.top,
        signed_value(m.wire(), 4, 4) == m.left,
        signed_value(m.wire(), 8, 4) == m.bottom,
        signed_value(m.wire(), 12, 4) == m.right,
{
    assert(wire::short_in(seq![4, 4, 4, 4], s.len() - i) is None <==> s.len() >= i + 16) by {
        reveal_with_fuel(wire::short_from, 5);
    }
    lemma_i32(s, i);
    lemma_i32(s, i + 4);
    lemma_i32(s, i + 8);
    lemma_i32(s, i + 12);
    wire::lemma_lengths();
    let out = m.wire();
    types::rect_round_trip(m, Seq::empty(), Seq::empty());
    assert(Seq::<u8>::empty() + (out + Seq::<u8>::empty()) =~= out);
    lemma_i32(out, 0);
    lemma_i32(out, 4);
    lemma_i32(out, 8);
    lemma_i32(out, 12);
}

/// An image descriptor takes 18 bytes:
/// `id` at 0, `image_type` at 8, `flags` at 9, `width` at 10, `height` at 14.
#[verifier::rlimit(60)]
#[verifier::spinoff_prover]
pub proof fn image_descriptor_layout(m: ImageDescriptor, s: Seq<u8>, i: int)
    requires
        0 <= i <= s.len(),
    ensures
        ImageDescriptor::parse_at(s, i) is Ok <==> s.len() >= i + 18,
        ImageDescriptor::parse_at(s, i) matches Ok((n, end)) ==> {
            &&& end == i + 18
            &&& n.id == value(s, i, 8)
            &&& n.image_type == s[i + 8]
            &&& n.flags == s[i + 9]
            &&& n.width == value(s, i + 10, 4)
            &&& n.height == value(s, i + 14, 4)
        },
        m.wire().len() == 18,
        value(m.wire(), 0, 8) == m.id,
        m.wire()[8] == m.image_type,
        m.wire()[9] == m.flags,
        value(m.wire(), 10, 4) == m.width,
        value(m.wire(), 14, 4) == m.height,
{
    assert(wire::short_in(seq![8, 1, 1, 4, 4], s.len() - i) is None <==> s.len() >= i + 18) by {
        reveal_with_fuel(wire::short_from, 6);
    }
    lemma_u64(s, i);
    lemma_u32(s, i + 10);
    lemma_u32(s, i + 14);
    wire::lemma_lengths();
    let out = m.wire();
    image::image_descriptor_round_trip(m, Seq::empty(), Seq::empty());
    assert(Seq::<u8>::empty() + (out + Seq::<u8>::empty()) =~= out);
    lemma_u64(out, 0);
    lemma_u32(out, 10);
    lemma_u32(out, 14);
}

/// A bitmap header takes 22 bytes:
/// `format` at 0, `flags` at 1, `width` at 2, `height` at 6, `stride` at 10,
/// `palette_offset` at 14, `data_offset` at 18.
#[verifier::rlimit(60)]
#[verifier::spinoff_prover]
pub proof fn bitmap_layout(m: Bitmap, s: Seq<u8>, i: int)
    requires
        0 <= i <= s.len(),
    ensures
        Bitmap::parse_at(s, i) is Ok <==> s.len() >= i + 22,
        Bitmap::parse_at(s, i) matches Ok((n, end)) ==> {
            &&& end == i + 22
            &&& n.format == s[i]
            &&& n.flags == s[i + 1]
            &&& n.width == value(s, i + 2, 4)
            &&& n.height == value(s, i + 6, 4)
            &&& n.stride == value(s, i + 10, 4)
            &&& n.palette_offset == value(s, i + 14, 4)
            &&& n.data_offset == value(s, i + 18, 4)
        },
        m.wire().len() == 22,
        m.wire()[0] == m.format,
        m.wire()[1] == m.flags,
        value(m.wire(), 2, 4) == m.width,
        value(m.wire(), 6, 4) == m.height,
        value(m.wire(), 10, 4) == m.stride,
        value(m.wire(), 14, 4) == m.palette_offset,
        value(m.wire(), 18, 4) == m.data_offset,
{
    assert(wire::short_in(seq![1, 1, 4, 4, 4, 4, 4], s.len() - i) is None <==> s.len() >= i + 22) by {
        reveal_with_fuel(wire::short_from, 8);
    }
    lemma_u32(s, i + 2);
    lemma_u32(s, i + 6);
    lemma_u32(s, i + 10);
    lemma_u32(s, i + 14);
    lemma_u32(s, i + 18);
    wire::lemma_lengths();
    let out = m.wire();
    image::bitmap_round_trip(m, Seq::empty(), Seq::empty());
    assert(Seq::<u8>::empty() + (out + Seq::<u8>::empty()) =~= out);
    lemma_u32(out, 2);
    lemma_u32(out, 6);
    lemma_u32(out, 10);
    lemma_u32(out, 14);
    lemma_u32(out, 18);
}

/// A stream-data header takes 8 bytes:
/// `stream_id` at 0, `multi_media_time` at 4.
#[verifier::spinoff_prover]
pub proof fn stream_data_header_layout(m: StreamDataHeader, s: Seq<u8>, i: int)
    requires
        0 <= i <= s.len(),
    ensures
        StreamDataHeader::parse_at(s, i) is Ok <==> s.len() >= i + 8,
        StreamDataHeader::parse_at(s, i) matches Ok((n, end)) ==> {
            &&& end == i + 8
            &&& n.stream_id == value(s, i, 4)
            &&& n.multi_media_time == value(s, i + 4, 4)
        },
        m.wire().len() == 8,
        value(m.wire(), 0, 4) == m.stream_id,
        value(m.wire(), 4, 4) == m.multi_media_time,
{
    assert(wire::short_in(seq![4, 4], s.len() - i) is None <==> s.len() >= i + 8) by {
        reveal_with_fuel(wire::short_from, 3);
    }
    lemma_u32(s, i);
    lemma_u32(s, i + 4);
    wire::lemma_lengths();
    let out = m.wire();
    stream::stream_data_header_round_trip(m, Seq::empty(), Seq::empty());
    assert(Seq::<u8>::empty() + (out + Seq::<u8>::empty()) =~= out);
    lemma_u32(out, 0);
    lemma_u32(out, 4);
}

/// A stream-destroy message takes 4 bytes:
/// `stream_id` at 0.
#[verifier::spinoff_prover]
pub proof fn stream_destroy_layout(m: StreamDestroy, s: Seq<u8>)
    ensures
        StreamDestroy::parse(s) is Ok <==> s.len() >= 4,
        StreamDestroy::parse(s) matches Ok(n) ==> {
            &&& n.stream_id == value(s, 0, 4)
        },
        m.wire().len() == 4,
        value(m.wire(), 0, 4) == m.stream_id,
{
    assert(wire::short_in(seq![4], s.len() as int) is None <==> s.len() >= 4) by {
        reveal_with_fuel(wire::short_from, 2);
    }
    lemma_u32(s, 0);
    wire::lemma_lengths();
    let out = m.wire();
    stream::stream_destroy_round_trip(m, Seq::empty());
    assert(out + Seq::<u8>::empty() =~= out);
    lemma_u32(out, 0);
}

/// A cursor header takes 18 bytes:
/// `unique` at 0, `kind` at 8, `width` at 10, `height` at 12, `hot_spot_x` at
/// 14, `hot_spot_y` at 16.
#[verifier::rlimit(60)]
#[verifier::spinoff_prover]
pub proof fn cursor_header_layout(m: CursorHeader, s: Seq<u8>, i: int)
    requires
        0 <= i <= s.len(),
    ensures
        CursorHeader::parse_at(s, i) is Ok <==> s.len() >= i + 18,
        CursorHeader::parse_at(s, i) matches Ok((n, end)) ==> {
            &&& end == i + 18
            &&& n.unique == value(s, i, 8)
            &&& n.kind == value(s, i + 8, 2)
            &&& n.width == value(s, i + 10, 2)
            &&& n.height == value(s, i + 12, 2)
            &&& n.hot_spot_x == value(s, i + 14, 2)
            &&& n.hot_spot_y == value(s, i + 16, 2)
        },
        m.wire().len() == 18,
        value(m.wire(), 0, 8) == m.unique,
        value(m.wire(), 8, 2) == m.kind,
        value(m.wire(), 10, 2) == m.width,
        value(m.wire(), 12, 2) == m.height,
        value(m.wire(), 14, 2) == m.hot_spot_x,
        value(m.wire(), 16, 2) == m.hot_spot_y,
{
    assert(wire::short_in(seq![8, 2, 2, 2, 2, 2], s.len() - i) is None <==> s.len() >= i + 18) by {
        reveal_with_fuel(wire::short_from, 7);
    }
    lemma_u64(s, i);
    lemma_u16(s, i + 8);
    lemma_u16(s, i + 10);
    lemma_u16(s, i + 12);
    lemma_u16(s, i + 14);
    lemma_u16(s, i + 16);
    wire::lemma_lengths();
    let out = m.wire();
    cursor::cursor_header_round_trip(m, Seq::empty(), Seq::empty());
    assert(Seq::<u8>::empty() + (out + Seq::<u8>::empty()) =~= out);
    lemma_u64(out, 0);
    lemma_u16(out, 8);
    lemma_u16(out, 10);
    lemma_u16(out, 12);
    lemma_u16(out, 14);
    lemma_u16(out, 16);
}

/// A cursor-move message takes 4 bytes:
/// `position_x` at 0, `position_y` at 2.
#[verifier::spinoff_prover]
pub proof fn cursor_move_layout(s: Seq<u8>)
    ensures
        CursorMove::parse(s) is Ok <==> s.len() >= 4,
        CursorMove::parse(s) matches Ok(n) ==> {
            &&& n.position_x == signed_value(s, 0, 2)
            &&& n.position_y == signed_value(s, 2, 2)
        },
{
    assert(wire::short_in(seq![2, 2], s.len() as int) is None <==> s.len() >= 4) by {
        reveal_with_fuel(wire::short_from, 3);
    }
    lemma_i16(s, 0);
    lemma_i16(s, 2);
}

/// A message that invalidates one cursor takes 8 bytes:
/// `unique` at 0.
#[verifier::spinoff_prover]
pub proof fn cursor_inval_one_layout(s: Seq<u8>)
    ensures
        CursorInvalOne::parse(s) is Ok <==> s.len() >= 8,
        CursorInvalOne::parse(s) matches Ok(n) ==> {
            &&& n.unique == value(s, 0, 8)
        },
{
    assert(wire::short_in(seq![8], s.len() as int) is None <==> s.len() >= 8) by {
        reveal_with_fuel(wire::short_from, 2);
    }
    lemma_u64(s, 0);
}

/// A mask takes 13 bytes:
/// `flags` at 0, `pos.x` at 1, `pos.y` at 5, `bitmap_offset` at 9.
#[verifier::spinoff_prover]
pub proof fn q_mask_layout(m: QMask, s: Seq<u8>, i: int)
    requires
        0 <= i <= s.len(),
    ensures
        QMask::parse_at(s, i) is Ok <==> s.len() >= i + 13,
        QMask::parse_at(s, i) matches Ok((n, end)) ==> {
            &&& end == i + 13
            &&& n.flags == s[i]
            &&& n.pos.x == signed_value(s, i + 1, 4)
            &&& n.pos.y == signed_value(s, i + 5, 4)
            &&& n.bitmap_offset == value(s, i + 9, 4)
        },
        m.wire().len() == 13,
        m.wire()[0] == m.flags,
        signed_value(m.wire(), 1, 4) == m.pos.x,
        signed_value(m.wire(), 5, 4) == m.pos.y,
        value(m.wire(), 9, 4) == m.bitmap_offset,
{
    assert(wire::short_in(seq![1, 4, 4, 4], s.len() - i) is None <==> s.len() >= i + 13) by {
        reveal_with_fuel(wire::short_from, 5);
    }
    lemma_i32(s, i + 1);
    lemma_i32(s, i + 5);
    lemma_u32(s, i + 9);
    wire::lemma_lengths();
    let out = m.wire();
    draw::q_mask_round_trip(m, Seq::empty(), Seq::empty());
    assert(Seq::<u8>::empty() + (out + Seq::<u8>::empty()) =~= out);
    lemma_i32(out, 1);
    lemma_i32(out, 5);
    lemma_u32(out, 9);
}

} // verus!
