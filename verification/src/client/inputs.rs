//! Inputs-channel handler: turn [`InputEvent`]s into messages, and answer the
//! server's control messages.

use vstd::prelude::*;

use crate::client::events::InputEvent;
use crate::net::channel::Outgoing;
use crate::net::control;
use crate::net::control::{answer_ping, answer_set_ack};
use crate::proto::common::SetAck;
use crate::proto::enums::msg;
use crate::proto::error::ProtoError;
use crate::proto::inputs::client_msg;
use crate::proto::inputs::{KeyCode, KeyModifiers, MouseButton, MouseMotion, MousePosition};
use crate::proto::types::Writer;

verus! {

/// The message that carries an input event.
pub open spec fn event_message(evt: InputEvent) -> (u16, Seq<u8>) {
    match evt {
        InputEvent::KeyDown(code) => (client_msg::INPUTS_KEY_DOWN, (KeyCode { code }).wire()),
        InputEvent::KeyUp(code) => (client_msg::INPUTS_KEY_UP, (KeyCode { code }).wire()),
        InputEvent::KeyModifiers(mods) => (
            client_msg::INPUTS_KEY_MODIFIERS,
            (KeyModifiers { keyboard_modifiers: mods }).wire(),
        ),
        InputEvent::MouseMotion { dx, dy, buttons } => (
            client_msg::INPUTS_MOUSE_MOTION,
            (MouseMotion { dx, dy, buttons_state: buttons }).wire(),
        ),
        InputEvent::MousePosition { x, y, buttons, display } => (
            client_msg::INPUTS_MOUSE_POSITION,
            (MousePosition { x, y, buttons_state: buttons, display_id: display }).wire(),
        ),
        InputEvent::MousePress { button, buttons } => (
            client_msg::INPUTS_MOUSE_PRESS,
            (MouseButton { button, buttons_state: buttons }).wire(),
        ),
        InputEvent::MouseRelease { button, buttons } => (
            client_msg::INPUTS_MOUSE_RELEASE,
            (MouseButton { button, buttons_state: buttons }).wire(),
        ),
    }
}

/// The message that carries an input event.
pub fn encode_event(evt: InputEvent) -> (o: Outgoing)
    ensures
        o@ == event_message(evt),
{
    let mut w = Writer::new();
    let msg_type: u16 = match evt {
        InputEvent::KeyDown(code) => {
            KeyCode { code }.encode(&mut w);
            client_msg::INPUTS_KEY_DOWN
        },
        InputEvent::KeyUp(code) => {
            KeyCode { code }.encode(&mut w);
            client_msg::INPUTS_KEY_UP
        },
        InputEvent::KeyModifiers(mods) => {
            KeyModifiers { keyboard_modifiers: mods }.encode(&mut w);
            client_msg::INPUTS_KEY_MODIFIERS
        },
        InputEvent::MouseMotion { dx, dy, buttons } => {
            MouseMotion { dx, dy, buttons_state: buttons }.encode(&mut w);
            client_msg::INPUTS_MOUSE_MOTION
        },
        InputEvent::MousePosition { x, y, buttons, display } => {
            MousePosition { x, y, buttons_state: buttons, display_id: display }.encode(&mut w);
            client_msg::INPUTS_MOUSE_POSITION
        },
        InputEvent::MousePress { button, buttons } => {
            MouseButton { button, buttons_state: buttons }.encode(&mut w);
            client_msg::INPUTS_MOUSE_PRESS
        },
        InputEvent::MouseRelease { button, buttons } => {
            MouseButton { button, buttons_state: buttons }.encode(&mut w);
            client_msg::INPUTS_MOUSE_RELEASE
        },
    };
    let body = w.into_vec();
    assert(body@ =~= event_message(evt).1);
    Outgoing { msg_type, body }
}

/// What a message from the server is answered with. Status messages and
/// unknown ones are swallowed.
pub open spec fn server_reply(msg_type: u16, body: Seq<u8>) -> Result<
    Option<(u16, Seq<u8>)>,
    ProtoError,
> {
    if msg_type == msg::PING {
        match control::pong_for(body) {
            Ok(m) => Ok(Some(m)),
            Err(e) => Err(e),
        }
    } else if msg_type == msg::SET_ACK {
        match control::ack_sync_for(body) {
            Ok(m) => Ok(Some(m)),
            Err(e) => Err(e),
        }
    } else {
        Ok(None)
    }
}

/// Take a message from the server.
pub fn handle_server_msg(msg_type: u16, body: &[u8]) -> (r: Result<Option<Outgoing>, ProtoError>)
    ensures
        match server_reply(msg_type, body@) {
            Err(e) => r == Err::<Option<Outgoing>, ProtoError>(e),
            Ok(None) => r matches Ok(None),
            Ok(Some(m)) => r matches Ok(Some(o)) && o@ == m,
        },
{
    if msg_type == msg::PING {
        Ok(Some(answer_ping(body)?))
    } else if msg_type == msg::SET_ACK {
        let ack = SetAck::decode(body)?;
        Ok(Some(answer_set_ack(&ack)))
    } else {
        Ok(None)
    }
}

} // verus!
