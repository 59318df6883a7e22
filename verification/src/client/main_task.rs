//! Main-channel handler: answer pings and acks, report the mouse mode.

use vstd::prelude::*;

use crate::client::ack;
use crate::client::ack::{is_counted, AckState};
use crate::client::events::MouseMode;
use crate::net::channel;
use crate::net::channel::Outgoing;
use crate::net::control;
use crate::net::control::{ack_message, answer_ping, answer_set_ack};
use crate::proto::common::SetAck;
use crate::proto::enums::{main_msg, msg};
use crate::proto::main_chan;

verus! {

/// What a main-channel message leads to.
pub struct MainReaction {
    pub out: Vec<Outgoing>,
    /// The mode that the server switched to.
    pub mouse_mode: Option<MouseMode>,
}

/// A message that cannot be read is dropped, and does not count toward the
/// window.
pub open spec fn dropped(msg_type: u16, body: Seq<u8>) -> bool {
    ||| msg_type == msg::PING && control::pong_for(body) is Err
    ||| msg_type == msg::SET_ACK && control::ack_sync_for(body) is Err
    ||| msg_type == main_msg::MOUSE_MODE && main_chan::MouseMode::parse(body) is Err
}

/// The window after a message.
pub open spec fn ack_after(ack: AckState, msg_type: u16, body: Seq<u8>) -> AckState {
    if dropped(msg_type, body) {
        ack
    } else if msg_type == msg::SET_ACK {
        AckState::fresh(SetAck::spec_at(body, 0).window)
    } else if ack::counts(msg_type) {
        ack.noted()
    } else {
        ack
    }
}

/// What is sent on a message.
pub open spec fn replies(ack: AckState, msg_type: u16, body: Seq<u8>) -> Seq<(u16, Seq<u8>)> {
    if dropped(msg_type, body) {
        Seq::empty()
    } else if msg_type == msg::PING {
        seq![control::pong_for(body)->Ok_0]
    } else if msg_type == msg::SET_ACK {
        seq![control::ack_sync_for(body)->Ok_0]
    } else if ack::counts(msg_type) && ack.due() {
        seq![control::ack_wire()]
    } else {
        Seq::empty()
    }
}

/// The mouse mode that a message reports.
pub open spec fn reported_mode(msg_type: u16, body: Seq<u8>) -> Option<MouseMode> {
    if msg_type == main_msg::MOUSE_MODE {
        match main_chan::MouseMode::parse(body) {
            Ok(m) => Some(MouseMode::of(m.current_mode as u32)),
            Err(_) => None,
        }
    } else {
        None
    }
}

/// Take a main-channel message.
pub fn handle_main(ack: &mut AckState, msg_type: u16, body: &[u8]) -> (r: MainReaction)
    requires
        old(ack).wf(),
    ensures
        final(ack).wf(),
        *final(ack) == ack_after(*old(ack), msg_type, body@),
        channel::sent(r.out@) == replies(*old(ack), msg_type, body@),
        r.mouse_mode == reported_mode(msg_type, body@),
{
    let mut out: Vec<Outgoing> = Vec::new();
    let mut mode: Option<MouseMode> = None;
    let mut seen: bool = true;
    if msg_type == msg::PING {
        match answer_ping(body) {
            Ok(pong) => out.push(pong),
            Err(_) => {
                seen = false;
            },
        }
    } else if msg_type == msg::SET_ACK {
        match SetAck::decode(body) {
            Ok(set) => {
                out.push(answer_set_ack(&set));
                ack.on_set_ack(set.window);
            },
            Err(_) => {
                seen = false;
            },
        }
    } else if msg_type == main_msg::MOUSE_MODE {
        match main_chan::MouseMode::decode(body) {
            Ok(m) => {
                mode = Some(MouseMode::from_raw(m.current_mode));
            },
            Err(_) => {
                seen = false;
            },
        }
    }
    if seen && is_counted(msg_type) && ack.note_message() {
        out.push(ack_message());
    }
    assert(channel::sent(out@) =~= replies(*old(ack), msg_type, body@));
    MainReaction { out, mouse_mode: mode }
}

} // verus!
