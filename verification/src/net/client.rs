//! Client side of the main-channel bootstrap: what to answer to each message
//! until the server has listed its channels.

use vstd::prelude::*;

use crate::net::channel;
use crate::net::channel::{Channel, Outgoing};
use crate::net::control;
use crate::net::control::{answer_ping, answer_set_ack};
use crate::net::error::{lift, NetError, Result};
use crate::proto::common::SetAck;
use crate::proto::enums::{main_msg, main_msgc, msg, ChannelType};
use crate::proto::error::ProtoError;
use crate::proto::main_chan::mouse_mode;
use crate::proto::main_chan::{ChannelsList, Init, MouseModeRequest};
use crate::proto::types::{ChannelId, Writer};

verus! {

/// Main channel after bootstrap: `Init` read, channel list discovered, ready to
/// reply to subsequent ACK/PING messages.
pub struct MainConnection<S> {
    pub channel: Channel<S>,
    pub session_id: u32,
    pub init: Init,
    pub available_channels: Vec<ChannelId>,
}

/// How far the bootstrap has come.
pub struct Bootstrap {
    init: Option<Init>,
    channels: Option<Vec<ChannelId>>,
}

/// What is sent once `MAIN_INIT` has come. `CLIENT` mouse mode is asked for
/// where the server supports it and is not in it: `SERVER` mode silently drops
/// absolute positions. `ATTACH_CHANNELS` follows at once: the client info that
/// older servers expected in between makes current ones drop the connection.
pub open spec fn init_answers(init: Init) -> Seq<(u16, Seq<u8>)> {
    let attach = seq![(main_msgc::ATTACH_CHANNELS, Seq::<u8>::empty())];
    if init.supported_mouse_modes / 2 % 2 == 1 && init.current_mouse_mode != mouse_mode::CLIENT {
        seq![
            (
                main_msgc::MOUSE_MODE_REQUEST,
                (MouseModeRequest { mode: mouse_mode::CLIENT }).wire(),
            ),
        ] + attach
    } else {
        attach
    }
}

/// What a message is answered with, or why it ends the bootstrap.
pub open spec fn boot_answers(msg_type: u16, body: Seq<u8>) -> Result<Seq<(u16, Seq<u8>)>> {
    if msg_type == msg::SET_ACK {
        match control::ack_sync_for(body) {
            Ok(m) => Ok(seq![m]),
            Err(e) => Err(NetError::Proto(e)),
        }
    } else if msg_type == msg::PING {
        match control::pong_for(body) {
            Ok(m) => Ok(seq![m]),
            Err(e) => Err(NetError::Proto(e)),
        }
    } else if msg_type == main_msg::INIT {
        match Init::parse(body) {
            Ok(init) => Ok(init_answers(init)),
            Err(e) => Err(NetError::Proto(e)),
        }
    } else {
        Ok(Seq::empty())
    }
}

/// The list in a `CHANNELS_LIST` body reads as `channels`.
pub open spec fn lists(body: Seq<u8>, channels: Seq<ChannelId>) -> bool {
    exists|l: ChannelsList|
        #![trigger l.channels]
        l.channels@ == channels && ChannelsList::reads(body, Ok(l))
}

impl Bootstrap {
    /// The `MAIN_INIT` that has come.
    pub closed spec fn init(self) -> Option<Init> {
        self.init
    }

    /// The channels that the server has listed.
    pub closed spec fn channels(self) -> Option<Seq<ChannelId>> {
        match self.channels {
            Some(c) => Some(c@),
            None => None,
        }
    }

    pub fn new() -> (b: Self)
        ensures
            b.init() is None,
            b.channels() is None,
    {
        Self { init: None, channels: None }
    }

    /// The server has listed its channels.
    pub fn done(&self) -> (b: bool)
        ensures
            b == (self.channels() is Some),
    {
        self.channels.is_some()
    }

    /// Take a message: wait for `MAIN_INIT`, send `ATTACH_CHANNELS`, wait for
    /// `CHANNELS_LIST`, answering common control messages in the meantime.
    /// Other messages are accepted and not parsed.
    pub fn step(&mut self, msg_type: u16, body: &[u8]) -> (r: Result<Vec<Outgoing>>)
        ensures
            match r {
                Ok(out) => {
                    &&& boot_answers(msg_type, body@) == Ok::<Seq<(u16, Seq<u8>)>, NetError>(
                        channel::sent(out@),
                    )
                    &&& final(self).init() == (if msg_type == main_msg::INIT {
                        Some(Init::spec_at(body@, 0))
                    } else {
                        old(self).init()
                    })
                    &&& if msg_type == main_msg::CHANNELS_LIST {
                        final(self).channels() matches Some(c) && lists(body@, c)
                    } else {
                        final(self).channels() == old(self).channels()
                    }
                },
                Err(e) => {
                    &&& *final(self) == *old(self)
                    &&& if msg_type == main_msg::CHANNELS_LIST {
                        e matches NetError::Proto(p) && ChannelsList::reads(body@, Err(p))
                    } else {
                        boot_answers(msg_type, body@) == Err::<Seq<(u16, Seq<u8>)>, NetError>(e)
                    }
                },
            },
    {
        let mut out: Vec<Outgoing> = Vec::new();
        if msg_type == msg::SET_ACK {
            let ack = lift(SetAck::decode(body))?;
            out.push(answer_set_ack(&ack));
            assert(channel::sent(out@) =~= seq![out@[0]@]);
        } else if msg_type == msg::PING {
            let pong = lift(answer_ping(body))?;
            out.push(pong);
            assert(channel::sent(out@) =~= seq![out@[0]@]);
        } else if msg_type == main_msg::INIT {
            let init = lift(Init::decode(body))?;
            if init.supported_mouse_modes / 2 % 2 == 1 && init.current_mouse_mode
                != mouse_mode::CLIENT {
                let mut w = Writer::new();
                let request = MouseModeRequest { mode: mouse_mode::CLIENT };
                request.encode(&mut w);
                let body = w.into_vec();
                assert(body@ =~= request.wire());
                out.push(Outgoing { msg_type: main_msgc::MOUSE_MODE_REQUEST, body });
            }
            out.push(Outgoing { msg_type: main_msgc::ATTACH_CHANNELS, body: Vec::new() });
            assert(out@[out@.len() - 1].body@ =~= Seq::<u8>::empty());
            assert(channel::sent(out@) =~= init_answers(init));
            self.init = Some(init);
        } else if msg_type == main_msg::CHANNELS_LIST {
            let list = lift(ChannelsList::decode(body))?;
            assert(lists(body@, list.channels@));
            self.channels = Some(list.channels);
            assert(channel::sent(out@) =~= Seq::empty());
        } else {
            assert(channel::sent(out@) =~= Seq::empty());
        }
        Ok(out)
    }

    /// The connection that the bootstrap led to. A server that lists its
    /// channels before it sent `MAIN_INIT` is refused.
    pub fn finish<S>(self, channel: Channel<S>) -> (r: Result<MainConnection<S>>)
        requires
            self.channels() is Some,
        ensures
            match self.init() {
                None => r == Err::<MainConnection<S>, NetError>(
                    NetError::Proto(ProtoError::BadLinkError(0)),
                ),
                Some(init) => {
                    &&& r matches Ok(c)
                    &&& c.channel == channel
                    &&& c.session_id == init.session_id
                    &&& c.init == init
                    &&& self.channels() == Some(c.available_channels@)
                },
            },
    {
        match (self.init, self.channels) {
            (Some(init), Some(available_channels)) => Ok(
                MainConnection { channel, session_id: init.session_id, init, available_channels },
            ),
            _ => Err(NetError::Proto(ProtoError::BadLinkError(0))),
        }
    }
}

/// A channel of the type is listed.
pub open spec fn offers(channels: Seq<ChannelId>, ty: ChannelType) -> bool {
    exists|i: int| 0 <= i < channels.len() && #[trigger] channels[i].channel_type == ty.code()
}

/// Helper: does the advertised list include a channel of `ty`?
pub fn has_channel(channels: &[ChannelId], ty: ChannelType) -> (b: bool)
    ensures
        b == offers(channels@, ty),
{
    let code: u8 = ty.to_u8();
    let mut i: usize = 0;
    while i < channels.len()
        invariant
            i <= channels@.len(),
            code == ty.code(),
            forall|k: int| 0 <= k < i ==> #[trigger] channels@[k].channel_type != code,
        decreases channels@.len() - i,
    {
        if channels[i].channel_type == code {
            return true;
        }
        i = i + 1;
    }
    false
}

/// `MAIN_INIT` is always answered by attaching to the channels, last of all;
/// `CLIENT` mouse mode is asked for only where it is offered and not in use.
pub proof fn attach_follows_init(init: Init)
    ensures
        init_answers(init).len() > 0,
        init_answers(init).last() == (main_msgc::ATTACH_CHANNELS, Seq::<u8>::empty()),
        init_answers(init).len() == 2 <==> init.supported_mouse_modes / 2 % 2 == 1
            && init.current_mouse_mode != mouse_mode::CLIENT,
{
}

/// The client info that older servers expected is never sent: current ones drop
/// the connection on it.
pub proof fn client_info_is_never_sent(msg_type: u16, body: Seq<u8>, i: int)
    ensures
        boot_answers(msg_type, body) matches Ok(out) ==> (0 <= i < out.len() ==> out[i].0
            != main_msgc::CLIENT_INFO),
{
}

} // verus!
