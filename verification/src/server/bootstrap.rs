//! Server side of the main-channel bootstrap.

use vstd::prelude::*;
use vstd::slice::slice_to_vec;

use crate::net::channel;
use crate::net::channel::Outgoing;
use crate::net::client as client_boot;
use crate::net::error::{lift, NetError, Result};
use crate::proto::common::SetAck;
use crate::proto::enums::{main_msg, main_msgc, msg, msgc, ChannelType};
use crate::proto::error::ProtoError;
use crate::proto::limits::MAX_CHANNELS_LIST;
use crate::proto::main_chan;
use crate::proto::main_chan::mouse_mode;
use crate::proto::main_chan::{ChannelsList, ClientInfo, Init};
use crate::proto::types::{ChannelId, Writer};

verus! {

/// The `MAIN_INIT` of a session, unless another is asked for: one display,
/// both mouse modes, in `SERVER` mode, and no agent.
pub open spec fn standard_init(session_id: u32) -> Init {
    Init {
        session_id,
        display_channels_hint: 1,
        supported_mouse_modes: 3,
        current_mouse_mode: mouse_mode::SERVER,
        agent_connected: 0,
        agent_tokens: 0,
        multi_media_time: 0,
        ram_hint: 0,
    }
}

/// The `MAIN_INIT` to send.
pub open spec fn init_to_send(session_id: u32, overrides: Option<Init>) -> Init {
    match overrides {
        Some(init) => init,
        None => standard_init(session_id),
    }
}

/// The first two messages on a main channel. An acknowledgement window of 0
/// means that the client need not acknowledge anything.
pub open spec fn opening(session_id: u32, overrides: Option<Init>) -> Seq<(u16, Seq<u8>)> {
    seq![
        (msg::SET_ACK, (SetAck { generation: 1, window: 0 }).wire()),
        (main_msg::INIT, init_to_send(session_id, overrides).wire()),
    ]
}

/// The first messages on a main channel: the acknowledgement window, and
/// `MAIN_INIT`. `session_id` should come from `Server::new_session_id` for the
/// first main-channel connection, and be echoed by clients reconnecting for
/// sub-channels.
pub fn bootstrap_opening(session_id: u32, init_overrides: Option<Init>) -> (out: Vec<Outgoing>)
    ensures
        channel::sent(out@) == opening(session_id, init_overrides),
{
    let mut out: Vec<Outgoing> = Vec::new();
    let mut w = Writer::new();
    let ack = SetAck { generation: 1, window: 0 };
    ack.encode(&mut w);
    let body = w.into_vec();
    assert(body@ =~= ack.wire());
    out.push(Outgoing { msg_type: msg::SET_ACK, body });
    let init = match init_overrides {
        Some(init) => init,
        None => Init {
            session_id,
            display_channels_hint: 1,
            supported_mouse_modes: 3,
            current_mouse_mode: mouse_mode::SERVER,
            agent_connected: 0,
            agent_tokens: 0,
            multi_media_time: 0,
            ram_hint: 0,
        },
    };
    let mut w = Writer::new();
    init.encode(&mut w);
    let body = w.into_vec();
    assert(body@ =~= init.wire());
    out.push(Outgoing { msg_type: main_msg::INIT, body });
    assert(channel::sent(out@) =~= opening(session_id, init_overrides));
    out
}

/// What a client's message does to the bootstrap: it ends it, or not, or it is
/// a client info that cannot be read.
pub open spec fn step_outcome(msg_type: u16, body: Seq<u8>) -> Result<bool> {
    if msg_type == main_msgc::CLIENT_INFO {
        match ClientInfo::parse(body) {
            Ok(_) => Ok(false),
            Err(e) => Err(NetError::Proto(e)),
        }
    } else {
        Ok(msg_type == main_msgc::ATTACH_CHANNELS || msg_type == msgc::DISCONNECTING)
    }
}

/// Take a client's message: true once it wants to attach to channels, or to
/// leave. Acknowledgements and pongs are accepted; latency samples are ignored.
pub fn bootstrap_step(msg_type: u16, body: &[u8]) -> (r: Result<bool>)
    ensures
        r == step_outcome(msg_type, body@),
{
    if msg_type == main_msgc::CLIENT_INFO {
        let _info = lift(ClientInfo::decode(body))?;
        Ok(false)
    } else {
        Ok(msg_type == main_msgc::ATTACH_CHANNELS || msg_type == msgc::DISCONNECTING)
    }
}

/// The message that lists the channels.
pub fn channels_message(available: &[ChannelId]) -> (o: Outgoing)
    ensures
        exists|l: ChannelsList|
            #![trigger l.wire()]
            l.channels@ == available@ && o@ == (main_msg::CHANNELS_LIST, l.wire()),
{
    let list = ChannelsList { channels: slice_to_vec(available) };
    let mut w = Writer::new();
    list.encode(&mut w);
    let body = w.into_vec();
    assert(body@ =~= list.wire());
    Outgoing { msg_type: main_msg::CHANNELS_LIST, body }
}

/// Convenience: the channel list most minimal servers expose.
pub fn default_channels() -> (v: Vec<ChannelId>)
    ensures
        v@ == seq![
            ChannelId { channel_type: ChannelType::Main.code(), id: 0 },
            ChannelId { channel_type: ChannelType::Display.code(), id: 0 },
            ChannelId { channel_type: ChannelType::Inputs.code(), id: 0 },
        ],
{
    let v = vec![
        ChannelId { channel_type: ChannelType::Main.to_u8(), id: 0 },
        ChannelId { channel_type: ChannelType::Display.to_u8(), id: 0 },
        ChannelId { channel_type: ChannelType::Inputs.to_u8(), id: 0 },
    ];
    assert(v@ =~= seq![
        ChannelId { channel_type: ChannelType::Main.code(), id: 0 },
        ChannelId { channel_type: ChannelType::Display.code(), id: 0 },
        ChannelId { channel_type: ChannelType::Inputs.code(), id: 0 },
    ]);
    v
}

/// The two sides' bootstraps meet: the client reads the server's `MAIN_INIT`
/// as it was sent and answers by attaching to the channels, which ends the
/// wait of the server; and it reads the list it then gets as it was sent.
pub proof fn bootstraps_meet(
    session_id: u32,
    overrides: Option<Init>,
    list: ChannelsList,
    res: std::result::Result<ChannelsList, ProtoError>,
)
    requires
        list.channels@.len() <= MAX_CHANNELS_LIST,
        ChannelsList::reads(list.wire(), res),
    ensures
        ({
            let init = init_to_send(session_id, overrides);
            let answers = client_boot::init_answers(init);
            &&& Init::parse(opening(session_id, overrides)[1].1) == Ok::<Init, ProtoError>(init)
            &&& client_boot::boot_answers(
                main_msg::INIT,
                opening(session_id, overrides)[1].1,
            ) == Ok::<Seq<(u16, Seq<u8>)>, NetError>(answers)
            &&& step_outcome(answers.last().0, answers.last().1) == Ok::<bool, NetError>(true)
            &&& (answers.len() == 2 ==> step_outcome(answers[0].0, answers[0].1) == Ok::<
                bool,
                NetError,
            >(false))
            &&& res matches Ok(l) && l.channels@ == list.channels@
        }),
{
    let init = init_to_send(session_id, overrides);
    let none = Seq::<u8>::empty();
    main_chan::init_round_trip(init, none);
    assert(init.wire() + none =~= init.wire());
    main_chan::channels_list_round_trip(list, none, res);
    assert(list.wire() + none =~= list.wire());
}

} // verus!
