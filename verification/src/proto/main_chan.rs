//! Main-channel message bodies.

use vstd::prelude::*;

use crate::proto::error::{ProtoError, Result};
use crate::proto::limits;
use crate::proto::limits::{bounded_count, MAX_CHANNELS_LIST};
use crate::proto::types::{ChannelId, Reader, Writer};
use crate::proto::wire;

pub mod mouse_mode;

verus! {

/// `SPICE_MSG_MAIN_INIT`: first message on the main channel.
#[derive(Debug, Clone, Copy, PartialEq, Eq, Structural)]
pub struct Init {
    pub session_id: u32,
    pub display_channels_hint: u32,
    pub supported_mouse_modes: u32,
    pub current_mouse_mode: u32,
    pub agent_connected: u32,
    pub agent_tokens: u32,
    pub multi_media_time: u32,
    pub ram_hint: u32,
}

impl Init {
    /// The main-init message whose bytes start at `i`.
    pub open spec fn spec_at(s: Seq<u8>, i: int) -> Init {
        Init {
            session_id: wire::u32_at(s, i),
            display_channels_hint: wire::u32_at(s, i + 4),
            supported_mouse_modes: wire::u32_at(s, i + 8),
            current_mouse_mode: wire::u32_at(s, i + 12),
            agent_connected: wire::u32_at(s, i + 16),
            agent_tokens: wire::u32_at(s, i + 20),
            multi_media_time: wire::u32_at(s, i + 24),
            ram_hint: wire::u32_at(s, i + 28),
        }
    }

    /// The bytes of a main-init message.
    pub open spec fn wire(self) -> Seq<u8> {
        wire::le32(self.session_id) + wire::le32(self.display_channels_hint)
            + wire::le32(self.supported_mouse_modes) + wire::le32(self.current_mouse_mode)
            + wire::le32(self.agent_connected) + wire::le32(self.agent_tokens)
            + wire::le32(self.multi_media_time) + wire::le32(self.ram_hint)
    }

    /// What a message body reads as.
    pub open spec fn parse(s: Seq<u8>) -> Result<Init> {
        match wire::short_in(seq![4, 4, 4, 4, 4, 4, 4, 4], s.len() as int) {
            Some(e) => Err(e),
            None => Ok(Self::spec_at(s, 0)),
        }
    }

    pub fn decode(buf: &[u8]) -> (res: Result<Self>)
        ensures
            res == Self::parse(buf@),
    {
        proof {
            reveal_with_fuel(wire::short_from, 9);
        }
        let mut r = Reader::new(buf);
        Ok(
            Self {
                session_id: r.u32()?,
                display_channels_hint: r.u32()?,
                supported_mouse_modes: r.u32()?,
                current_mouse_mode: r.u32()?,
                agent_connected: r.u32()?,
                agent_tokens: r.u32()?,
                multi_media_time: r.u32()?,
                ram_hint: r.u32()?,
            },
        )
    }

    pub fn encode(&self, w: &mut Writer)
        ensures
            final(w)@ == old(w)@ + self.wire(),
    {
        w.u32(self.session_id);
        w.u32(self.display_channels_hint);
        w.u32(self.supported_mouse_modes);
        w.u32(self.current_mouse_mode);
        w.u32(self.agent_connected);
        w.u32(self.agent_tokens);
        w.u32(self.multi_media_time);
        w.u32(self.ram_hint);
        assert(w@ =~= old(w)@ + self.wire());
    }
}

/// A main-init message reads back as it was written, whatever follows it.
#[verifier::rlimit(50)]
#[verifier::spinoff_prover]
pub proof fn init_round_trip(m: Init, tail: Seq<u8>)
    ensures
        Init::parse(m.wire() + tail) == Ok::<Init, ProtoError>(m),
{
    reveal_with_fuel(wire::short_from, 9);
    let s = m.wire() + tail;
    wire::lemma_lengths();
    assert(wire::u32_at(s, 0) == m.session_id) by {
        broadcast use wire::group_parts;

        assert(s.subrange(0, 4) == wire::le32(m.session_id));
        wire::u32_at_le32(s, 0, m.session_id);
    }
    assert(wire::u32_at(s, 4) == m.display_channels_hint) by {
        broadcast use wire::group_parts;

        assert(s.subrange(4, 8) == wire::le32(m.display_channels_hint));
        wire::u32_at_le32(s, 4, m.display_channels_hint);
    }
    assert(wire::u32_at(s, 8) == m.supported_mouse_modes) by {
        broadcast use wire::group_parts;

        assert(s.subrange(8, 12) == wire::le32(m.supported_mouse_modes));
        wire::u32_at_le32(s, 8, m.supported_mouse_modes);
    }
    assert(wire::u32_at(s, 12) == m.current_mouse_mode) by {
        broadcast use wire::group_parts;

        assert(s.subrange(12, 16) == wire::le32(m.current_mouse_mode));
        wire::u32_at_le32(s, 12, m.current_mouse_mode);
    }
    assert(wire::u32_at(s, 16) == m.agent_connected) by {
        broadcast use wire::group_parts;

        assert(s.subrange(16, 20) == wire::le32(m.agent_connected));
        wire::u32_at_le32(s, 16, m.agent_connected);
    }
    assert(wire::u32_at(s, 20) == m.agent_tokens) by {
        broadcast use wire::group_parts;

        assert(s.subrange(20, 24) == wire::le32(m.agent_tokens));
        wire::u32_at_le32(s, 20, m.agent_tokens);
    }
    assert(wire::u32_at(s, 24) == m.multi_media_time) by {
        broadcast use wire::group_parts;

        assert(s.subrange(24, 28) == wire::le32(m.multi_media_time));
        wire::u32_at_le32(s, 24, m.multi_media_time);
    }
    assert(wire::u32_at(s, 28) == m.ram_hint) by {
        broadcast use wire::group_parts;

        assert(s.subrange(28, 32) == wire::le32(m.ram_hint));
        wire::u32_at_le32(s, 28, m.ram_hint);
    }
}

/// `SPICE_MSGC_MAIN_CLIENT_INFO`.
#[derive(Debug, Clone, Copy, PartialEq, Eq, Structural)]
pub struct ClientInfo {
    pub cache_size: u64,
}

impl ClientInfo {
    /// The client-info message whose bytes start at `i`.
    pub open spec fn spec_at(s: Seq<u8>, i: int) -> ClientInfo {
        ClientInfo {
            cache_size: wire::u64_at(s, i),
        }
    }

    /// The bytes of a client-info message.
    pub open spec fn wire(self) -> Seq<u8> {
        wire::le64(self.cache_size)
    }

    /// What a message body reads as.
    pub open spec fn parse(s: Seq<u8>) -> Result<ClientInfo> {
        match wire::short_in(seq![8], s.len() as int) {
            Some(e) => Err(e),
            None => Ok(Self::spec_at(s, 0)),
        }
    }

    pub fn decode(buf: &[u8]) -> (res: Result<Self>)
        ensures
            res == Self::parse(buf@),
    {
        proof {
            reveal_with_fuel(wire::short_from, 2);
        }
        let mut r = Reader::new(buf);
        Ok(
            Self {
                cache_size: r.u64()?,
            },
        )
    }

    pub fn encode(&self, w: &mut Writer)
        ensures
            final(w)@ == old(w)@ + self.wire(),
    {
        w.u64(self.cache_size);
        assert(w@ =~= old(w)@ + self.wire());
    }
}

/// A client-info message reads back as it was written, whatever follows it.
#[verifier::rlimit(50)]
#[verifier::spinoff_prover]
pub proof fn client_info_round_trip(m: ClientInfo, tail: Seq<u8>)
    ensures
        ClientInfo::parse(m.wire() + tail) == Ok::<ClientInfo, ProtoError>(m),
{
    reveal_with_fuel(wire::short_from, 2);
    let s = m.wire() + tail;
    wire::lemma_lengths();
    assert(wire::u64_at(s, 0) == m.cache_size) by {
        broadcast use wire::group_parts;

        assert(s.subrange(0, 8) == wire::le64(m.cache_size));
        wire::u64_at_le64(s, 0, m.cache_size);
    }
}

/// `SPICE_MSG_MAIN_MOUSE_MODE`.
#[derive(Debug, Clone, Copy, PartialEq, Eq, Structural)]
pub struct MouseMode {
    pub supported_modes: u32,
    pub current_mode: u32,
}

impl MouseMode {
    /// The mouse-mode message whose bytes start at `i`.
    pub open spec fn spec_at(s: Seq<u8>, i: int) -> MouseMode {
        MouseMode {
            supported_modes: wire::u32_at(s, i),
            current_mode: wire::u32_at(s, i + 4),
        }
    }

    /// The bytes of a mouse-mode message.
    pub open spec fn wire(self) -> Seq<u8> {
        wire::le32(self.supported_modes) + wire::le32(self.current_mode)
    }

    /// What a message body reads as.
    pub open spec fn parse(s: Seq<u8>) -> Result<MouseMode> {
        match wire::short_in(seq![4, 4], s.len() as int) {
            Some(e) => Err(e),
            None => Ok(Self::spec_at(s, 0)),
        }
    }

    pub fn decode(buf: &[u8]) -> (res: Result<Self>)
        ensures
            res == Self::parse(buf@),
    {
        proof {
            reveal_with_fuel(wire::short_from, 3);
        }
        let mut r = Reader::new(buf);
        Ok(
            Self {
                supported_modes: r.u32()?,
                current_mode: r.u32()?,
            },
        )
    }

    pub fn encode(&self, w: &mut Writer)
        ensures
            final(w)@ == old(w)@ + self.wire(),
    {
        w.u32(self.supported_modes);
        w.u32(self.current_mode);
        assert(w@ =~= old(w)@ + self.wire());
    }
}

/// A mouse-mode message reads back as it was written, whatever follows it.
#[verifier::rlimit(50)]
#[verifier::spinoff_prover]
pub proof fn mouse_mode_round_trip(m: MouseMode, tail: Seq<u8>)
    ensures
        MouseMode::parse(m.wire() + tail) == Ok::<MouseMode, ProtoError>(m),
{
    reveal_with_fuel(wire::short_from, 3);
    let s = m.wire() + tail;
    wire::lemma_lengths();
    assert(wire::u32_at(s, 0) == m.supported_modes) by {
        broadcast use wire::group_parts;

        assert(s.subrange(0, 4) == wire::le32(m.supported_modes));
        wire::u32_at_le32(s, 0, m.supported_modes);
    }
    assert(wire::u32_at(s, 4) == m.current_mode) by {
        broadcast use wire::group_parts;

        assert(s.subrange(4, 8) == wire::le32(m.current_mode));
        wire::u32_at_le32(s, 4, m.current_mode);
    }
}

/// `SPICE_MSGC_MAIN_MOUSE_MODE_REQUEST`: the client asks the server to switch
/// mouse reporting mode. The server responds with a `SPICE_MSG_MAIN_MOUSE_MODE`
/// carrying the mode it actually picked (may differ from the request if the guest
/// can't support it: CLIENT requires an absolute pointing device).
#[derive(Debug, Clone, Copy, PartialEq, Eq, Structural)]
pub struct MouseModeRequest {
    pub mode: u32,
}

impl MouseModeRequest {
    /// The mouse-mode request whose bytes start at `i`.
    pub open spec fn spec_at(s: Seq<u8>, i: int) -> MouseModeRequest {
        MouseModeRequest {
            mode: wire::u32_at(s, i),
        }
    }

    /// The bytes of a mouse-mode request.
    pub open spec fn wire(self) -> Seq<u8> {
        wire::le32(self.mode)
    }

    /// What a message body reads as.
    pub open spec fn parse(s: Seq<u8>) -> Result<MouseModeRequest> {
        match wire::short_in(seq![4], s.len() as int) {
            Some(e) => Err(e),
            None => Ok(Self::spec_at(s, 0)),
        }
    }

    pub fn decode(buf: &[u8]) -> (res: Result<Self>)
        ensures
            res == Self::parse(buf@),
    {
        proof {
            reveal_with_fuel(wire::short_from, 2);
        }
        let mut r = Reader::new(buf);
        Ok(
            Self {
                mode: r.u32()?,
            },
        )
    }

    pub fn encode(&self, w: &mut Writer)
        ensures
            final(w)@ == old(w)@ + self.wire(),
    {
        w.u32(self.mode);
        assert(w@ =~= old(w)@ + self.wire());
    }
}

/// A mouse-mode request reads back as it was written, whatever follows it.
#[verifier::rlimit(50)]
#[verifier::spinoff_prover]
pub proof fn mouse_mode_request_round_trip(m: MouseModeRequest, tail: Seq<u8>)
    ensures
        MouseModeRequest::parse(m.wire() + tail) == Ok::<MouseModeRequest, ProtoError>(m),
{
    reveal_with_fuel(wire::short_from, 2);
    let s = m.wire() + tail;
    wire::lemma_lengths();
    assert(wire::u32_at(s, 0) == m.mode) by {
        broadcast use wire::group_parts;

        assert(s.subrange(0, 4) == wire::le32(m.mode));
        wire::u32_at_le32(s, 0, m.mode);
    }
}

/// `SPICE_MSG_MAIN_MULTI_MEDIA_TIME`.
#[derive(Debug, Clone, Copy, PartialEq, Eq, Structural)]
pub struct MultiMediaTime {
    pub time: u32,
}

impl MultiMediaTime {
    /// The multimedia-time message whose bytes start at `i`.
    pub open spec fn spec_at(s: Seq<u8>, i: int) -> MultiMediaTime {
        MultiMediaTime {
            time: wire::u32_at(s, i),
        }
    }

    /// The bytes of a multimedia-time message.
    pub open spec fn wire(self) -> Seq<u8> {
        wire::le32(self.time)
    }

    /// What a message body reads as.
    pub open spec fn parse(s: Seq<u8>) -> Result<MultiMediaTime> {
        match wire::short_in(seq![4], s.len() as int) {
            Some(e) => Err(e),
            None => Ok(Self::spec_at(s, 0)),
        }
    }

    pub fn decode(buf: &[u8]) -> (res: Result<Self>)
        ensures
            res == Self::parse(buf@),
    {
        proof {
            reveal_with_fuel(wire::short_from, 2);
        }
        let mut r = Reader::new(buf);
        Ok(
            Self {
                time: r.u32()?,
            },
        )
    }

    pub fn encode(&self, w: &mut Writer)
        ensures
            final(w)@ == old(w)@ + self.wire(),
    {
        w.u32(self.time);
        assert(w@ =~= old(w)@ + self.wire());
    }
}

/// A multimedia-time message reads back as it was written, whatever follows it.
#[verifier::rlimit(50)]
#[verifier::spinoff_prover]
pub proof fn multi_media_time_round_trip(m: MultiMediaTime, tail: Seq<u8>)
    ensures
        MultiMediaTime::parse(m.wire() + tail) == Ok::<MultiMediaTime, ProtoError>(m),
{
    reveal_with_fuel(wire::short_from, 2);
    let s = m.wire() + tail;
    wire::lemma_lengths();
    assert(wire::u32_at(s, 0) == m.time) by {
        broadcast use wire::group_parts;

        assert(s.subrange(0, 4) == wire::le32(m.time));
        wire::u32_at_le32(s, 0, m.time);
    }
}

/// `SPICE_MSG_MAIN_CHANNELS_LIST`: advertises the sub-channels that the server
/// is ready to accept connections on.
#[derive(Debug, Clone, PartialEq, Eq)]
pub struct ChannelsList {
    pub channels: Vec<ChannelId>,
}

/// The bytes of some channel ids.
pub open spec fn ids_wire(ids: Seq<ChannelId>) -> Seq<u8> {
    Seq::new(
        2 * ids.len(),
        |i: int|
            if i % 2 == 0 {
                ids[i / 2].channel_type
            } else {
                ids[i / 2].id
            },
    )
}

/// The `n` channel ids from position `i` on.
pub open spec fn ids_at(s: Seq<u8>, i: int, n: nat) -> Seq<ChannelId> {
    Seq::new(n, |k: int| ChannelId { channel_type: s[i + 2 * k], id: s[i + 2 * k + 1] })
}

impl ChannelsList {
    /// The bytes of a channels list.
    pub open spec fn wire(self) -> Seq<u8> {
        wire::le32((self.channels@.len() % 4294967296) as u32) + ids_wire(self.channels@)
    }

    /// A message body reads as `res`. The count is bounded before anything is
    /// allocated for it.
    pub open spec fn reads(s: Seq<u8>, res: Result<ChannelsList>) -> bool {
        if s.len() < 4 {
            res == Err::<ChannelsList, _>(ProtoError::Short { need: 4, have: s.len() as usize })
        } else {
            let n = wire::u32_at(s, 0);
            match limits::bounded(n, MAX_CHANNELS_LIST) {
                Err(e) => res == Err::<ChannelsList, _>(e),
                Ok(_) => if s.len() < 4 + 2 * n {
                    res == Err::<ChannelsList, _>(ProtoError::Short { need: 1, have: 0 })
                } else {
                    res matches Ok(m) && m.channels@ == ids_at(s, 4, n as nat)
                },
            }
        }
    }

    pub fn decode(buf: &[u8]) -> (res: Result<Self>)
        ensures
            Self::reads(buf@, res),
    {
        let mut r = Reader::new(buf);
        let n: usize = bounded_count(r.u32()?, MAX_CHANNELS_LIST)?;
        let mut channels: Vec<ChannelId> = Vec::new();
        let mut i: usize = 0;
        while i < n
            invariant
                i <= n == wire::u32_at(buf@, 0),
                n <= MAX_CHANNELS_LIST,
                r.input() == buf@,
                4 <= buf@.len(),
                r.at() == 4 + 2 * i,
                4 + 2 * i <= buf@.len(),
                channels@ == ids_at(buf@, 4, i as nat),
            decreases n - i,
        {
            let channel_type: u8 = r.u8()?;
            let id: u8 = r.u8()?;
            channels.push(ChannelId { channel_type, id });
            i = i + 1;
            assert(channels@ =~= ids_at(buf@, 4, i as nat));
        }
        Ok(Self { channels })
    }

    pub fn encode(&self, w: &mut Writer)
        ensures
            final(w)@ == old(w)@ + self.wire(),
    {
        let n: usize = self.channels.len();
        w.u32((n as u64 % 4294967296) as u32);
        let ghost front = w@;
        let mut i: usize = 0;
        assert(ids_wire(self.channels@.take(0)) =~= Seq::<u8>::empty());
        assert(front + ids_wire(self.channels@.take(0)) =~= front);
        while i < n
            invariant
                i <= n == self.channels@.len(),
                w@ == front + ids_wire(self.channels@.take(i as int)),
            decreases n - i,
        {
            w.u8(self.channels[i].channel_type);
            w.u8(self.channels[i].id);
            i = i + 1;
            assert(w@ =~= front + ids_wire(self.channels@.take(i as int)));
        }
        assert(self.channels@.take(n as int) =~= self.channels@);
        assert(w@ =~= old(w)@ + self.wire());
    }
}

/// A channels list of at most 256 entries reads back as it was written,
/// whatever follows it.
#[verifier::rlimit(50)]
#[verifier::spinoff_prover]
pub proof fn channels_list_round_trip(m: ChannelsList, tail: Seq<u8>, res: Result<ChannelsList>)
    requires
        m.channels@.len() <= MAX_CHANNELS_LIST,
        ChannelsList::reads(m.wire() + tail, res),
    ensures
        res matches Ok(n) && n.channels@ == m.channels@,
{
    wire::lemma_lengths();
    let n = m.channels@.len() as u32;
    let s = m.wire() + tail;
    assert(s.subrange(0, 4) =~= wire::le32(n));
    wire::u32_at_le32(s, 0, n);
    assert forall|k: int| 0 <= k < n implies #[trigger] ids_at(s, 4, n as nat)[k]
        == m.channels@[k] by {
        assert(s[4 + 2 * k] == ids_wire(m.channels@)[2 * k]);
        assert(s[4 + 2 * k + 1] == ids_wire(m.channels@)[2 * k + 1]);
    }
    assert(ids_at(s, 4, n as nat) =~= m.channels@);
}

} // verus!
