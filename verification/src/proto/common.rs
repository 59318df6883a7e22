//! Message bodies common to every channel.

use vstd::prelude::*;
use vstd::slice::slice_to_vec;

use crate::proto::error::{ProtoError, Result};
use crate::proto::types::{Reader, Writer};
use crate::proto::wire;

verus! {

/// `SPICE_MSG_SET_ACK`: the server tells the client how many messages to ack.
#[derive(Debug, Clone, Copy, PartialEq, Eq, Structural)]
pub struct SetAck {
    pub generation: u32,
    pub window: u32,
}

impl SetAck {
    /// The set-ack message whose bytes start at `i`.
    pub open spec fn spec_at(s: Seq<u8>, i: int) -> SetAck {
        SetAck {
            generation: wire::u32_at(s, i),
            window: wire::u32_at(s, i + 4),
        }
    }

    /// The bytes of a set-ack message.
    pub open spec fn wire(self) -> Seq<u8> {
        wire::le32(self.generation) + wire::le32(self.window)
    }

    /// What a message body reads as.
    pub open spec fn parse(s: Seq<u8>) -> Result<SetAck> {
        match wire::short_in(seq![4, 4], s.len() as int) {
            Some(e) => Err(e),
            None => Ok(Self::spec_at(s, 0)),
        }
    }

    pub fn decode(buf: &[u8]) -> (res: Result<Self>)
        ensures
            res == Self::parse(buf@),
    {
        proof {
            reveal_with_fuel(wire::short_from, 3);
        }
        let mut r = Reader::new(buf);
        Ok(
            Self {
                generation: r.u32()?,
                window: r.u32()?,
            },
        )
    }

    pub fn encode(&self, w: &mut Writer)
        ensures
            final(w)@ == old(w)@ + self.wire(),
    {
        w.u32(self.generation);
        w.u32(self.window);
        assert(w@ =~= old(w)@ + self.wire());
    }
}

/// A set-ack message reads back as it was written, whatever follows it.
#[verifier::rlimit(50)]
#[verifier::spinoff_prover]
pub proof fn set_ack_round_trip(m: SetAck, tail: Seq<u8>)
    ensures
        SetAck::parse(m.wire() + tail) == Ok::<SetAck, ProtoError>(m),
{
    reveal_with_fuel(wire::short_from, 3);
    let s = m.wire() + tail;
    wire::lemma_lengths();
    assert(wire::u32_at(s, 0) == m.generation) by {
        broadcast use wire::group_parts;

        assert(s.subrange(0, 4) == wire::le32(m.generation));
        wire::u32_at_le32(s, 0, m.generation);
    }
    assert(wire::u32_at(s, 4) == m.window) by {
        broadcast use wire::group_parts;

        assert(s.subrange(4, 8) == wire::le32(m.window));
        wire::u32_at_le32(s, 4, m.window);
    }
}

/// `SPICE_MSGC_ACK_SYNC`: the client echoes back the generation.
#[derive(Debug, Clone, Copy, PartialEq, Eq, Structural)]
pub struct AckSync {
    pub generation: u32,
}

impl AckSync {
    /// The ack-sync message whose bytes start at `i`.
    pub open spec fn spec_at(s: Seq<u8>, i: int) -> AckSync {
        AckSync {
            generation: wire::u32_at(s, i),
        }
    }

    /// The bytes of a ack-sync message.
    pub open spec fn wire(self) -> Seq<u8> {
        wire::le32(self.generation)
    }

    /// What a message body reads as.
    pub open spec fn parse(s: Seq<u8>) -> Result<AckSync> {
        match wire::short_in(seq![4], s.len() as int) {
            Some(e) => Err(e),
            None => Ok(Self::spec_at(s, 0)),
        }
    }

    pub fn decode(buf: &[u8]) -> (res: Result<Self>)
        ensures
            res == Self::parse(buf@),
    {
        proof {
            reveal_with_fuel(wire::short_from, 2);
        }
        let mut r = Reader::new(buf);
        Ok(
            Self {
                generation: r.u32()?,
            },
        )
    }

    pub fn encode(&self, w: &mut Writer)
        ensures
            final(w)@ == old(w)@ + self.wire(),
    {
        w.u32(self.generation);
        assert(w@ =~= old(w)@ + self.wire());
    }
}

/// An ack-sync message reads back as it was written, whatever follows it.
#[verifier::rlimit(50)]
#[verifier::spinoff_prover]
pub proof fn ack_sync_round_trip(m: AckSync, tail: Seq<u8>)
    ensures
        AckSync::parse(m.wire() + tail) == Ok::<AckSync, ProtoError>(m),
{
    reveal_with_fuel(wire::short_from, 2);
    let s = m.wire() + tail;
    wire::lemma_lengths();
    assert(wire::u32_at(s, 0) == m.generation) by {
        broadcast use wire::group_parts;

        assert(s.subrange(0, 4) == wire::le32(m.generation));
        wire::u32_at_le32(s, 0, m.generation);
    }
}

/// `SPICE_MSGC_PONG`: id and timestamp only. The opaque data carried by a server
/// `Ping` is not echoed back; it exists solely to let the server measure
/// downstream bandwidth.
#[derive(Debug, Clone, Copy, PartialEq, Eq, Structural)]
pub struct Pong {
    pub id: u32,
    pub timestamp: u64,
}

impl Pong {
    /// The pong whose bytes start at `i`.
    pub open spec fn spec_at(s: Seq<u8>, i: int) -> Pong {
        Pong {
            id: wire::u32_at(s, i),
            timestamp: wire::u64_at(s, i + 4),
        }
    }

    /// The bytes of a pong.
    pub open spec fn wire(self) -> Seq<u8> {
        wire::le32(self.id) + wire::le64(self.timestamp)
    }

    /// What a message body reads as.
    pub open spec fn parse(s: Seq<u8>) -> Result<Pong> {
        match wire::short_in(seq![4, 8], s.len() as int) {
            Some(e) => Err(e),
            None => Ok(Self::spec_at(s, 0)),
        }
    }

    pub fn decode(buf: &[u8]) -> (res: Result<Self>)
        ensures
            res == Self::parse(buf@),
    {
        proof {
            reveal_with_fuel(wire::short_from, 3);
        }
        let mut r = Reader::new(buf);
        Ok(
            Self {
                id: r.u32()?,
                timestamp: r.u64()?,
            },
        )
    }

    pub fn encode(&self, w: &mut Writer)
        ensures
            final(w)@ == old(w)@ + self.wire(),
    {
        w.u32(self.id);
        w.u64(self.timestamp);
        assert(w@ =~= old(w)@ + self.wire());
    }

    /// The answer to a ping.
    pub fn from_ping(ping: &Ping) -> (m: Self)
        ensures
            m == (Pong { id: ping.id, timestamp: ping.timestamp }),
    {
        Self { id: ping.id, timestamp: ping.timestamp }
    }
}

/// A pong reads back as it was written, whatever follows it.
#[verifier::rlimit(50)]
#[verifier::spinoff_prover]
pub proof fn pong_round_trip(m: Pong, tail: Seq<u8>)
    ensures
        Pong::parse(m.wire() + tail) == Ok::<Pong, ProtoError>(m),
{
    reveal_with_fuel(wire::short_from, 3);
    let s = m.wire() + tail;
    wire::lemma_lengths();
    assert(wire::u32_at(s, 0) == m.id) by {
        broadcast use wire::group_parts;

        assert(s.subrange(0, 4) == wire::le32(m.id));
        wire::u32_at_le32(s, 0, m.id);
    }
    assert(wire::u64_at(s, 4) == m.timestamp) by {
        broadcast use wire::group_parts;

        assert(s.subrange(4, 12) == wire::le64(m.timestamp));
        wire::u64_at_le64(s, 4, m.timestamp);
    }
}

/// `SPICE_MSG_DISCONNECTING` / `SPICE_MSGC_DISCONNECTING`.
#[derive(Debug, Clone, Copy, PartialEq, Eq, Structural)]
pub struct Disconnecting {
    pub time_stamp: u64,
    pub reason: u32,
}

impl Disconnecting {
    /// The disconnecting message whose bytes start at `i`.
    pub open spec fn spec_at(s: Seq<u8>, i: int) -> Disconnecting {
        Disconnecting {
            time_stamp: wire::u64_at(s, i),
            reason: wire::u32_at(s, i + 8),
        }
    }

    /// The bytes of a disconnecting message.
    pub open spec fn wire(self) -> Seq<u8> {
        wire::le64(self.time_stamp) + wire::le32(self.reason)
    }

    /// What a message body reads as.
    pub open spec fn parse(s: Seq<u8>) -> Result<Disconnecting> {
        match wire::short_in(seq![8, 4], s.len() as int) {
            Some(e) => Err(e),
            None => Ok(Self::spec_at(s, 0)),
        }
    }

    pub fn decode(buf: &[u8]) -> (res: Result<Self>)
        ensures
            res == Self::parse(buf@),
    {
        proof {
            reveal_with_fuel(wire::short_from, 3);
        }
        let mut r = Reader::new(buf);
        Ok(
            Self {
                time_stamp: r.u64()?,
                reason: r.u32()?,
            },
        )
    }

    pub fn encode(&self, w: &mut Writer)
        ensures
            final(w)@ == old(w)@ + self.wire(),
    {
        w.u64(self.time_stamp);
        w.u32(self.reason);
        assert(w@ =~= old(w)@ + self.wire());
    }
}

/// A disconnecting message reads back as it was written, whatever follows it.
#[verifier::rlimit(50)]
#[verifier::spinoff_prover]
pub proof fn disconnecting_round_trip(m: Disconnecting, tail: Seq<u8>)
    ensures
        Disconnecting::parse(m.wire() + tail) == Ok::<Disconnecting, ProtoError>(m),
{
    reveal_with_fuel(wire::short_from, 3);
    let s = m.wire() + tail;
    wire::lemma_lengths();
    assert(wire::u64_at(s, 0) == m.time_stamp) by {
        broadcast use wire::group_parts;

        assert(s.subrange(0, 8) == wire::le64(m.time_stamp));
        wire::u64_at_le64(s, 0, m.time_stamp);
    }
    assert(wire::u32_at(s, 8) == m.reason) by {
        broadcast use wire::group_parts;

        assert(s.subrange(8, 12) == wire::le32(m.reason));
        wire::u32_at_le32(s, 8, m.reason);
    }
}

/// `SPICE_MSG_PING`: server-initiated latency probe. A fixed 12-byte header is
/// followed by an arbitrary opaque payload.
#[derive(Debug, Clone, PartialEq, Eq)]
pub struct Ping {
    pub id: u32,
    pub timestamp: u64,
    pub data: Vec<u8>,
}

impl Ping {
    /// The bytes of a ping.
    pub open spec fn wire(self) -> Seq<u8> {
        wire::le32(self.id) + wire::le64(self.timestamp) + self.data@
    }

    /// A message body reads as `res`.
    pub open spec fn reads(s: Seq<u8>, res: Result<Ping>) -> bool {
        match wire::short_in(seq![4, 8], s.len() as int) {
            Some(e) => res == Err::<Ping, _>(e),
            None => {
                &&& res matches Ok(m)
                &&& m.id == wire::u32_at(s, 0)
                &&& m.timestamp == wire::u64_at(s, 4)
                &&& m.data@ == s.skip(12)
            },
        }
    }

    pub fn decode(buf: &[u8]) -> (res: Result<Self>)
        ensures
            Self::reads(buf@, res),
    {
        proof {
            reveal_with_fuel(wire::short_from, 3);
        }
        let mut r = Reader::new(buf);
        let id: u32 = r.u32()?;
        let timestamp: u64 = r.u64()?;
        let rem: usize = r.remaining();
        let data = slice_to_vec(r.bytes(rem)?);
        assert(data@ =~= buf@.skip(12));
        Ok(Self { id, timestamp, data })
    }

    pub fn encode(&self, w: &mut Writer)
        ensures
            final(w)@ == old(w)@ + self.wire(),
    {
        w.u32(self.id);
        w.u64(self.timestamp);
        w.bytes(self.data.as_slice());
        assert(w@ =~= old(w)@ + self.wire());
    }
}

/// A ping reads back as it was written, its opaque payload byte for byte.
#[verifier::rlimit(50)]
#[verifier::spinoff_prover]
pub proof fn ping_round_trip(m: Ping, res: Result<Ping>)
    requires
        Ping::reads(m.wire(), res),
    ensures
        res matches Ok(n) && n.id == m.id && n.timestamp == m.timestamp && n.data@ == m.data@,
{
    reveal_with_fuel(wire::short_from, 3);
    let s = m.wire();
    wire::lemma_lengths();
    assert(wire::u32_at(s, 0) == m.id) by {
        broadcast use wire::group_parts;

        assert(s.subrange(0, 4) == wire::le32(m.id));
        wire::u32_at_le32(s, 0, m.id);
    }
    assert(wire::u64_at(s, 4) == m.timestamp) by {
        broadcast use wire::group_parts;

        assert(s.subrange(4, 12) == wire::le64(m.timestamp));
        wire::u64_at_le64(s, 4, m.timestamp);
    }
    assert(s.skip(12) =~= m.data@);
}

} // verus!
