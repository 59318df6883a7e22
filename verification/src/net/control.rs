//! Control messages that every channel answers in the same way.

use vstd::prelude::*;

use crate::net::channel::Outgoing;
use crate::proto::common::{AckSync, Ping, Pong, SetAck};
use crate::proto::enums::msgc;
use crate::proto::error::ProtoError;
use crate::proto::types::Writer;
use crate::proto::wire;

verus! {

/// The answer to a ping: its id and timestamp, and not its opaque data.
pub open spec fn pong_for(body: Seq<u8>) -> Result<(u16, Seq<u8>), ProtoError> {
    match wire::short_in(seq![4, 8], body.len() as int) {
        Some(e) => Err(e),
        None => Ok(
            (
                msgc::PONG,
                (Pong { id: wire::u32_at(body, 0), timestamp: wire::u64_at(body, 4) }).wire(),
            ),
        ),
    }
}

/// The answer to a new acknowledgement window: its generation.
pub open spec fn ack_sync_for(body: Seq<u8>) -> Result<(u16, Seq<u8>), ProtoError> {
    match SetAck::parse(body) {
        Err(e) => Err(e),
        Ok(ack) => Ok((msgc::ACK_SYNC, (AckSync { generation: ack.generation }).wire())),
    }
}

/// The acknowledgement that ends a window.
pub open spec fn ack_wire() -> (u16, Seq<u8>) {
    (msgc::ACK, Seq::empty())
}

/// A result is the expected message, or the expected error.
pub open spec fn answers(
    r: Result<Outgoing, ProtoError>,
    expected: Result<(u16, Seq<u8>), ProtoError>,
) -> bool {
    match expected {
        Ok(m) => r matches Ok(o) && o@ == m,
        Err(e) => r == Err::<Outgoing, ProtoError>(e),
    }
}

/// Answer a ping.
pub fn answer_ping(body: &[u8]) -> (r: Result<Outgoing, ProtoError>)
    ensures
        answers(r, pong_for(body@)),
{
    let ping = Ping::decode(body)?;
    let mut w = Writer::new();
    Pong::from_ping(&ping).encode(&mut w);
    let out = Outgoing { msg_type: msgc::PONG, body: w.into_vec() };
    assert(out.body@ =~= (Pong { id: ping.id, timestamp: ping.timestamp }).wire());
    Ok(out)
}

/// Answer a new acknowledgement window.
pub fn answer_set_ack(ack: &SetAck) -> (o: Outgoing)
    ensures
        o@ == (msgc::ACK_SYNC, (AckSync { generation: ack.generation }).wire()),
{
    let mut w = Writer::new();
    let sync = AckSync { generation: ack.generation };
    sync.encode(&mut w);
    let out = Outgoing { msg_type: msgc::ACK_SYNC, body: w.into_vec() };
    assert(out.body@ =~= sync.wire());
    out
}

/// The acknowledgement that ends a window.
pub fn ack_message() -> (o: Outgoing)
    ensures
        o@ == ack_wire(),
{
    let body: Vec<u8> = Vec::new();
    assert(body@ =~= Seq::<u8>::empty());
    Outgoing { msg_type: msgc::ACK, body }
}

proof fn lemma_pong_len(m: Pong)
    ensures
        m.wire().len() == 12,
{
    wire::lemma_lengths();
}

proof fn lemma_head(body: Seq<u8>)
    requires
        body.len() >= 12,
    ensures
        wire::u32_at(body.take(12), 0) == wire::u32_at(body, 0),
        wire::u64_at(body.take(12), 4) == wire::u64_at(body, 4),
{
    let head = body.take(12);
    assert(forall|k: int| 0 <= k < 12 ==> head[k] == body[k]);
    assert(wire::u32_at(head, 0) == wire::u32_at(body, 0));
    assert(wire::u32_at(head, 4) == wire::u32_at(body, 4));
    assert(wire::u32_at(head, 8) == wire::u32_at(body, 8));
}

proof fn lemma_ping_fits(n: int)
    requires
        n >= 12,
    ensures
        wire::short_in(seq![4, 8], n) is None,
{
    reveal_with_fuel(wire::short_from, 3);
}

/// A pong is twelve bytes, the id and the timestamp. What a ping carries beyond
/// these is never echoed.
#[verifier::rlimit(50)]
#[verifier::spinoff_prover]
pub proof fn pong_never_echoes(body: Seq<u8>)
    requires
        body.len() >= 12,
    ensures
        pong_for(body) matches Ok((msg_type, pong)) && msg_type == msgc::PONG && pong.len() == 12,
        pong_for(body) == pong_for(body.take(12)),
{
    let m = Pong { id: wire::u32_at(body, 0), timestamp: wire::u64_at(body, 4) };
    lemma_pong_len(m);
    lemma_head(body);
    lemma_ping_fits(body.len() as int);
    lemma_ping_fits(12);
    assert(body.take(12).len() == 12);
}

} // verus!
