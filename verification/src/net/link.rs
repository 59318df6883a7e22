//! Client side of the link handshake.

use vstd::prelude::*;
use vstd::slice::slice_to_vec;
use vstd::string::*;

use crate::net::auth;
use crate::net::auth::encrypt_ticket;
use crate::net::channel::{Channel, DEFAULT_MAX_MESSAGE_SIZE};
use crate::net::error;
use crate::net::error::{lift, NetError, Result};
use crate::proto::caps;
use crate::proto::caps::common::{AUTH_SPICE, MINI_HEADER};
use crate::proto::caps::CapSet;
use crate::proto::enums::{ChannelType, LinkError};
use crate::proto::error::ProtoError;
use crate::proto::limits;
use crate::proto::limits::{bounded_size, MAX_CAPS_ENTRIES, MAX_LINK_PAYLOAD};
use crate::proto::link;
use crate::proto::link::{
    LinkHeader, LinkMess, LinkReply, LinkResult, LINK_MESS_FIXED_SIZE,
};

verus! {

/// Inputs for the client-side handshake.
#[derive(Debug, Clone)]
pub struct LinkOptions<'a> {
    pub connection_id: u32,
    pub channel_type: ChannelType,
    pub channel_id: u8,
    pub password: &'a str,
    pub common_caps: CapSet,
    pub channel_caps: CapSet,
}

/// How long a payload a link header announces. What the peer may announce is
/// capped.
pub open spec fn payload_len(header: Seq<u8>) -> Result<usize> {
    match LinkHeader::parse(header) {
        Err(e) => Err(NetError::Proto(e)),
        Ok(h) => error::lifted(limits::bounded(h.size, MAX_LINK_PAYLOAD)),
    }
}

/// How long a payload a link header announces. A peer that announces more than
/// 4 KiB is refused before anything is allocated for it, on both sides of the
/// handshake.
pub fn link_payload_len(header: &[u8]) -> (r: Result<usize>)
    ensures
        r == payload_len(header@),
{
    let h = lift(LinkHeader::decode(header))?;
    lift(bounded_size(h.size, MAX_LINK_PAYLOAD))
}

/// A link message behind its header.
pub open spec fn hello_wire(mess: LinkMess) -> Seq<u8> {
    LinkHeader::of_size((mess.wire().len() % 4294967296) as u32).wire() + mess.wire()
}

/// Compact headers are used only when both sides advertise them.
pub open spec fn agreed_mini(ours: Seq<u32>, theirs: Seq<u32>) -> bool {
    caps::has_cap(ours, MINI_HEADER) && caps::has_cap(theirs, MINI_HEADER)
}

/// Compact headers are used only when both sides advertise them.
pub fn negotiate_mini_header(ours: &CapSet, theirs: &CapSet) -> (b: bool)
    ensures
        b == agreed_mini(ours.0@, theirs.0@),
{
    ours.has(MINI_HEADER) && theirs.has(MINI_HEADER)
}

/// What a payload says, where the server accepts the link.
pub open spec fn reply_outcome(payload: Seq<u8>, r: Result<LinkReply>) -> bool {
    match r {
        Ok(reply) => {
            &&& LinkReply::reads(payload, Ok(reply))
            &&& reply.error == LinkError::Success
        },
        Err(NetError::Link(e)) => {
            &&& e != LinkError::Success
            &&& exists|reply: LinkReply|
                #![trigger reply.error]
                LinkReply::reads(payload, Ok(reply)) && reply.error == e
        },
        Err(NetError::Proto(e)) => LinkReply::reads(payload, Err(e)),
        Err(_) => false,
    }
}

/// Read the server's reply. A link error in it is an error here.
pub fn read_reply(payload: &[u8]) -> (r: Result<LinkReply>)
    ensures
        reply_outcome(payload@, r),
{
    let reply = lift(LinkReply::decode(payload))?;
    match reply.error {
        LinkError::Success => Ok(reply),
        e => Err(NetError::Link(e)),
    }
}

/// What the final result says, where it is a success.
pub open spec fn result_outcome(bytes: Seq<u8>) -> Result<()> {
    match LinkResult::parse(bytes) {
        Err(e) => Err(NetError::Proto(e)),
        Ok(r) => match r.0 {
            LinkError::Success => Ok(()),
            e => Err(NetError::Link(e)),
        },
    }
}

/// Read the final result. A link error in it is an error here.
pub fn read_result(bytes: &[u8]) -> (r: Result<()>)
    ensures
        r == result_outcome(bytes@),
{
    let result = lift(LinkResult::decode(bytes))?;
    match result.0 {
        LinkError::Success => Ok(()),
        e => Err(NetError::Link(e)),
    }
}

impl<'a> LinkOptions<'a> {
    /// Sensible defaults: advertise `AUTH_SPICE` and `MINI_HEADER`.
    pub fn new(channel_type: ChannelType) -> (o: Self)
        ensures
            o.connection_id == 0,
            o.channel_type == channel_type,
            o.channel_id == 0,
            o.password@ == ""@,
            forall|c: u32| #[trigger]
                caps::has_cap(o.common_caps.0@, c) <==> c == AUTH_SPICE || c == MINI_HEADER,
            o.common_caps.0@ == caps::built(seq![AUTH_SPICE, MINI_HEADER], 2),
            o.channel_caps.0@ == Seq::<u32>::empty(),
    {
        let common_caps = CapSet::with_caps([AUTH_SPICE, MINI_HEADER]);
        let ghost list = [AUTH_SPICE, MINI_HEADER]@;
        assert(list =~= seq![AUTH_SPICE, MINI_HEADER]);
        assert forall|c: u32| #[trigger]
            caps::has_cap(common_caps.0@, c) <==> c == AUTH_SPICE || c == MINI_HEADER by {
            assert(list.contains(c) <==> c == AUTH_SPICE || c == MINI_HEADER) by {
                assert(list[0] == AUTH_SPICE && list[1] == MINI_HEADER);
            }
        }
        Self {
            connection_id: 0,
            channel_type,
            channel_id: 0,
            password: "",
            common_caps,
            channel_caps: CapSet::new(),
        }
    }

    /// The message that asks for this link.
    pub fn mess(&self) -> (m: LinkMess)
        ensures
            m.connection_id == self.connection_id,
            m.channel_type == self.channel_type,
            m.channel_id == self.channel_id,
            m.common_caps@ == self.common_caps.0@,
            m.channel_caps@ == self.channel_caps.0@,
    {
        LinkMess {
            connection_id: self.connection_id,
            channel_type: self.channel_type,
            channel_id: self.channel_id,
            common_caps: slice_to_vec(self.common_caps.words()),
            channel_caps: slice_to_vec(self.channel_caps.words()),
        }
    }

    /// The first bytes that the client sends: link header and message.
    pub fn hello(&self) -> (out: Vec<u8>)
        requires
            link::total_len(LINK_MESS_FIXED_SIZE, self.common_caps.0@, self.channel_caps.0@)
                <= usize::MAX,
        ensures
            exists|m: LinkMess|
                #![trigger m.wire()]
                {
                    &&& out@ == hello_wire(m)
                    &&& m.connection_id == self.connection_id
                    &&& m.channel_type == self.channel_type
                    &&& m.channel_id == self.channel_id
                    &&& m.common_caps@ == self.common_caps.0@
                    &&& m.channel_caps@ == self.channel_caps.0@
                },
    {
        let mess = self.mess();
        let len: usize = mess.encoded_len();
        let mut out: Vec<u8> = Vec::new();
        LinkHeader::new((len as u64 % 4294967296) as u32).encode(&mut out);
        mess.encode(&mut out);
        assert(out@ =~= hello_wire(mess));
        out
    }

    /// Answer the server's reply: the capabilities it advertises, and the
    /// encrypted ticket to send.
    pub fn answer(&self, payload: &[u8]) -> (r: Result<(CapSet, Vec<u8>)>)
        ensures
            exists|reply: Result<LinkReply>|
                #![trigger reply_outcome(payload@, reply)]
                reply_outcome(payload@, reply) && match reply {
                    Err(e) => r == Err::<(CapSet, Vec<u8>), NetError>(e),
                    Ok(reply) => auth::ticket_outcome(
                        reply.pub_key@,
                        self.password.spec_bytes(),
                        match r {
                            Ok((_, ticket)) => Ok(ticket),
                            Err(e) => Err(e),
                        },
                    ) && (r matches Ok((caps, _)) ==> caps.0@ == reply.common_caps@),
                },
    {
        match read_reply(payload) {
            Err(e) => {
                assert(reply_outcome(payload@, Err(e)));
                Err(e)
            },
            Ok(reply) => {
                assert(reply_outcome(payload@, Ok(reply)));
                match encrypt_ticket(&reply.pub_key, self.password) {
                    Err(e) => Err(e),
                    Ok(ticket) => Ok((CapSet(reply.common_caps), ticket)),
                }
            },
        }
    }

    /// End the handshake: the channel, framed as both sides agreed, where the
    /// server's result is a success.
    pub fn finish<S>(&self, stream: S, server_common: &CapSet, result: &[u8]) -> (r: Result<
        Channel<S>,
    >)
        ensures
            match result_outcome(result@) {
                Err(e) => r == Err::<Channel<S>, NetError>(e),
                Ok(_) => {
                    &&& r matches Ok(c)
                    &&& c.stream() == stream
                    &&& c.mini() == agreed_mini(self.common_caps.0@, server_common.0@)
                    &&& c.serial() == 1
                    &&& c.max() == DEFAULT_MAX_MESSAGE_SIZE
                },
            },
    {
        match read_result(result) {
            Err(e) => Err(e),
            Ok(_) => Ok(
                Channel::new(stream, negotiate_mini_header(&self.common_caps, server_common)),
            ),
        }
    }
}

/// A payload behind a header that announces it.
pub proof fn lemma_announced(payload: Seq<u8>)
    requires
        payload.len() <= MAX_LINK_PAYLOAD,
    ensures
        ({
            let s = LinkHeader::of_size((payload.len() % 4294967296) as u32).wire() + payload;
            &&& payload_len(s) == Ok::<usize, NetError>(payload.len() as usize)
            &&& s.len() == 16 + payload.len()
            &&& s.skip(16) == payload
            &&& s.skip(16) == payload + Seq::<u8>::empty()
        }),
{
    let h = LinkHeader::of_size((payload.len() % 4294967296) as u32);
    let w = h.wire();
    link::link_header_round_trip(h, payload);
    assert((w + payload).skip(16) =~= payload) by {
        assert(w.len() == 16);
    }
    assert(payload =~= payload + Seq::<u8>::empty());
}

/// What the client sends first is accepted by the server side: its header
/// announces exactly the message behind it, which reads back as it was sent.
#[verifier::rlimit(50)]
#[verifier::spinoff_prover]
pub proof fn hello_is_read_back(
    m: LinkMess,
    res: std::result::Result<LinkMess, ProtoError>,
)
    requires
        m.common_caps@.len() <= MAX_CAPS_ENTRIES,
        m.channel_caps@.len() <= MAX_CAPS_ENTRIES,
        LinkMess::reads(hello_wire(m).skip(16), res),
    ensures
        payload_len(hello_wire(m)) == Ok::<usize, NetError>(m.wire().len() as usize),
        hello_wire(m).len() == 16 + m.wire().len(),
        res matches Ok(n) && n.connection_id == m.connection_id && n.channel_type == m.channel_type
            && n.channel_id == m.channel_id && n.common_caps@ == m.common_caps@
            && n.channel_caps@ == m.channel_caps@,
{
    link::link_mess_len(m);
    lemma_announced(m.wire());
    link::link_mess_round_trip(m, Seq::empty(), res);
}

/// Both ends agree on the framing: what the client computes from its own
/// capabilities and the server's is what the server computes from its own and
/// the client's.
pub proof fn framing_is_agreed(client: Seq<u32>, server: Seq<u32>)
    ensures
        agreed_mini(client, server) == agreed_mini(server, client),
{
}

/// Whatever a peer announces, before it has shown that it knows the password or
/// after, no more than 4 KiB are read for a link payload.
pub proof fn link_payload_is_capped(header: Seq<u8>)
    ensures
        payload_len(header) matches Ok(n) ==> n <= 4096,
{
}

} // verus!
