//! SPICE link handshake messages.
//!
//! Flow:
//!
//! ```text
//! client -> server :  LinkHeader + LinkMess + caps[]
//! server -> client :  LinkHeader + LinkReply + caps[]
//! client -> server :  encrypted ticket (128 bytes, RSA1024)
//! server -> client :  LinkResult (u32 error)
//! ```

use vstd::array::array_as_slice;
use vstd::prelude::*;
use vstd::slice::slice_subrange;

use crate::proto::enums::{
    ChannelType, LinkError, SPICE_MAGIC, SPICE_TICKET_PUBKEY_BYTES, SPICE_VERSION_MAJOR,
    SPICE_VERSION_MINOR,
};
use crate::proto::error::{ProtoError, Result};
use crate::proto::limits;
use crate::proto::limits::{bounded_count, MAX_CAPS_ENTRIES};
use crate::proto::types::{push_le32, Reader};
use crate::proto::wire;

verus! {

pub const LINK_HEADER_SIZE: usize = 16;

pub const LINK_MESS_FIXED_SIZE: usize = 18;

pub const LINK_REPLY_FIXED_SIZE: usize = 178;

pub const LINK_RESULT_SIZE: usize = 4;

pub const ENCRYPTED_TICKET_SIZE: usize = 128;

/// Prefixes every message during the link handshake.
#[derive(Debug, Clone, Copy, PartialEq, Eq, Structural)]
pub struct LinkHeader {
    pub magic: u32,
    pub major_version: u32,
    pub minor_version: u32,
    /// Length (in bytes) of the payload that follows this header.
    pub size: u32,
}

impl LinkHeader {
    /// The header of a payload of `size` bytes.
    pub open spec fn of_size(size: u32) -> LinkHeader {
        LinkHeader {
            magic: SPICE_MAGIC,
            major_version: SPICE_VERSION_MAJOR,
            minor_version: SPICE_VERSION_MINOR,
            size,
        }
    }

    /// The sixteen bytes of a header.
    pub open spec fn wire(self) -> Seq<u8> {
        wire::le32(self.magic) + wire::le32(self.major_version) + wire::le32(self.minor_version)
            + wire::le32(self.size)
    }

    /// What the first sixteen bytes read as. The magic and the major version
    /// have to be the ones spoken here.
    pub open spec fn parse(s: Seq<u8>) -> Result<LinkHeader> {
        if s.len() < LINK_HEADER_SIZE {
            Err(ProtoError::Short { need: LINK_HEADER_SIZE, have: s.len() as usize })
        } else if wire::u32_at(s, 0) != SPICE_MAGIC {
            Err(ProtoError::BadMagic { expected: SPICE_MAGIC, got: wire::u32_at(s, 0) })
        } else if wire::u32_at(s, 4) != SPICE_VERSION_MAJOR {
            Err(ProtoError::BadVersion { major: wire::u32_at(s, 4), minor: wire::u32_at(s, 8) })
        } else {
            Ok(
                LinkHeader {
                    magic: wire::u32_at(s, 0),
                    major_version: wire::u32_at(s, 4),
                    minor_version: wire::u32_at(s, 8),
                    size: wire::u32_at(s, 12),
                },
            )
        }
    }

    pub fn new(size: u32) -> (h: Self)
        ensures
            h == Self::of_size(size),
    {
        Self {
            magic: SPICE_MAGIC,
            major_version: SPICE_VERSION_MAJOR,
            minor_version: SPICE_VERSION_MINOR,
            size,
        }
    }

    pub fn decode(buf: &[u8]) -> (r: Result<Self>)
        ensures
            r == Self::parse(buf@),
    {
        if buf.len() < LINK_HEADER_SIZE {
            return Err(ProtoError::Short { need: LINK_HEADER_SIZE, have: buf.len() });
        }
        let mut r = Reader::new(buf);
        let magic: u32 = r.u32()?;
        if magic != SPICE_MAGIC {
            return Err(ProtoError::BadMagic { expected: SPICE_MAGIC, got: magic });
        }
        let major_version: u32 = r.u32()?;
        let minor_version: u32 = r.u32()?;
        if major_version != SPICE_VERSION_MAJOR {
            return Err(ProtoError::BadVersion { major: major_version, minor: minor_version });
        }
        let size: u32 = r.u32()?;
        Ok(Self { magic, major_version, minor_version, size })
    }

    pub fn encode(&self, out: &mut Vec<u8>)
        ensures
            final(out)@ == old(out)@ + self.wire(),
    {
        push_le32(out, self.magic);
        push_le32(out, self.major_version);
        push_le32(out, self.minor_version);
        push_le32(out, self.size);
        assert(out@ =~= old(out)@ + self.wire());
    }
}

/// A header with the magic and major version spoken here reads back as it was
/// written, whatever follows it; one with another is refused.
#[verifier::rlimit(50)]
#[verifier::spinoff_prover]
pub proof fn link_header_round_trip(h: LinkHeader, tail: Seq<u8>)
    ensures
        h.wire().len() == LINK_HEADER_SIZE,
        LinkHeader::parse(h.wire() + tail) == (if h.magic != SPICE_MAGIC {
            Err(ProtoError::BadMagic { expected: SPICE_MAGIC, got: h.magic })
        } else if h.major_version != SPICE_VERSION_MAJOR {
            Err(ProtoError::BadVersion { major: h.major_version, minor: h.minor_version })
        } else {
            Ok(h)
        }),
{
    let s = h.wire() + tail;
    wire::lemma_lengths();
    assert(wire::u32_at(s, 0) == h.magic) by {
        broadcast use wire::group_parts;

        assert(s.subrange(0, 4) == wire::le32(h.magic));
        wire::u32_at_le32(s, 0, h.magic);
    }
    assert(wire::u32_at(s, 4) == h.major_version) by {
        broadcast use wire::group_parts;

        assert(s.subrange(4, 8) == wire::le32(h.major_version));
        wire::u32_at_le32(s, 4, h.major_version);
    }
    assert(wire::u32_at(s, 8) == h.minor_version) by {
        broadcast use wire::group_parts;

        assert(s.subrange(8, 12) == wire::le32(h.minor_version));
        wire::u32_at_le32(s, 8, h.minor_version);
    }
    assert(wire::u32_at(s, 12) == h.size) by {
        broadcast use wire::group_parts;

        assert(s.subrange(12, 16) == wire::le32(h.size));
        wire::u32_at_le32(s, 12, h.size);
    }
}

/// The `count` capability words at `offset`.
pub open spec fn caps_at(s: Seq<u8>, offset: int, count: int) -> Result<Seq<u32>> {
    if offset + 4 * count > s.len() {
        Err(
            ProtoError::BadCapsOffset {
                offset: (offset % 4294967296) as u32,
                len: s.len() as usize,
            },
        )
    } else {
        Ok(Seq::new(count as nat, |k: int| wire::u32_at(s, offset + 4 * k)))
    }
}

/// The two lists of capability words, one behind the other, at `offset`. Each
/// count is bounded before its list is read.
pub open spec fn cap_lists(s: Seq<u8>, offset: u32, common: u32, channel: u32) -> Result<
    (Seq<u32>, Seq<u32>),
> {
    match limits::bounded(common, MAX_CAPS_ENTRIES) {
        Err(e) => Err(e),
        Ok(n) => match caps_at(s, offset as int, n as int) {
            Err(e) => Err(e),
            Ok(common_caps) => match limits::bounded(channel, MAX_CAPS_ENTRIES) {
                Err(e) => Err(e),
                Ok(m) => match caps_at(s, offset + 4 * n, m as int) {
                    Err(e) => Err(e),
                    Ok(channel_caps) => Ok((common_caps, channel_caps)),
                },
            },
        },
    }
}

/// The bytes of capability words.
pub open spec fn caps_wire(caps: Seq<u32>) -> Seq<u8>
    decreases caps.len(),
{
    if caps.len() == 0 {
        Seq::empty()
    } else {
        caps_wire(caps.drop_last()) + wire::le32(caps.last())
    }
}

fn read_caps(buf: &[u8], offset: u64, count: usize) -> (r: Result<Vec<u32>>)
    requires
        count <= MAX_CAPS_ENTRIES,
        offset <= 4294967295 + 4 * MAX_CAPS_ENTRIES,
    ensures
        match caps_at(buf@, offset as int, count as int) {
            Ok(caps) => r matches Ok(v) && v@ == caps,
            Err(e) => r == Err::<Vec<u32>, ProtoError>(e),
        },
{
    let len: usize = buf.len();
    if offset + 4 * count as u64 > len as u64 {
        return Err(ProtoError::BadCapsOffset { offset: (offset % 4294967296) as u32, len });
    }
    let mut r = Reader::new(slice_subrange(buf, offset as usize, len));
    let mut caps: Vec<u32> = Vec::with_capacity(count);
    let mut i: usize = 0;
    while i < count
        invariant
            i <= count <= MAX_CAPS_ENTRIES,
            offset + 4 * count <= buf@.len() <= usize::MAX,
            r.input() == buf@.subrange(offset as int, buf@.len() as int),
            r.at() == 4 * i,
            caps@ =~= Seq::new(i as nat, |k: int| wire::u32_at(buf@, offset + 4 * k)),
            caps_at(buf@, offset as int, count as int) == Ok::<Seq<u32>, ProtoError>(
                Seq::new(count as nat, |k: int| wire::u32_at(buf@, offset + 4 * k)),
            ),
        decreases count - i,
    {
        caps.push(r.u32()?);
        i = i + 1;
    }
    Ok(caps)
}

fn write_caps(out: &mut Vec<u8>, caps: &[u32])
    ensures
        final(out)@ == old(out)@ + caps_wire(caps@),
{
    let mut i: usize = 0;
    assert(out@ =~= out@ + caps_wire(caps@.take(0)));
    while i < caps.len()
        invariant
            i <= caps@.len(),
            out@ == old(out)@ + caps_wire(caps@.take(i as int)),
        decreases caps@.len() - i,
    {
        push_le32(out, caps[i]);
        assert(caps@.take(i + 1).drop_last() =~= caps@.take(i as int));
        assert(out@ =~= old(out)@ + caps_wire(caps@.take(i + 1)));
        i = i + 1;
    }
    assert(caps@.take(i as int) =~= caps@);
}

proof fn lemma_caps_wire(caps: Seq<u32>, k: int)
    requires
        0 <= k < caps.len(),
    ensures
        caps_wire(caps).len() == 4 * caps.len(),
        wire::u32_at(caps_wire(caps), 4 * k) == caps[k],
    decreases caps.len(),
{
    let front = caps_wire(caps.drop_last());
    let last = wire::le32(caps.last());
    let s = front + last;
    lemma_caps_wire_len(caps);
    lemma_caps_wire_len(caps.drop_last());
    if k < caps.len() - 1 {
        lemma_caps_wire(caps.drop_last(), k);
        assert(s[4 * k] == front[4 * k]);
        assert(s[4 * k + 1] == front[4 * k + 1]);
        assert(s[4 * k + 2] == front[4 * k + 2]);
        assert(s[4 * k + 3] == front[4 * k + 3]);
    } else {
        assert(s.subrange(4 * k, 4 * k + 4) =~= last);
        wire::u32_at_le32(s, 4 * k, caps.last());
    }
}

proof fn lemma_caps_wire_len(caps: Seq<u32>)
    ensures
        caps_wire(caps).len() == 4 * caps.len(),
    decreases caps.len(),
{
    if caps.len() > 0 {
        lemma_caps_wire_len(caps.drop_last());
    }
}

/// Capability words read back as they were written, wherever they stand.
proof fn lemma_caps_at(head: Seq<u8>, caps: Seq<u32>, tail: Seq<u8>)
    ensures
        caps_at(head + (caps_wire(caps) + tail), head.len() as int, caps.len() as int) == Ok::<
            Seq<u32>,
            ProtoError,
        >(caps),
{
    let w = caps_wire(caps);
    let s = head + (w + tail);
    let n = head.len() as int;
    lemma_caps_wire_len(caps);
    let got = Seq::new(caps.len(), |k: int| wire::u32_at(s, n + 4 * k));
    assert forall|k: int| 0 <= k < caps.len() implies got[k] == caps[k] by {
        lemma_caps_wire(caps, k);
        assert((w + tail)[4 * k] == w[4 * k]);
        assert((w + tail)[4 * k + 1] == w[4 * k + 1]);
        assert((w + tail)[4 * k + 2] == w[4 * k + 2]);
        assert((w + tail)[4 * k + 3] == w[4 * k + 3]);
        wire::lemma_shifted(head, w + tail, 4 * k);
    }
    assert(got =~= caps);
}

/// Both lists read back as they were written behind `head`.
proof fn lemma_cap_lists(head: Seq<u8>, common: Seq<u32>, channel: Seq<u32>, tail: Seq<u8>)
    requires
        head.len() <= 1000,
        common.len() <= MAX_CAPS_ENTRIES,
        channel.len() <= MAX_CAPS_ENTRIES,
    ensures
        cap_lists(
            head + caps_wire(common) + caps_wire(channel) + tail,
            head.len() as u32,
            common.len() as u32,
            channel.len() as u32,
        ) == Ok::<(Seq<u32>, Seq<u32>), ProtoError>((common, channel)),
{
    let a = caps_wire(common);
    let b = caps_wire(channel);
    let s = head + a + b + tail;
    assert(s =~= head + (a + (b + tail)));
    assert(s =~= (head + a) + (b + tail));
    lemma_caps_wire_len(common);
    lemma_caps_at(head, common, b + tail);
    lemma_caps_at(head + a, channel, tail);
}

/// How many bytes a message with these lists takes, as a `usize`.
pub open spec fn total_len(fixed: usize, common: Seq<u32>, channel: Seq<u32>) -> int {
    fixed + 4 * (common.len() + channel.len())
}

/// Client -> server. Selects the channel the connection should be attached to
/// and advertises the capabilities the client supports.
#[derive(Debug, Clone, PartialEq, Eq)]
pub struct LinkMess {
    pub connection_id: u32,
    pub channel_type: ChannelType,
    pub channel_id: u8,
    pub common_caps: Vec<u32>,
    pub channel_caps: Vec<u32>,
}

impl LinkMess {
    /// The fixed part.
    pub open spec fn fixed_wire(self) -> Seq<u8> {
        wire::le32(self.connection_id) + seq![self.channel_type.code()] + seq![self.channel_id]
            + wire::le32((self.common_caps@.len() % 4294967296) as u32) + wire::le32(
            (self.channel_caps@.len() % 4294967296) as u32,
        ) + wire::le32(18)
    }

    /// The bytes of a link message.
    pub open spec fn wire(self) -> Seq<u8> {
        self.fixed_wire() + caps_wire(self.common_caps@) + caps_wire(self.channel_caps@)
    }

    /// A payload reads as `res`.
    pub open spec fn reads(s: Seq<u8>, res: Result<LinkMess>) -> bool {
        if s.len() < LINK_MESS_FIXED_SIZE {
            res == Err::<LinkMess, _>(
                ProtoError::Short { need: LINK_MESS_FIXED_SIZE, have: s.len() as usize },
            )
        } else {
            match ChannelType::of(s[4]) {
                Err(e) => res == Err::<LinkMess, _>(e),
                Ok(channel_type) => match cap_lists(
                    s,
                    wire::u32_at(s, 14),
                    wire::u32_at(s, 6),
                    wire::u32_at(s, 10),
                ) {
                    Err(e) => res == Err::<LinkMess, _>(e),
                    Ok((common_caps, channel_caps)) => {
                        &&& res matches Ok(m)
                        &&& m.connection_id == wire::u32_at(s, 0)
                        &&& m.channel_type == channel_type
                        &&& m.channel_id == s[5]
                        &&& m.common_caps@ == common_caps
                        &&& m.channel_caps@ == channel_caps
                    },
                },
            }
        }
    }

    /// Size of the encoded message, including the trailing caps arrays.
    pub fn encoded_len(&self) -> (n: usize)
        requires
            total_len(LINK_MESS_FIXED_SIZE, self.common_caps@, self.channel_caps@) <= usize::MAX,
        ensures
            n == self.wire().len(),
            n == total_len(LINK_MESS_FIXED_SIZE, self.common_caps@, self.channel_caps@),
    {
        proof {
            link_mess_len(*self);
        }
        LINK_MESS_FIXED_SIZE + 4 * (self.common_caps.len() + self.channel_caps.len())
    }

    pub fn decode(buf: &[u8]) -> (res: Result<Self>)
        ensures
            Self::reads(buf@, res),
    {
        if buf.len() < LINK_MESS_FIXED_SIZE {
            return Err(ProtoError::Short { need: LINK_MESS_FIXED_SIZE, have: buf.len() });
        }
        let mut r = Reader::new(buf);
        let connection_id: u32 = r.u32()?;
        let channel_type = ChannelType::from_u8(r.u8()?)?;
        let channel_id: u8 = r.u8()?;
        let num_common_caps: u32 = r.u32()?;
        let num_channel_caps: u32 = r.u32()?;
        let caps_offset: u32 = r.u32()?;
        let n: usize = bounded_count(num_common_caps, MAX_CAPS_ENTRIES)?;
        let common_caps = read_caps(buf, caps_offset as u64, n)?;
        let m: usize = bounded_count(num_channel_caps, MAX_CAPS_ENTRIES)?;
        let channel_caps = read_caps(buf, caps_offset as u64 + 4 * n as u64, m)?;
        Ok(Self { connection_id, channel_type, channel_id, common_caps, channel_caps })
    }

    pub fn encode(&self, out: &mut Vec<u8>)
        ensures
            final(out)@ == old(out)@ + self.wire(),
    {
        let ghost start = out@;
        push_le32(out, self.connection_id);
        out.push(self.channel_type.to_u8());
        out.push(self.channel_id);
        push_le32(out, (self.common_caps.len() as u64 % 4294967296) as u32);
        push_le32(out, (self.channel_caps.len() as u64 % 4294967296) as u32);
        push_le32(out, 18);
        assert(out@ =~= start + self.fixed_wire());
        write_caps(out, self.common_caps.as_slice());
        write_caps(out, self.channel_caps.as_slice());
        assert(out@ =~= start + self.wire());
    }
}

/// How many bytes a link message takes.
pub proof fn link_mess_len(m: LinkMess)
    ensures
        m.wire().len() == total_len(LINK_MESS_FIXED_SIZE, m.common_caps@, m.channel_caps@),
{
    wire::lemma_lengths();
    lemma_caps_wire_len(m.common_caps@);
    lemma_caps_wire_len(m.channel_caps@);
}

/// How many bytes a reply takes.
pub proof fn link_reply_len(m: LinkReply)
    ensures
        m.wire().len() == total_len(LINK_REPLY_FIXED_SIZE, m.common_caps@, m.channel_caps@),
{
    wire::lemma_lengths();
    lemma_caps_wire_len(m.common_caps@);
    lemma_caps_wire_len(m.channel_caps@);
}

/// Three parts and what follows them.
proof fn lemma_three_parts(a: Seq<u8>, b: Seq<u8>, c: Seq<u8>, t: Seq<u8>)
    ensures
        a + b + c + t == a + (b + c + t),
{
    assert(a + b + c + t =~= a + (b + c + t));
}

#[verifier::rlimit(50)]
#[verifier::spinoff_prover]
proof fn lemma_mess_fixed(m: LinkMess, rest: Seq<u8>)
    requires
        m.common_caps@.len() <= MAX_CAPS_ENTRIES,
        m.channel_caps@.len() <= MAX_CAPS_ENTRIES,
    ensures
        m.fixed_wire().len() == LINK_MESS_FIXED_SIZE,
        ({
            let s = m.fixed_wire() + rest;
            &&& wire::u32_at(s, 0) == m.connection_id
            &&& s[4] == m.channel_type.code()
            &&& s[5] == m.channel_id
            &&& wire::u32_at(s, 6) == m.common_caps@.len()
            &&& wire::u32_at(s, 10) == m.channel_caps@.len()
            &&& wire::u32_at(s, 14) == 18
        }),
{
    wire::lemma_lengths();
    let s = m.fixed_wire() + rest;
    let n1 = m.common_caps@.len() as u32;
    let n2 = m.channel_caps@.len() as u32;
    assert(s.subrange(0, 4) == wire::le32(m.connection_id) && s.subrange(6, 10) == wire::le32(n1)
        && s.subrange(10, 14) == wire::le32(n2) && s.subrange(14, 18) == wire::le32(18)) by {
        broadcast use wire::group_parts;

    }
    assert(wire::u32_at(s, 0) == m.connection_id) by {
        wire::u32_at_le32(s, 0, m.connection_id);
    }
    assert(wire::u32_at(s, 6) == n1) by {
        wire::u32_at_le32(s, 6, n1);
    }
    assert(wire::u32_at(s, 10) == n2) by {
        wire::u32_at_le32(s, 10, n2);
    }
    assert(wire::u32_at(s, 14) == 18) by {
        wire::u32_at_le32(s, 14, 18);
    }
}

proof fn lemma_mess_reads(m: LinkMess, s: Seq<u8>, res: Result<LinkMess>)
    requires
        s.len() >= LINK_MESS_FIXED_SIZE,
        wire::u32_at(s, 0) == m.connection_id,
        s[4] == m.channel_type.code(),
        s[5] == m.channel_id,
        cap_lists(s, wire::u32_at(s, 14), wire::u32_at(s, 6), wire::u32_at(s, 10)) == Ok::<
            (Seq<u32>, Seq<u32>),
            ProtoError,
        >((m.common_caps@, m.channel_caps@)),
        LinkMess::reads(s, res),
    ensures
        res matches Ok(n) && n.connection_id == m.connection_id && n.channel_type == m.channel_type
            && n.channel_id == m.channel_id && n.common_caps@ == m.common_caps@
            && n.channel_caps@ == m.channel_caps@,
{
}

/// A link message whose lists are within the cap reads back as it was written,
/// whatever follows it.
#[verifier::rlimit(50)]
#[verifier::spinoff_prover]
pub proof fn link_mess_round_trip(m: LinkMess, tail: Seq<u8>, res: Result<LinkMess>)
    requires
        m.common_caps@.len() <= MAX_CAPS_ENTRIES,
        m.channel_caps@.len() <= MAX_CAPS_ENTRIES,
        LinkMess::reads(m.wire() + tail, res),
    ensures
        res matches Ok(n) && n.connection_id == m.connection_id && n.channel_type == m.channel_type
            && n.channel_id == m.channel_id && n.common_caps@ == m.common_caps@
            && n.channel_caps@ == m.channel_caps@,
{
    let fixed = m.fixed_wire();
    let a = caps_wire(m.common_caps@);
    let b = caps_wire(m.channel_caps@);
    let s = m.wire() + tail;
    lemma_three_parts(fixed, a, b, tail);
    lemma_mess_fixed(m, a + b + tail);
    lemma_cap_lists(fixed, m.common_caps@, m.channel_caps@, tail);
    lemma_mess_reads(m, s, res);
}

/// Server -> client. Reports whether the link is accepted and returns the RSA
/// public key used to encrypt the auth ticket.
#[derive(Debug, Clone, PartialEq, Eq)]
pub struct LinkReply {
    pub error: LinkError,
    pub pub_key: [u8; SPICE_TICKET_PUBKEY_BYTES],
    pub common_caps: Vec<u32>,
    pub channel_caps: Vec<u32>,
}

impl LinkReply {
    /// The fixed part.
    pub open spec fn fixed_wire(self) -> Seq<u8> {
        wire::le32(self.error.code()) + self.pub_key@ + wire::le32(
            (self.common_caps@.len() % 4294967296) as u32,
        ) + wire::le32((self.channel_caps@.len() % 4294967296) as u32) + wire::le32(178)
    }

    /// The bytes of a reply.
    pub open spec fn wire(self) -> Seq<u8> {
        self.fixed_wire() + caps_wire(self.common_caps@) + caps_wire(self.channel_caps@)
    }

    /// A payload reads as `res`.
    pub open spec fn reads(s: Seq<u8>, res: Result<LinkReply>) -> bool {
        if s.len() < LINK_REPLY_FIXED_SIZE {
            res == Err::<LinkReply, _>(
                ProtoError::Short { need: LINK_REPLY_FIXED_SIZE, have: s.len() as usize },
            )
        } else {
            match LinkError::of(wire::u32_at(s, 0)) {
                Err(e) => res == Err::<LinkReply, _>(e),
                Ok(error) => match cap_lists(
                    s,
                    wire::u32_at(s, 174),
                    wire::u32_at(s, 166),
                    wire::u32_at(s, 170),
                ) {
                    Err(e) => res == Err::<LinkReply, _>(e),
                    Ok((common_caps, channel_caps)) => {
                        &&& res matches Ok(m)
                        &&& m.error == error
                        &&& m.pub_key@ == s.subrange(4, 166)
                        &&& m.common_caps@ == common_caps
                        &&& m.channel_caps@ == channel_caps
                    },
                },
            }
        }
    }

    /// Size of the encoded message, including the trailing caps arrays.
    pub fn encoded_len(&self) -> (n: usize)
        requires
            total_len(LINK_REPLY_FIXED_SIZE, self.common_caps@, self.channel_caps@) <= usize::MAX,
        ensures
            n == self.wire().len(),
            n == total_len(LINK_REPLY_FIXED_SIZE, self.common_caps@, self.channel_caps@),
    {
        proof {
            link_reply_len(*self);
        }
        LINK_REPLY_FIXED_SIZE + 4 * (self.common_caps.len() + self.channel_caps.len())
    }

    pub fn decode(buf: &[u8]) -> (res: Result<Self>)
        ensures
            Self::reads(buf@, res),
    {
        if buf.len() < LINK_REPLY_FIXED_SIZE {
            return Err(ProtoError::Short { need: LINK_REPLY_FIXED_SIZE, have: buf.len() });
        }
        let mut r = Reader::new(buf);
        let error = LinkError::from_u32(r.u32()?)?;
        let key = r.bytes(SPICE_TICKET_PUBKEY_BYTES)?;
        let pub_key = key_array(key);
        let num_common_caps: u32 = r.u32()?;
        let num_channel_caps: u32 = r.u32()?;
        let caps_offset: u32 = r.u32()?;
        let n: usize = bounded_count(num_common_caps, MAX_CAPS_ENTRIES)?;
        let common_caps = read_caps(buf, caps_offset as u64, n)?;
        let m: usize = bounded_count(num_channel_caps, MAX_CAPS_ENTRIES)?;
        let channel_caps = read_caps(buf, caps_offset as u64 + 4 * n as u64, m)?;
        Ok(Self { error, pub_key, common_caps, channel_caps })
    }

    pub fn encode(&self, out: &mut Vec<u8>)
        ensures
            final(out)@ == old(out)@ + self.wire(),
    {
        let ghost start = out@;
        push_le32(out, self.error.to_u32());
        out.extend_from_slice(array_as_slice(&self.pub_key));
        push_le32(out, (self.common_caps.len() as u64 % 4294967296) as u32);
        push_le32(out, (self.channel_caps.len() as u64 % 4294967296) as u32);
        push_le32(out, 178);
        assert(out@ =~= start + self.fixed_wire());
        write_caps(out, self.common_caps.as_slice());
        write_caps(out, self.channel_caps.as_slice());
        assert(out@ =~= start + self.wire());
    }
}

/// The bytes of a public key, as an array.
pub(crate) fn key_array(key: &[u8]) -> (a: [u8; SPICE_TICKET_PUBKEY_BYTES])
    requires
        key@.len() == SPICE_TICKET_PUBKEY_BYTES,
    ensures
        a@ == key@,
{
    let mut a: [u8; SPICE_TICKET_PUBKEY_BYTES] = [0u8; SPICE_TICKET_PUBKEY_BYTES];
    let mut i: usize = 0;
    while i < SPICE_TICKET_PUBKEY_BYTES
        invariant
            i <= SPICE_TICKET_PUBKEY_BYTES,
            key@.len() == SPICE_TICKET_PUBKEY_BYTES,
            a@.len() == SPICE_TICKET_PUBKEY_BYTES,
            forall|k: int| 0 <= k < i ==> a@[k] == key@[k],
        decreases SPICE_TICKET_PUBKEY_BYTES - i,
    {
        a[i] = key[i];
        i = i + 1;
    }
    assert(a@ =~= key@);
    a
}

#[verifier::rlimit(50)]
#[verifier::spinoff_prover]
proof fn lemma_reply_fixed(m: LinkReply, rest: Seq<u8>)
    requires
        m.common_caps@.len() <= MAX_CAPS_ENTRIES,
        m.channel_caps@.len() <= MAX_CAPS_ENTRIES,
    ensures
        m.fixed_wire().len() == LINK_REPLY_FIXED_SIZE,
        ({
            let s = m.fixed_wire() + rest;
            &&& wire::u32_at(s, 0) == m.error.code()
            &&& s.subrange(4, 166) == m.pub_key@
            &&& wire::u32_at(s, 166) == m.common_caps@.len()
            &&& wire::u32_at(s, 170) == m.channel_caps@.len()
            &&& wire::u32_at(s, 174) == 178
        }),
{
    wire::lemma_lengths();
    let s = m.fixed_wire() + rest;
    let n1 = m.common_caps@.len() as u32;
    let n2 = m.channel_caps@.len() as u32;
    let code = m.error.code();
    assert(m.pub_key@.len() == 162);
    assert(s.subrange(0, 4) == wire::le32(code) && s.subrange(4, 166) == m.pub_key@ && s.subrange(
        166,
        170,
    ) == wire::le32(n1) && s.subrange(170, 174) == wire::le32(n2) && s.subrange(174, 178)
        == wire::le32(178)) by {
        broadcast use wire::group_parts;

    }
    assert(wire::u32_at(s, 0) == code) by {
        wire::u32_at_le32(s, 0, code);
    }
    assert(wire::u32_at(s, 166) == n1) by {
        wire::u32_at_le32(s, 166, n1);
    }
    assert(wire::u32_at(s, 170) == n2) by {
        wire::u32_at_le32(s, 170, n2);
    }
    assert(wire::u32_at(s, 174) == 178) by {
        wire::u32_at_le32(s, 174, 178);
    }
}

proof fn lemma_reply_reads(m: LinkReply, s: Seq<u8>, res: Result<LinkReply>)
    requires
        s.len() >= LINK_REPLY_FIXED_SIZE,
        wire::u32_at(s, 0) == m.error.code(),
        s.subrange(4, 166) == m.pub_key@,
        cap_lists(s, wire::u32_at(s, 174), wire::u32_at(s, 166), wire::u32_at(s, 170)) == Ok::<
            (Seq<u32>, Seq<u32>),
            ProtoError,
        >((m.common_caps@, m.channel_caps@)),
        LinkReply::reads(s, res),
    ensures
        res matches Ok(n) && n.error == m.error && n.pub_key@ == m.pub_key@ && n.common_caps@
            == m.common_caps@ && n.channel_caps@ == m.channel_caps@,
{
}

/// A reply whose lists are within the cap reads back as it was written,
/// whatever follows it.
#[verifier::rlimit(50)]
#[verifier::spinoff_prover]
pub proof fn link_reply_round_trip(m: LinkReply, tail: Seq<u8>, res: Result<LinkReply>)
    requires
        m.common_caps@.len() <= MAX_CAPS_ENTRIES,
        m.channel_caps@.len() <= MAX_CAPS_ENTRIES,
        LinkReply::reads(m.wire() + tail, res),
    ensures
        res matches Ok(n) && n.error == m.error && n.pub_key@ == m.pub_key@ && n.common_caps@
            == m.common_caps@ && n.channel_caps@ == m.channel_caps@,
{
    let fixed = m.fixed_wire();
    let a = caps_wire(m.common_caps@);
    let b = caps_wire(m.channel_caps@);
    let s = m.wire() + tail;
    lemma_three_parts(fixed, a, b, tail);
    lemma_reply_fixed(m, a + b + tail);
    lemma_cap_lists(fixed, m.common_caps@, m.channel_caps@, tail);
    lemma_reply_reads(m, s, res);
}

/// Final u32 sent by the server after the ticket is validated.
#[derive(Debug, Clone, Copy, PartialEq, Eq, Structural)]
pub struct LinkResult(pub LinkError);

impl LinkResult {
    /// The four bytes of a result.
    pub open spec fn wire(self) -> Seq<u8> {
        wire::le32(self.0.code())
    }

    /// What the first four bytes read as.
    pub open spec fn parse(s: Seq<u8>) -> Result<LinkResult> {
        if s.len() < LINK_RESULT_SIZE {
            Err(ProtoError::Short { need: LINK_RESULT_SIZE, have: s.len() as usize })
        } else {
            match LinkError::of(wire::u32_at(s, 0)) {
                Err(e) => Err(e),
                Ok(error) => Ok(LinkResult(error)),
            }
        }
    }

    pub fn decode(buf: &[u8]) -> (r: Result<Self>)
        ensures
            r == Self::parse(buf@),
    {
        if buf.len() < LINK_RESULT_SIZE {
            return Err(ProtoError::Short { need: LINK_RESULT_SIZE, have: buf.len() });
        }
        let mut r = Reader::new(buf);
        Ok(Self(LinkError::from_u32(r.u32()?)?))
    }

    pub fn encode(&self, out: &mut Vec<u8>)
        ensures
            final(out)@ == old(out)@ + self.wire(),
    {
        push_le32(out, self.0.to_u32());
    }
}

/// A result reads back as it was written, whatever follows it.
#[verifier::rlimit(50)]
#[verifier::spinoff_prover]
pub proof fn link_result_round_trip(r: LinkResult, tail: Seq<u8>)
    ensures
        r.wire().len() == LINK_RESULT_SIZE,
        LinkResult::parse(r.wire() + tail) == Ok::<LinkResult, ProtoError>(r),
{
    wire::lemma_lengths();
    let s = r.wire() + tail;
    assert(s.subrange(0, 4) =~= wire::le32(r.0.code()));
    wire::u32_at_le32(s, 0, r.0.code());
}

} // verus!
