//! The messages of the link handshake.

use vstd::prelude::*;

use crate::proto::enums::LinkError;
use crate::proto::error::{ProtoError, Result};
use crate::proto::layout::{lemma_u32, value};
use crate::proto::link;
use crate::proto::link::{LinkHeader, LinkMess, LinkReply, LinkResult};
use crate::proto::wire;

verus! {

/// The letters `REDQ`.
pub open spec fn redq(s: Seq<u8>) -> bool {
    s[0] == 0x52 && s[1] == 0x45 && s[2] == 0x44 && s[3] == 0x51
}

/// A link header is the letters `REDQ`, the major version, which is 2, the
/// minor version, and the size of what follows.
pub proof fn link_header_layout(h: LinkHeader, s: Seq<u8>)
    ensures
        LinkHeader::parse(s) is Ok <==> s.len() >= 16 && redq(s) && value(s, 4, 4) == 2,
        LinkHeader::parse(s) matches Ok(n) ==> {
            &&& n.major_version == 2
            &&& n.minor_version == value(s, 8, 4)
            &&& n.size == value(s, 12, 4)
        },
        h.wire().len() == 16,
        value(h.wire(), 0, 4) == h.magic,
        value(h.wire(), 4, 4) == h.major_version,
        value(h.wire(), 8, 4) == h.minor_version,
        value(h.wire(), 12, 4) == h.size,
{
    lemma_u32(s, 0);
    lemma_u32(s, 4);
    lemma_u32(s, 8);
    lemma_u32(s, 12);
    wire::lemma_lengths();
    let out = h.wire();
    assert(out.subrange(0, 4) =~= wire::le32(h.magic));
    assert(out.subrange(4, 8) =~= wire::le32(h.major_version));
    assert(out.subrange(8, 12) =~= wire::le32(h.minor_version));
    assert(out.subrange(12, 16) =~= wire::le32(h.size));
    wire::u32_at_le32(out, 0, h.magic);
    wire::u32_at_le32(out, 4, h.major_version);
    wire::u32_at_le32(out, 8, h.minor_version);
    wire::u32_at_le32(out, 12, h.size);
    lemma_u32(out, 0);
    lemma_u32(out, 4);
    lemma_u32(out, 8);
    lemma_u32(out, 12);
}

/// The header that is sent before a message of `size` bytes: `REDQ`, version
/// 2.2, and the size.
pub proof fn sent_link_header_layout(size: u32)
    ensures
        redq(LinkHeader::of_size(size).wire()),
        value(LinkHeader::of_size(size).wire(), 4, 4) == 2,
        value(LinkHeader::of_size(size).wire(), 8, 4) == 2,
        value(LinkHeader::of_size(size).wire(), 12, 4) == size,
{
    let h = LinkHeader::of_size(size);
    link_header_layout(h, h.wire());
    assert(h.magic == 0x51444552);
    let out = h.wire();
    assert(out[0] == 0x52 && out[1] == 0x45 && out[2] == 0x44 && out[3] == 0x51);
}

/// Capability words stand one after another from `i` on.
pub open spec fn words_stand(s: Seq<u8>, i: int, words: Seq<u32>) -> bool {
    &&& i + 4 * words.len() <= s.len()
    &&& forall|k: int| 0 <= k < words.len() ==> #[trigger] words[k] == value(s, i + 4 * k, 4)
}

proof fn lemma_words(s: Seq<u8>, i: int, n: int)
    requires
        0 <= i,
        0 <= n,
    ensures
        link::caps_at(s, i, n) is Ok <==> i + 4 * n <= s.len(),
        link::caps_at(s, i, n) matches Ok(w) ==> w.len() == n && words_stand(s, i, w),
{
    match link::caps_at(s, i, n) {
        Err(_) => {},
        Ok(w) => {
            assert forall|k: int| 0 <= k < w.len() implies #[trigger] w[k] == value(
                s,
                i + 4 * k,
                4,
            ) by {
                lemma_u32(s, i + 4 * k);
            }
        },
    }
}

/// Two lists of capability words of these lengths stand one behind the other
/// from `i` on. Neither has more than 64 words.
pub open spec fn both_fit(s: Seq<u8>, i: nat, common: nat, channel: nat) -> bool {
    common <= 64 && channel <= 64 && i + 4 * common + 4 * channel <= s.len()
}

proof fn lemma_lists(s: Seq<u8>, i: u32, common: u32, channel: u32)
    ensures
        link::cap_lists(s, i, common, channel) is Ok <==> both_fit(
            s,
            i as nat,
            common as nat,
            channel as nat,
        ),
        link::cap_lists(s, i, common, channel) matches Ok((a, b)) ==> {
            &&& a.len() == common
            &&& b.len() == channel
            &&& words_stand(s, i as int, a)
            &&& words_stand(s, i + 4 * common, b)
        },
{
    lemma_words(s, i as int, common as int);
    lemma_words(s, i + 4 * common, channel as int);
}

/// A link message is laid out so.
pub open spec fn link_mess_stands(s: Seq<u8>, m: LinkMess) -> bool {
    let caps = value(s, 14, 4);
    &&& m.connection_id == value(s, 0, 4)
    &&& m.channel_type.code() == s[4]
    &&& m.channel_id == s[5]
    &&& m.common_caps@.len() == value(s, 6, 4)
    &&& m.channel_caps@.len() == value(s, 10, 4)
    &&& words_stand(s, caps as int, m.common_caps@)
    &&& words_stand(s, (caps + 4 * m.common_caps@.len()) as int, m.channel_caps@)
}

/// A link message is the connection, the channel's kind and number, the number
/// of common and of channel capability words, and where these stand.
pub proof fn link_mess_layout(s: Seq<u8>, res: Result<LinkMess>)
    requires
        LinkMess::reads(s, res),
    ensures
        res is Ok <==> {
            &&& s.len() >= 18
            &&& 1 <= s[4] <= 11
            &&& both_fit(s, value(s, 14, 4), value(s, 6, 4), value(s, 10, 4))
        },
        res matches Ok(m) ==> link_mess_stands(s, m),
{
    lemma_u32(s, 0);
    lemma_u32(s, 6);
    lemma_u32(s, 10);
    lemma_u32(s, 14);
    lemma_lists(s, wire::u32_at(s, 14), wire::u32_at(s, 6), wire::u32_at(s, 10));
}

/// A link message is written as it is read, its capability words right behind
/// the 18 bytes before them.
pub proof fn link_mess_is_written_so(m: LinkMess, res: Result<LinkMess>)
    requires
        m.common_caps@.len() <= 64,
        m.channel_caps@.len() <= 64,
        LinkMess::reads(m.wire(), res),
    ensures
        link_mess_stands(m.wire(), m),
        value(m.wire(), 14, 4) == 18,
        m.wire().len() == 18 + 4 * m.common_caps@.len() + 4 * m.channel_caps@.len(),
{
    let out = m.wire();
    assert(out + Seq::<u8>::empty() =~= out);
    link::link_mess_round_trip(m, Seq::empty(), res);
    link_mess_layout(out, res);
    link::link_mess_len(m);
    wire::lemma_lengths();
    assert(out.subrange(14, 18) =~= wire::le32(18));
    wire::u32_at_le32(out, 14, 18);
    lemma_u32(out, 14);
}

/// A link reply is laid out so.
pub open spec fn link_reply_stands(s: Seq<u8>, m: LinkReply) -> bool {
    let caps = value(s, 174, 4);
    &&& m.error.code() == value(s, 0, 4)
    &&& forall|k: int| 0 <= k < 162 ==> #[trigger] m.pub_key@[k] == s[4 + k]
    &&& m.common_caps@.len() == value(s, 166, 4)
    &&& m.channel_caps@.len() == value(s, 170, 4)
    &&& words_stand(s, caps as int, m.common_caps@)
    &&& words_stand(s, (caps + 4 * m.common_caps@.len()) as int, m.channel_caps@)
}

/// A link reply is an error code, the 162 bytes of the key, the number of
/// common and of channel capability words, and where these stand.
pub proof fn link_reply_layout(s: Seq<u8>, res: Result<LinkReply>)
    requires
        LinkReply::reads(s, res),
    ensures
        res is Ok <==> {
            &&& s.len() >= 178
            &&& value(s, 0, 4) <= 9
            &&& both_fit(s, value(s, 174, 4), value(s, 166, 4), value(s, 170, 4))
        },
        res matches Ok(m) ==> link_reply_stands(s, m),
{
    lemma_u32(s, 0);
    lemma_u32(s, 166);
    lemma_u32(s, 170);
    lemma_u32(s, 174);
    lemma_lists(s, wire::u32_at(s, 174), wire::u32_at(s, 166), wire::u32_at(s, 170));
}

/// A link reply is written as it is read, its capability words right behind
/// the 178 bytes before them.
pub proof fn link_reply_is_written_so(m: LinkReply, res: Result<LinkReply>)
    requires
        m.common_caps@.len() <= 64,
        m.channel_caps@.len() <= 64,
        LinkReply::reads(m.wire(), res),
    ensures
        link_reply_stands(m.wire(), m),
        value(m.wire(), 174, 4) == 178,
        m.wire().len() == 178 + 4 * m.common_caps@.len() + 4 * m.channel_caps@.len(),
{
    let out = m.wire();
    assert(out + Seq::<u8>::empty() =~= out);
    link::link_reply_round_trip(m, Seq::empty(), res);
    link_reply_layout(out, res);
    link::link_reply_len(m);
    wire::lemma_lengths();
    assert(out.subrange(174, 178) =~= wire::le32(178));
    wire::u32_at_le32(out, 174, 178);
    lemma_u32(out, 174);
}

/// The result of a link is one number: 0 for success, and the refusals up to
/// 9.
pub proof fn link_result_layout(r: LinkResult, s: Seq<u8>)
    ensures
        LinkResult::parse(s) is Ok <==> s.len() >= 4 && value(s, 0, 4) <= 9,
        LinkResult::parse(s) matches Ok(n) ==> n.0.code() == value(s, 0, 4),
        LinkResult::parse(s) == Ok::<LinkResult, ProtoError>(LinkResult(LinkError::Success)) <==> {
            s.len() >= 4 && value(s, 0, 4) == 0
        },
        r.wire().len() == 4,
        value(r.wire(), 0, 4) == r.0.code(),
{
    lemma_u32(s, 0);
    let out = r.wire();
    assert(out.subrange(0, 4) =~= out);
    wire::u32_at_le32(out, 0, r.0.code());
    lemma_u32(out, 0);
}

} // verus!
