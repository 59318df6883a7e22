//! Messages that hold a list, or bytes up to their end.

use vstd::prelude::*;

use crate::proto::common::Ping;
use crate::proto::display;
use crate::proto::display::{Head, MonitorsConfig};
use crate::proto::error::Result;
use crate::proto::image;
use crate::proto::layout::records;
use crate::proto::layout::{lemma_u16, lemma_u32, lemma_u64, value};
use crate::proto::main_chan;
use crate::proto::main_chan::ChannelsList;
use crate::proto::wire;

verus! {

/// A ping is an id, a time and whatever follows.
pub proof fn ping_layout(m: Ping, s: Seq<u8>, res: Result<Ping>)
    requires
        Ping::reads(s, res),
    ensures
        res is Ok <==> s.len() >= 12,
        res matches Ok(n) ==> {
            &&& n.id == value(s, 0, 4)
            &&& n.timestamp == value(s, 4, 8)
            &&& n.data@.len() == s.len() - 12
            &&& forall|k: int| 0 <= k < n.data@.len() ==> #[trigger] n.data@[k] == s[12 + k]
        },
        m.wire().len() == 12 + m.data@.len(),
        value(m.wire(), 0, 4) == m.id,
        value(m.wire(), 4, 8) == m.timestamp,
        forall|k: int| 0 <= k < m.data@.len() ==> #[trigger] m.wire()[12 + k] == m.data@[k],
{
    reveal_with_fuel(wire::short_from, 3);
    lemma_u32(s, 0);
    lemma_u64(s, 4);
    wire::lemma_lengths();
    let out = m.wire();
    assert(out.subrange(0, 4) =~= wire::le32(m.id));
    assert(out.subrange(4, 12) =~= wire::le64(m.timestamp));
    wire::u32_at_le32(out, 0, m.id);
    wire::u64_at_le64(out, 4, m.timestamp);
    lemma_u32(out, 0);
    lemma_u64(out, 4);
}

/// A list of channels is their number, and two bytes for each: what kind it
/// is, and which of that kind. More than 256 are refused.
pub proof fn channels_list_layout(m: ChannelsList, s: Seq<u8>, res: Result<ChannelsList>)
    requires
        ChannelsList::reads(s, res),
        m.channels@.len() <= u32::MAX,
    ensures
        res is Ok <==> {
            &&& s.len() >= 4
            &&& value(s, 0, 4) <= 256
            &&& s.len() >= 4 + 2 * value(s, 0, 4)
        },
        res matches Ok(n) ==> {
            &&& n.channels@.len() == value(s, 0, 4)
            &&& forall|k: int|
                0 <= k < n.channels@.len() ==> (#[trigger] n.channels@[k]).channel_type == s[4 + 2
                    * k] && n.channels@[k].id == s[5 + 2 * k]
        },
        m.wire().len() == 4 + 2 * m.channels@.len(),
        value(m.wire(), 0, 4) == m.channels@.len(),
        forall|k: int|
            0 <= k < m.channels@.len() ==> (#[trigger] m.channels@[k]).channel_type == m.wire()[4
                + 2 * k] && m.channels@[k].id == m.wire()[5 + 2 * k],
{
    lemma_u32(s, 0);
    wire::lemma_lengths();
    let out = m.wire();
    let n = m.channels@.len() as u32;
    assert(out.subrange(0, 4) =~= wire::le32(n));
    wire::u32_at_le32(out, 0, n);
    lemma_u32(out, 0);
    let ids = main_chan::ids_wire(m.channels@);
    assert forall|k: int| 0 <= k < m.channels@.len() implies (
    #[trigger] m.channels@[k]).channel_type == out[4 + 2 * k] && m.channels@[k].id == out[5 + 2
        * k] by {
        assert(out[4 + 2 * k] == ids[2 * k]);
        assert(out[5 + 2 * k] == ids[2 * k + 1]);
    }
}

/// A monitor head stands at `i`.
pub open spec fn head_stands(s: Seq<u8>, i: int, h: Head) -> bool {
    &&& i + 28 <= s.len()
    &&& h.id == value(s, i, 4)
    &&& h.surface_id == value(s, i + 4, 4)
    &&& h.width == value(s, i + 8, 4)
    &&& h.height == value(s, i + 12, 4)
    &&& h.x == value(s, i + 16, 4)
    &&& h.y == value(s, i + 20, 4)
    &&& h.flags == value(s, i + 24, 4)
}

proof fn lemma_heads(s: Seq<u8>, i: int, n: nat)
    requires
        0 <= i <= s.len(),
    ensures
        display::heads_at(s, i, n) is Ok <==> i + 28 * n <= s.len(),
        display::heads_at(s, i, n) matches Ok(heads) ==> heads.len() == n && forall|k: int|
            0 <= k < n ==> head_stands(s, i + 28 * k, #[trigger] heads[k]),
    decreases n,
{
    if n > 0 {
        lemma_heads(s, i, (n - 1) as nat);
        let at = i + 28 * (n - 1);
        if at <= s.len() {
            records::head_layout(
                Head { id: 0, surface_id: 0, width: 0, height: 0, x: 0, y: 0, flags: 0 },
                s,
                at,
            );
        }
    }
}

/// A monitors-config message is the number of heads, how many there may be,
/// and the heads, 28 bytes each.
pub proof fn monitors_config_layout(s: Seq<u8>, res: Result<MonitorsConfig>)
    requires
        MonitorsConfig::reads(s, res),
    ensures
        res is Ok <==> s.len() >= 4 && s.len() >= 4 + 28 * value(s, 0, 2),
        res matches Ok(m) ==> {
            &&& m.max_allowed == value(s, 2, 2)
            &&& m.heads@.len() == value(s, 0, 2)
            &&& forall|k: int|
                0 <= k < m.heads@.len() ==> head_stands(s, 4 + 28 * k, #[trigger] m.heads@[k])
        },
{
    reveal_with_fuel(wire::short_from, 3);
    lemma_u16(s, 0);
    lemma_u16(s, 2);
    if s.len() >= 4 {
        lemma_heads(s, 4, wire::u16_at(s, 0) as nat);
    }
}

/// A monitors-config message is written as it is read.
pub proof fn monitors_config_is_written_so(
    m: MonitorsConfig,
    res: Result<MonitorsConfig>,
)
    requires
        m.heads@.len() < 65536,
        MonitorsConfig::reads(m.wire(), res),
    ensures
        value(m.wire(), 0, 2) == m.heads@.len(),
        value(m.wire(), 2, 2) == m.max_allowed,
        forall|k: int|
            0 <= k < m.heads@.len() ==> head_stands(m.wire(), 4 + 28 * k, #[trigger] m.heads@[k]),
{
    assert(m.wire() + Seq::<u8>::empty() =~= m.wire());
    display::monitors_config_round_trip(m, Seq::empty(), res);
    monitors_config_layout(m.wire(), res);
}

/// The chunk after the `k`-th starts behind its length and its bytes.
pub open spec fn next_chunk(s: Seq<u8>, starts: Seq<int>, k: int) -> bool {
    &&& starts[k + 1] == starts[k] + 4 + value(s, starts[k], 4)
    &&& starts[k + 1] <= s.len()
}

/// Chunks stand one after another in `s`: each a length and that many bytes,
/// at the places that `starts` gives; the last of these is where they end.
pub open spec fn chunks_stand(s: Seq<u8>, starts: Seq<int>) -> bool {
    &&& starts.len() >= 1
    &&& starts[0] >= 0
    &&& forall|k: int| 0 <= k < starts.len() - 1 ==> #[trigger] next_chunk(s, starts, k)
}

/// The bytes of the `k`-th chunk are in `out`. Before them stand `k + 1`
/// lengths, which are not data.
pub open spec fn chunk_joined(s: Seq<u8>, starts: Seq<int>, k: int, out: Seq<u8>) -> bool {
    &&& 0 <= starts[k] - starts[0] - 4 * k
    &&& starts[k + 1] - starts[0] - 4 * (k + 1) <= out.len()
    &&& forall|j: int|
        starts[k] + 4 <= j < starts[k + 1] ==> #[trigger] s[j] == out[j - starts[0] - 4 * (k + 1)]
}

/// The bytes of chunks, joined, and nothing else.
pub open spec fn joined(s: Seq<u8>, starts: Seq<int>, out: Seq<u8>) -> bool {
    &&& out.len() == starts.last() - starts[0] - 4 * (starts.len() - 1)
    &&& forall|k: int| 0 <= k < starts.len() - 1 ==> #[trigger] chunk_joined(s, starts, k, out)
}

proof fn lemma_chunks(s: Seq<u8>, i: int, n: nat, before: Seq<u8>) -> (starts: Seq<int>)
    requires
        0 <= i,
    ensures
        image::chunks_at(s, i, n, before) matches Ok(out) ==> {
            &&& starts.len() == n + 1
            &&& starts[0] == i
            &&& chunks_stand(s, starts)
            &&& out.len() >= before.len()
            &&& joined(s, starts, out.skip(before.len() as int))
            &&& out.take(before.len() as int) == before
        },
    decreases n,
{
    if n == 0 {
        assert(before.skip(before.len() as int).len() == 0);
        assert(before.take(before.len() as int) =~= before);
        seq![i]
    } else {
        lemma_u32(s, i);
        let len = value(s, i, 4) as int;
        if i + 4 > s.len() || i + 4 + len > s.len() {
            seq![i]
        } else {
            let part = s.subrange(i + 4, i + 4 + len);
            let rest = lemma_chunks(s, i + 4 + len, (n - 1) as nat, before + part);
            let starts = seq![i] + rest;
            match image::chunks_at(s, i, n, before) {
                Err(_) => {},
                Ok(out) => {
                    lemma_one_more(s, i, before, part, rest, out);
                },
            }
            starts
        }
    }
}

proof fn lemma_further_chunk(
    s: Seq<u8>,
    i: int,
    rest: Seq<int>,
    k: int,
    out: Seq<u8>,
    held: nat,
    more: nat,
)
    requires
        0 <= k < rest.len() - 1,
        rest[0] == i + 4 + more,
        held + more <= out.len(),
        chunk_joined(s, rest, k, out.skip((held + more) as int)),
    ensures
        chunk_joined(s, seq![i] + rest, k + 1, out.skip(held as int)),
{
    let starts = seq![i] + rest;
    let data = out.skip(held as int);
    let tail = out.skip((held + more) as int);
    assert(starts[0] == i && starts[k + 1] == rest[k] && starts[k + 2] == rest[k + 1]);
    assert forall|j: int| starts[k + 1] + 4 <= j < starts[k + 1 + 1] implies #[trigger] s[j]
        == data[j - starts[0] - 4 * (k + 1 + 1)] by {
        let there = j - rest[0] - 4 * (k + 1);
        assert(s[j] == tail[there]);
        assert(0 <= there < tail.len());
        assert(data[more + there] == tail[there]);
    }
}

proof fn lemma_one_more(
    s: Seq<u8>,
    i: int,
    before: Seq<u8>,
    part: Seq<u8>,
    rest: Seq<int>,
    out: Seq<u8>,
)
    requires
        0 <= i,
        part.len() == value(s, i, 4),
        i + 4 + part.len() <= s.len(),
        part == s.subrange(i + 4, i + 4 + part.len()),
        rest[0] == i + 4 + part.len(),
        chunks_stand(s, rest),
        out.len() >= before.len() + part.len(),
        joined(s, rest, out.skip((before + part).len() as int)),
        out.take((before + part).len() as int) == before + part,
    ensures
        chunks_stand(s, seq![i] + rest),
        joined(s, seq![i] + rest, out.skip(before.len() as int)),
        out.take(before.len() as int) == before,
{
    let more = before + part;
    let starts = seq![i] + rest;
    let data = out.skip(before.len() as int);
    let tail = out.skip(more.len() as int);
    assert forall|x: int| 0 <= x < more.len() implies out[x] == more[x] by {
        assert(out.take(more.len() as int)[x] == more[x]);
    }
    assert(out.take(before.len() as int) =~= before);
    assert forall|k: int| 0 <= k < starts.len() - 1 implies #[trigger] next_chunk(
        s,
        starts,
        k,
    ) by {
        if k > 0 {
            assert(next_chunk(s, rest, k - 1));
        }
    }
    assert forall|k: int| 0 <= k < starts.len() - 1 implies #[trigger] chunk_joined(
        s,
        starts,
        k,
        data,
    ) by {
        if k == 0 {
            assert(starts[0] == i && starts[1] == rest[0]);
            assert forall|j: int| starts[0] + 4 <= j < starts[1] implies #[trigger] s[j] == data[j
                - starts[0] - 4 * (0 + 1)] by {
                assert(part[j - i - 4] == s[j]);
                assert(out[before.len() + (j - i - 4)] == more[before.len() + (j - i - 4)]);
            }
        } else {
            lemma_further_chunk(s, i, rest, k - 1, out, before.len(), part.len());
        }
    }
    assert(starts.last() == rest.last());
}

proof fn lemma_value_shift(body: Seq<u8>, o: int, i: int, n: nat)
    requires
        0 <= o,
        0 <= i,
        o + i + n <= body.len(),
    ensures
        value(body.skip(o), i, n) == value(body, o + i, n),
    decreases n,
{
    if n > 0 {
        lemma_value_shift(body, o, i + 1, (n - 1) as nat);
        assert(o + (i + 1) == o + i + 1);
    }
}

/// Chunked data is its size, the number of chunks, and the chunks one after
/// another; what is read are their bytes, joined in that order, and as many as
/// were announced.
pub proof fn chunks_layout(body: Seq<u8>, offset: u32)
    ensures
        image::chunks_of(body, offset) matches Ok(out) ==> {
            &&& offset + 8 <= body.len()
            &&& out.len() == value(body, offset as int, 4) <= 33554432
            &&& value(body, offset + 4, 4) <= 8388608
            &&& exists|starts: Seq<int>|
                {
                    &&& #[trigger] chunks_stand(body.skip(offset as int), starts)
                    &&& starts.len() == value(body, offset + 4, 4) + 1
                    &&& starts[0] == 8
                    &&& joined(body.skip(offset as int), starts, out)
                }
        },
{
    match image::chunks_of(body, offset) {
        Err(_) => {},
        Ok(out) => {
            let s = body.skip(offset as int);
            lemma_u32(s, 0);
            lemma_u32(s, 4);
            lemma_value_shift(body, offset as int, 0, 4);
            lemma_value_shift(body, offset as int, 4, 4);
            let n = value(body, offset + 4, 4);
            let starts = lemma_chunks(s, 8, n, Seq::empty());
            assert(out.skip(0) =~= out);
            assert(chunks_stand(s, starts));
        },
    }
}

} // verus!
