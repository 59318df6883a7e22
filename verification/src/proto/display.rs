//! Display-channel messages: surfaces, modes and monitors.

use vstd::prelude::*;

use crate::proto::error::{ProtoError, Result};
use crate::proto::types;
use crate::proto::types::{Reader, Writer};
use crate::proto::wire;

pub mod msg_type;
pub mod surface_flags;
pub mod surface_fmt;

verus! {

/// `SPICE_MSGC_DISPLAY_INIT`: first message the client sends on the display
/// channel. Without it some servers buffer output indefinitely. 14 bytes on the
/// wire (packed).
#[derive(Debug, Clone, Copy, PartialEq, Eq, Structural)]
pub struct DisplayInit {
    pub pixmap_cache_id: u8,
    pub pixmap_cache_size: i64,
    pub glz_dictionary_id: u8,
    pub glz_dictionary_window_size: i32,
}

impl DisplayInit {
    /// The display-init message whose bytes start at `i`.
    pub open spec fn spec_at(s: Seq<u8>, i: int) -> DisplayInit {
        DisplayInit {
            pixmap_cache_id: s[i],
            pixmap_cache_size: wire::i64_at(s, i + 1),
            glz_dictionary_id: s[i + 9],
            glz_dictionary_window_size: wire::i32_at(s, i + 10),
        }
    }

    /// The bytes of a display-init message.
    pub open spec fn wire(self) -> Seq<u8> {
        seq![self.pixmap_cache_id] + wire::le64s(self.pixmap_cache_size)
            + seq![self.glz_dictionary_id] + wire::le32s(self.glz_dictionary_window_size)
    }

    /// What a message body reads as.
    pub open spec fn parse(s: Seq<u8>) -> Result<DisplayInit> {
        match wire::short_in(seq![1, 8, 1, 4], s.len() as int) {
            Some(e) => Err(e),
            None => Ok(Self::spec_at(s, 0)),
        }
    }

    pub fn decode(buf: &[u8]) -> (res: Result<Self>)
        ensures
            res == Self::parse(buf@),
    {
        proof {
            reveal_with_fuel(wire::short_from, 5);
        }
        let mut r = Reader::new(buf);
        Ok(
            Self {
                pixmap_cache_id: r.u8()?,
                pixmap_cache_size: r.i64()?,
                glz_dictionary_id: r.u8()?,
                glz_dictionary_window_size: r.i32()?,
            },
        )
    }

    pub fn encode(&self, w: &mut Writer)
        ensures
            final(w)@ == old(w)@ + self.wire(),
    {
        w.u8(self.pixmap_cache_id);
        w.i64(self.pixmap_cache_size);
        w.u8(self.glz_dictionary_id);
        w.i32(self.glz_dictionary_window_size);
        assert(w@ =~= old(w)@ + self.wire());
    }
}

/// A display-init message reads back as it was written, whatever follows it.
#[verifier::rlimit(50)]
#[verifier::spinoff_prover]
pub proof fn display_init_round_trip(m: DisplayInit, tail: Seq<u8>)
    ensures
        DisplayInit::parse(m.wire() + tail) == Ok::<DisplayInit, ProtoError>(m),
{
    reveal_with_fuel(wire::short_from, 5);
    let s = m.wire() + tail;
    wire::lemma_lengths();
    assert(s[0] == m.pixmap_cache_id) by {
        broadcast use wire::group_parts;

        assert(s.subrange(0, 1) == seq![m.pixmap_cache_id]);
        assert(s.subrange(0, 1)[0] == s[0]);
    }
    assert(wire::i64_at(s, 1) == m.pixmap_cache_size) by {
        broadcast use wire::group_parts;

        assert(s.subrange(1, 9) == wire::le64s(m.pixmap_cache_size));
        wire::i64_at_le64s(s, 1, m.pixmap_cache_size);
    }
    assert(s[9] == m.glz_dictionary_id) by {
        broadcast use wire::group_parts;

        assert(s.subrange(9, 10) == seq![m.glz_dictionary_id]);
        assert(s.subrange(9, 10)[0] == s[9]);
    }
    assert(wire::i32_at(s, 10) == m.glz_dictionary_window_size) by {
        broadcast use wire::group_parts;

        assert(s.subrange(10, 14) == wire::le32s(m.glz_dictionary_window_size));
        wire::i32_at_le32s(s, 10, m.glz_dictionary_window_size);
    }
}

/// `SPICE_MSG_DISPLAY_SURFACE_CREATE`.
#[derive(Debug, Clone, Copy, PartialEq, Eq, Structural)]
pub struct SurfaceCreate {
    pub surface_id: u32,
    pub width: u32,
    pub height: u32,
    pub format: u32,
    pub flags: u32,
}

impl SurfaceCreate {
    /// The surface-create message whose bytes start at `i`.
    pub open spec fn spec_at(s: Seq<u8>, i: int) -> SurfaceCreate {
        SurfaceCreate {
            surface_id: wire::u32_at(s, i),
            width: wire::u32_at(s, i + 4),
            height: wire::u32_at(s, i + 8),
            format: wire::u32_at(s, i + 12),
            flags: wire::u32_at(s, i + 16),
        }
    }

    /// The bytes of a surface-create message.
    pub open spec fn wire(self) -> Seq<u8> {
        wire::le32(self.surface_id) + wire::le32(self.width) + wire::le32(self.height)
            + wire::le32(self.format) + wire::le32(self.flags)
    }

    /// What a message body reads as.
    pub open spec fn parse(s: Seq<u8>) -> Result<SurfaceCreate> {
        match wire::short_in(seq![4, 4, 4, 4, 4], s.len() as int) {
            Some(e) => Err(e),
            None => Ok(Self::spec_at(s, 0)),
        }
    }

    pub fn decode(buf: &[u8]) -> (res: Result<Self>)
        ensures
            res == Self::parse(buf@),
    {
        proof {
            reveal_with_fuel(wire::short_from, 6);
        }
        let mut r = Reader::new(buf);
        Ok(
            Self {
                surface_id: r.u32()?,
                width: r.u32()?,
                height: r.u32()?,
                format: r.u32()?,
                flags: r.u32()?,
            },
        )
    }

    pub fn encode(&self, w: &mut Writer)
        ensures
            final(w)@ == old(w)@ + self.wire(),
    {
        w.u32(self.surface_id);
        w.u32(self.width);
        w.u32(self.height);
        w.u32(self.format);
        w.u32(self.flags);
        assert(w@ =~= old(w)@ + self.wire());
    }
}

/// A surface-create message reads back as it was written, whatever follows it.
#[verifier::rlimit(50)]
#[verifier::spinoff_prover]
pub proof fn surface_create_round_trip(m: SurfaceCreate, tail: Seq<u8>)
    ensures
        SurfaceCreate::parse(m.wire() + tail) == Ok::<SurfaceCreate, ProtoError>(m),
{
    reveal_with_fuel(wire::short_from, 6);
    let s = m.wire() + tail;
    wire::lemma_lengths();
    assert(wire::u32_at(s, 0) == m.surface_id) by {
        broadcast use wire::group_parts;

        assert(s.subrange(0, 4) == wire::le32(m.surface_id));
        wire::u32_at_le32(s, 0, m.surface_id);
    }
    assert(wire::u32_at(s, 4) == m.width) by {
        broadcast use wire::group_parts;

        assert(s.subrange(4, 8) == wire::le32(m.width));
        wire::u32_at_le32(s, 4, m.width);
    }
    assert(wire::u32_at(s, 8) == m.height) by {
        broadcast use wire::group_parts;

        assert(s.subrange(8, 12) == wire::le32(m.height));
        wire::u32_at_le32(s, 8, m.height);
    }
    assert(wire::u32_at(s, 12) == m.format) by {
        broadcast use wire::group_parts;

        assert(s.subrange(12, 16) == wire::le32(m.format));
        wire::u32_at_le32(s, 12, m.format);
    }
    assert(wire::u32_at(s, 16) == m.flags) by {
        broadcast use wire::group_parts;

        assert(s.subrange(16, 20) == wire::le32(m.flags));
        wire::u32_at_le32(s, 16, m.flags);
    }
}

/// `SPICE_MSG_DISPLAY_SURFACE_DESTROY`.
#[derive(Debug, Clone, Copy, PartialEq, Eq, Structural)]
pub struct SurfaceDestroy {
    pub surface_id: u32,
}

impl SurfaceDestroy {
    /// The surface-destroy message whose bytes start at `i`.
    pub open spec fn spec_at(s: Seq<u8>, i: int) -> SurfaceDestroy {
        SurfaceDestroy {
            surface_id: wire::u32_at(s, i),
        }
    }

    /// The bytes of a surface-destroy message.
    pub open spec fn wire(self) -> Seq<u8> {
        wire::le32(self.surface_id)
    }

    /// What a message body reads as.
    pub open spec fn parse(s: Seq<u8>) -> Result<SurfaceDestroy> {
        match wire::short_in(seq![4], s.len() as int) {
            Some(e) => Err(e),
            None => Ok(Self::spec_at(s, 0)),
        }
    }

    pub fn decode(buf: &[u8]) -> (res: Result<Self>)
        ensures
            res == Self::parse(buf@),
    {
        proof {
            reveal_with_fuel(wire::short_from, 2);
        }
        let mut r = Reader::new(buf);
        Ok(
            Self {
                surface_id: r.u32()?,
            },
        )
    }

    pub fn encode(&self, w: &mut Writer)
        ensures
            final(w)@ == old(w)@ + self.wire(),
    {
        w.u32(self.surface_id);
        assert(w@ =~= old(w)@ + self.wire());
    }
}

/// A surface-destroy message reads back as it was written, whatever follows it.
#[verifier::rlimit(50)]
#[verifier::spinoff_prover]
pub proof fn surface_destroy_round_trip(m: SurfaceDestroy, tail: Seq<u8>)
    ensures
        SurfaceDestroy::parse(m.wire() + tail) == Ok::<SurfaceDestroy, ProtoError>(m),
{
    reveal_with_fuel(wire::short_from, 2);
    let s = m.wire() + tail;
    wire::lemma_lengths();
    assert(wire::u32_at(s, 0) == m.surface_id) by {
        broadcast use wire::group_parts;

        assert(s.subrange(0, 4) == wire::le32(m.surface_id));
        wire::u32_at_le32(s, 0, m.surface_id);
    }
}

/// `SPICE_MSG_DISPLAY_MODE` (deprecated but still emitted by some servers).
#[derive(Debug, Clone, Copy, PartialEq, Eq, Structural)]
pub struct Mode {
    pub x_res: u32,
    pub y_res: u32,
    pub bits: u32,
}

impl Mode {
    /// The mode message whose bytes start at `i`.
    pub open spec fn spec_at(s: Seq<u8>, i: int) -> Mode {
        Mode {
            x_res: wire::u32_at(s, i),
            y_res: wire::u32_at(s, i + 4),
            bits: wire::u32_at(s, i + 8),
        }
    }

    /// The bytes of a mode message.
    pub open spec fn wire(self) -> Seq<u8> {
        wire::le32(self.x_res) + wire::le32(self.y_res) + wire::le32(self.bits)
    }

    /// What a message body reads as.
    pub open spec fn parse(s: Seq<u8>) -> Result<Mode> {
        match wire::short_in(seq![4, 4, 4], s.len() as int) {
            Some(e) => Err(e),
            None => Ok(Self::spec_at(s, 0)),
        }
    }

    pub fn decode(buf: &[u8]) -> (res: Result<Self>)
        ensures
            res == Self::parse(buf@),
    {
        proof {
            reveal_with_fuel(wire::short_from, 4);
        }
        let mut r = Reader::new(buf);
        Ok(
            Self {
                x_res: r.u32()?,
                y_res: r.u32()?,
                bits: r.u32()?,
            },
        )
    }

    pub fn encode(&self, w: &mut Writer)
        ensures
            final(w)@ == old(w)@ + self.wire(),
    {
        w.u32(self.x_res);
        w.u32(self.y_res);
        w.u32(self.bits);
        assert(w@ =~= old(w)@ + self.wire());
    }
}

/// A mode message reads back as it was written, whatever follows it.
#[verifier::rlimit(50)]
#[verifier::spinoff_prover]
pub proof fn mode_round_trip(m: Mode, tail: Seq<u8>)
    ensures
        Mode::parse(m.wire() + tail) == Ok::<Mode, ProtoError>(m),
{
    reveal_with_fuel(wire::short_from, 4);
    let s = m.wire() + tail;
    wire::lemma_lengths();
    assert(wire::u32_at(s, 0) == m.x_res) by {
        broadcast use wire::group_parts;

        assert(s.subrange(0, 4) == wire::le32(m.x_res));
        wire::u32_at_le32(s, 0, m.x_res);
    }
    assert(wire::u32_at(s, 4) == m.y_res) by {
        broadcast use wire::group_parts;

        assert(s.subrange(4, 8) == wire::le32(m.y_res));
        wire::u32_at_le32(s, 4, m.y_res);
    }
    assert(wire::u32_at(s, 8) == m.bits) by {
        broadcast use wire::group_parts;

        assert(s.subrange(8, 12) == wire::le32(m.bits));
        wire::u32_at_le32(s, 8, m.bits);
    }
}

/// A single monitor head inside `MonitorsConfig`.
#[derive(Debug, Clone, Copy, PartialEq, Eq, Structural)]
pub struct Head {
    pub id: u32,
    pub surface_id: u32,
    pub width: u32,
    pub height: u32,
    pub x: u32,
    pub y: u32,
    pub flags: u32,
}

impl Head {
    /// The head whose bytes start at `i`.
    pub open spec fn spec_at(s: Seq<u8>, i: int) -> Head {
        Head {
            id: wire::u32_at(s, i),
            surface_id: wire::u32_at(s, i + 4),
            width: wire::u32_at(s, i + 8),
            height: wire::u32_at(s, i + 12),
            x: wire::u32_at(s, i + 16),
            y: wire::u32_at(s, i + 20),
            flags: wire::u32_at(s, i + 24),
        }
    }

    /// The bytes of a head.
    pub open spec fn wire(self) -> Seq<u8> {
        wire::le32(self.id) + wire::le32(self.surface_id) + wire::le32(self.width)
            + wire::le32(self.height) + wire::le32(self.x) + wire::le32(self.y)
            + wire::le32(self.flags)
    }

    /// What the bytes from `i` on read as, and where they end.
    pub open spec fn parse_at(s: Seq<u8>, i: int) -> Result<(Head, int)> {
        match wire::short_in(seq![4, 4, 4, 4, 4, 4, 4], s.len() - i) {
            Some(e) => Err(e),
            None => Ok((Self::spec_at(s, i), i + 28)),
        }
    }

    pub fn decode(r: &mut Reader<'_>) -> (res: Result<Self>)
        ensures
            types::reads(*old(r), *final(r), Self::parse_at(old(r).input(), old(r).at()), res),
    {
        proof {
            reveal_with_fuel(wire::short_from, 8);
        }
        Ok(
            Self {
                id: r.u32()?,
                surface_id: r.u32()?,
                width: r.u32()?,
                height: r.u32()?,
                x: r.u32()?,
                y: r.u32()?,
                flags: r.u32()?,
            },
        )
    }

    pub fn encode(&self, w: &mut Writer)
        ensures
            final(w)@ == old(w)@ + self.wire(),
    {
        w.u32(self.id);
        w.u32(self.surface_id);
        w.u32(self.width);
        w.u32(self.height);
        w.u32(self.x);
        w.u32(self.y);
        w.u32(self.flags);
        assert(w@ =~= old(w)@ + self.wire());
    }
}

/// A head reads back as it was written, wherever it stands.
#[verifier::rlimit(50)]
#[verifier::spinoff_prover]
pub proof fn head_round_trip(m: Head, head: Seq<u8>, tail: Seq<u8>)
    ensures
        Head::parse_at(head + (m.wire() + tail), head.len() as int) == Ok::<(Head, int), ProtoError>(
            (m, head.len() as int + 28),
        ),
{
    reveal_with_fuel(wire::short_from, 8);
    let s = m.wire() + tail;
    let all = head + s;
    assert(all.skip(head.len() as int) =~= s);
    wire::lemma_lengths();
    assert(wire::u32_at(s, 0) == m.id) by {
        broadcast use wire::group_parts;

        assert(s.subrange(0, 4) == wire::le32(m.id));
        wire::u32_at_le32(s, 0, m.id);
    }
    assert(wire::u32_at(s, 4) == m.surface_id) by {
        broadcast use wire::group_parts;

        assert(s.subrange(4, 8) == wire::le32(m.surface_id));
        wire::u32_at_le32(s, 4, m.surface_id);
    }
    assert(wire::u32_at(s, 8) == m.width) by {
        broadcast use wire::group_parts;

        assert(s.subrange(8, 12) == wire::le32(m.width));
        wire::u32_at_le32(s, 8, m.width);
    }
    assert(wire::u32_at(s, 12) == m.height) by {
        broadcast use wire::group_parts;

        assert(s.subrange(12, 16) == wire::le32(m.height));
        wire::u32_at_le32(s, 12, m.height);
    }
    assert(wire::u32_at(s, 16) == m.x) by {
        broadcast use wire::group_parts;

        assert(s.subrange(16, 20) == wire::le32(m.x));
        wire::u32_at_le32(s, 16, m.x);
    }
    assert(wire::u32_at(s, 20) == m.y) by {
        broadcast use wire::group_parts;

        assert(s.subrange(20, 24) == wire::le32(m.y));
        wire::u32_at_le32(s, 20, m.y);
    }
    assert(wire::u32_at(s, 24) == m.flags) by {
        broadcast use wire::group_parts;

        assert(s.subrange(24, 28) == wire::le32(m.flags));
        wire::u32_at_le32(s, 24, m.flags);
    }
    wire::lemma_shifted(head, s, 0);
    wire::lemma_shifted(head, s, 4);
    wire::lemma_shifted(head, s, 8);
    wire::lemma_shifted(head, s, 12);
    wire::lemma_shifted(head, s, 16);
    wire::lemma_shifted(head, s, 20);
    wire::lemma_shifted(head, s, 24);
}

/// `SPICE_MSG_DISPLAY_MONITORS_CONFIG`.
#[derive(Debug, Clone, PartialEq, Eq)]
pub struct MonitorsConfig {
    pub max_allowed: u16,
    pub heads: Vec<Head>,
}

/// The bytes of some heads.
pub open spec fn heads_wire(heads: Seq<Head>) -> Seq<u8>
    decreases heads.len(),
{
    if heads.len() == 0 {
        Seq::empty()
    } else {
        heads_wire(heads.drop_last()) + heads.last().wire()
    }
}

/// What `n` heads from position `i` on read as.
pub open spec fn heads_at(s: Seq<u8>, i: int, n: nat) -> Result<Seq<Head>>
    decreases n,
{
    if n == 0 {
        Ok(Seq::empty())
    } else {
        match heads_at(s, i, (n - 1) as nat) {
            Err(e) => Err(e),
            Ok(before) => match Head::parse_at(s, i + 28 * (n - 1)) {
                Err(e) => Err(e),
                Ok((h, _)) => Ok(before.push(h)),
            },
        }
    }
}

impl MonitorsConfig {
    /// The bytes of a monitors-config message.
    pub open spec fn wire(self) -> Seq<u8> {
        wire::le16((self.heads@.len() % 65536) as u16) + wire::le16(self.max_allowed) + heads_wire(
            self.heads@,
        )
    }

    /// A message body reads as `res`.
    pub open spec fn reads(s: Seq<u8>, res: Result<MonitorsConfig>) -> bool {
        match wire::short_in(seq![2, 2], s.len() as int) {
            Some(e) => res == Err::<MonitorsConfig, _>(e),
            None => match heads_at(s, 4, wire::u16_at(s, 0) as nat) {
                Err(e) => res == Err::<MonitorsConfig, _>(e),
                Ok(heads) => {
                    &&& res matches Ok(m)
                    &&& m.max_allowed == wire::u16_at(s, 2)
                    &&& m.heads@ == heads
                },
            },
        }
    }

    pub fn decode(buf: &[u8]) -> (res: Result<Self>)
        ensures
            Self::reads(buf@, res),
    {
        proof {
            reveal_with_fuel(wire::short_from, 3);
        }
        let mut r = Reader::new(buf);
        let count: u16 = r.u16()?;
        let max_allowed: u16 = r.u16()?;
        let mut heads: Vec<Head> = Vec::new();
        let mut i: u16 = 0;
        while i < count
            invariant
                i <= count == wire::u16_at(buf@, 0),
                r.input() == buf@,
                r.at() == 4 + 28 * i,
                4 <= buf@.len(),
                wire::short_in(seq![2, 2], buf@.len() as int) is None,
                heads_at(buf@, 4, i as nat) == Ok::<Seq<Head>, ProtoError>(heads@),
            decreases count - i,
        {
            let head = Head::decode(&mut r);
            match head {
                Ok(h) => {
                    heads.push(h);
                    i = i + 1;
                },
                Err(e) => {
                    proof {
                        lemma_heads_fail(buf@, 4, i as nat, count as nat, e);
                    }
                    return Err(e);
                },
            }
        }
        Ok(Self { max_allowed, heads })
    }

    pub fn encode(&self, w: &mut Writer)
        ensures
            final(w)@ == old(w)@ + self.wire(),
    {
        let n: usize = self.heads.len();
        w.u16((n % 65536) as u16);
        w.u16(self.max_allowed);
        let ghost front = w@;
        let mut i: usize = 0;
        assert(front + heads_wire(self.heads@.take(0)) =~= front);
        while i < n
            invariant
                i <= n == self.heads@.len(),
                w@ == front + heads_wire(self.heads@.take(i as int)),
            decreases n - i,
        {
            let ghost before = w@;
            self.heads[i].encode(w);
            i = i + 1;
            proof {
                let done = self.heads@.take(i as int);
                assert(done.drop_last() =~= self.heads@.take(i - 1));
                assert(w@ =~= front + heads_wire(done));
            }
        }
        assert(self.heads@.take(n as int) =~= self.heads@);
        assert(w@ =~= old(w)@ + self.wire());
    }
}

proof fn lemma_heads_fail(s: Seq<u8>, i: int, k: nat, n: nat, e: ProtoError)
    requires
        k < n,
        heads_at(s, i, k) is Ok,
        Head::parse_at(s, i + 28 * k) == Err::<(Head, int), ProtoError>(e),
    ensures
        heads_at(s, i, n) == Err::<Seq<Head>, ProtoError>(e),
    decreases n,
{
    if n > k + 1 {
        lemma_heads_fail(s, i, k, (n - 1) as nat, e);
    }
}

proof fn lemma_heads_wire(heads: Seq<Head>)
    ensures
        heads_wire(heads).len() == 28 * heads.len(),
    decreases heads.len(),
{
    wire::lemma_lengths();
    if heads.len() > 0 {
        lemma_heads_wire(heads.drop_last());
    }
}

proof fn lemma_heads_at(front: Seq<u8>, heads: Seq<Head>, tail: Seq<u8>)
    ensures
        heads_at(front + heads_wire(heads) + tail, front.len() as int, heads.len()) == Ok::<
            Seq<Head>,
            ProtoError,
        >(heads),
    decreases heads.len(),
{
    if heads.len() > 0 {
        let before = heads.drop_last();
        let last = heads.last();
        let s = front + heads_wire(heads) + tail;
        let more = last.wire() + tail;
        lemma_heads_wire(before);
        wire::lemma_regroup(front, heads_wire(before), last.wire(), tail);
        assert(s == front + heads_wire(before) + more);
        lemma_heads_at(front, before, more);
        let head = front + heads_wire(before);
        head_round_trip(last, head, tail);
        assert(before.push(last) =~= heads);
    } else {
        assert(heads =~= Seq::<Head>::empty());
    }
}

/// A monitors-config message of fewer than 65536 heads reads back as it was
/// written.
#[verifier::rlimit(50)]
#[verifier::spinoff_prover]
pub proof fn monitors_config_round_trip(
    m: MonitorsConfig,
    tail: Seq<u8>,
    res: Result<MonitorsConfig>,
)
    requires
        m.heads@.len() < 65536,
        MonitorsConfig::reads(m.wire() + tail, res),
    ensures
        res matches Ok(n) && n.max_allowed == m.max_allowed && n.heads@ == m.heads@,
{
    reveal_with_fuel(wire::short_from, 3);
    wire::lemma_lengths();
    let n = m.heads@.len() as u16;
    let s = m.wire() + tail;
    let front = wire::le16(n) + wire::le16(m.max_allowed);
    assert(s == front + heads_wire(m.heads@) + tail);
    assert(s.subrange(0, 2) =~= wire::le16(n));
    assert(s.subrange(2, 4) =~= wire::le16(m.max_allowed));
    wire::u16_at_le16(s, 0, n);
    wire::u16_at_le16(s, 2, m.max_allowed);
    lemma_heads_at(front, m.heads@, tail);
}

} // verus!
