//! The bit stream of a QUIC body, as it is read and as it is written.

use vstd::arithmetic::power2::*;
use vstd::bits::*;
use vstd::prelude::*;

use crate::proto::wire;
use crate::quic::error::{QuicError, Result};

verus! {

/// Size of the header that stands before the body.
pub const QUIC_HEADER_SIZE: usize = 20;

/// The number that a sequence of bits spells, most significant bit first.
pub open spec fn number(bits: Seq<bool>) -> nat
    decreases bits.len(),
{
    if bits.len() == 0 {
        0
    } else {
        2 * number(bits.drop_last()) + if bits.last() {
            1nat
        } else {
            0nat
        }
    }
}

/// The low `n` bits of `v`, most significant bit first.
pub open spec fn spell(v: nat, n: nat) -> Seq<bool>
    decreases n,
{
    if n == 0 {
        Seq::empty()
    } else {
        spell(v / 2, (n - 1) as nat).push(v % 2 == 1)
    }
}

/// The `k`-th little-endian word of a body; past its end the words are zero.
pub open spec fn word(body: Seq<u8>, k: int) -> u32 {
    if 4 * k + 4 <= body.len() {
        wire::u32_at(body, 4 * k)
    } else {
        0
    }
}

/// The `p`-th bit of a body.
pub open spec fn bit(body: Seq<u8>, p: int) -> bool {
    spell(word(body, p / 32) as nat, 32)[p % 32]
}

/// The `n` bits of a body that start at `p`.
pub open spec fn slice(body: Seq<u8>, p: int, n: nat) -> Seq<bool> {
    Seq::new(n, |i: int| bit(body, p + i))
}

/// The 32 bits of a body that start at `p`, as a number.
pub open spec fn window(body: Seq<u8>, p: int) -> u32 {
    number(slice(body, p, 32)) as u32
}

/// Where reading may have come to at most: one word past the body's end.
pub open spec fn limit(body: Seq<u8>) -> int {
    8 * body.len() as int + 32
}

/// What consuming bits up to position `p` comes to.
pub open spec fn eaten(body: Seq<u8>, p: int) -> Result<()> {
    if p > limit(body) {
        Err(QuicError::Short { need: ((p - 8 * body.len()) / 8) as usize, have: 0 })
    } else {
        Ok(())
    }
}

/// The body holds `bits` from position `p` on.
pub open spec fn carries(body: Seq<u8>, p: int, bits: Seq<bool>) -> bool {
    &&& 0 <= p
    &&& p + bits.len() <= 8 * body.len()
    &&& forall|k: int| 0 <= k < bits.len() ==> #[trigger] bit(body, p + k) == bits[k]
}

pub proof fn lemma_number_bound(bits: Seq<bool>)
    ensures
        number(bits) < pow2(bits.len()),
    decreases bits.len(),
{
    lemma2_to64();
    if bits.len() > 0 {
        lemma_number_bound(bits.drop_last());
        lemma_pow2_unfold(bits.len());
    }
}

pub proof fn lemma_number_concat(a: Seq<bool>, b: Seq<bool>)
    ensures
        number(a + b) == number(a) * pow2(b.len()) + number(b),
    decreases b.len(),
{
    lemma2_to64();
    if b.len() == 0 {
        assert(a + b =~= a);
    } else {
        lemma_number_concat(a, b.drop_last());
        assert((a + b).drop_last() =~= a + b.drop_last());
        lemma_pow2_unfold(b.len());
        let m = pow2((b.len() - 1) as nat);
        assert(number(a) * (2 * m) == 2 * (number(a) * m)) by (nonlinear_arith);
    }
}

pub proof fn lemma_spell_len(v: nat, n: nat)
    ensures
        spell(v, n).len() == n,
    decreases n,
{
    if n > 0 {
        lemma_spell_len(v / 2, (n - 1) as nat);
    }
}

/// Spelling a number out and reading it back keeps its low bits.
pub proof fn lemma_number_spell(v: nat, n: nat)
    requires
        v < pow2(n),
    ensures
        number(spell(v, n)) == v,
        spell(v, n).len() == n,
    decreases n,
{
    lemma2_to64();
    if n > 0 {
        lemma_pow2_unfold(n);
        lemma_spell_len(v / 2, (n - 1) as nat);
        lemma_number_spell(v / 2, (n - 1) as nat);
        assert(spell(v, n).drop_last() =~= spell(v / 2, (n - 1) as nat));
    }
}

/// Two sequences of the same length that spell the same number are the same.
pub proof fn lemma_number_injective(a: Seq<bool>, b: Seq<bool>)
    requires
        a.len() == b.len(),
        number(a) == number(b),
    ensures
        a == b,
    decreases a.len(),
{
    if a.len() > 0 {
        lemma_number_injective(a.drop_last(), b.drop_last());
        assert(a =~= a.drop_last().push(a.last()));
        assert(b =~= b.drop_last().push(b.last()));
    } else {
        assert(a =~= b);
    }
}

/// The leading `n` bits of a longer sequence spell its number shifted down.
pub proof fn lemma_number_take(bits: Seq<bool>, n: nat)
    requires
        n <= bits.len(),
    ensures
        number(bits.take(n as int)) == number(bits) / pow2((bits.len() - n) as nat),
        number(bits.skip(n as int)) == number(bits) % pow2((bits.len() - n) as nat),
{
    let a = bits.take(n as int);
    let b = bits.skip(n as int);
    assert(bits =~= a + b);
    lemma_number_concat(a, b);
    lemma_number_bound(b);
    lemma_pow2_pos(b.len());
    lemma_quotient(number(a) as int, number(b) as int, pow2(b.len()) as int);
}

/// Division with remainder is unique.
proof fn lemma_quotient(q: int, r: int, d: int)
    requires
        0 <= r < d,
    ensures
        (q * d + r) / d == q,
        (q * d + r) % d == r,
{
    assert((q * d + r) / d == q && (q * d + r) % d == r) by (nonlinear_arith)
        requires
            0 <= r < d,
    ;
}

/// The leading `n` bits of a window.
pub proof fn lemma_window_prefix(body: Seq<u8>, p: int, n: nat)
    requires
        n <= 32,
    ensures
        window(body, p) as nat == number(slice(body, p, 32)),
        number(slice(body, p, n)) == window(body, p) as nat / pow2((32 - n) as nat),
{
    let all = slice(body, p, 32);
    lemma_number_bound(all);
    lemma2_to64();
    lemma_number_take(all, n);
    assert(all.take(n as int) =~= slice(body, p, n));
}

/// A window on a body that carries a word starts with that word.
pub proof fn lemma_window_carries(body: Seq<u8>, p: int, v: nat, n: nat)
    requires
        n <= 32,
        v < pow2(n),
        carries(body, p, spell(v, n)),
    ensures
        window(body, p) as nat / pow2((32 - n) as nat) == v,
{
    lemma_number_spell(v, n);
    lemma_window_prefix(body, p, n);
    assert(slice(body, p, n) =~= spell(v, n));
}

/// What a body carries, it carries in parts.
pub proof fn lemma_carries_split(body: Seq<u8>, p: int, a: Seq<bool>, b: Seq<bool>)
    requires
        carries(body, p, a + b),
    ensures
        carries(body, p, a),
        carries(body, p + a.len(), b),
{
    assert forall|k: int| 0 <= k < a.len() implies #[trigger] bit(body, p + k) == a[k] by {
        assert((a + b)[k] == a[k]);
    }
    assert forall|k: int| 0 <= k < b.len() implies #[trigger] bit(body, p + a.len() + k) == b[k] by {
        assert((a + b)[a.len() + k] == b[k]);
        assert(bit(body, p + (a.len() + k)) == (a + b)[a.len() + k]);
    }
}

/// Bit-level reader over a QUIC body (a sequence of little-endian 32-bit
/// words). Tracks a bit position and recomputes the 32-bit window on demand,
/// which handles codewords that span word boundaries.
pub struct BitReader<'a> {
    body: &'a [u8],
    /// Total bits consumed from `body`.
    bit_pos: u128,
}

impl<'a> BitReader<'a> {
    #[verifier::type_invariant]
    spec fn in_bounds(self) -> bool {
        self.bit_pos <= limit(self.body@)
    }

    /// The body that is read.
    pub closed spec fn body(self) -> Seq<u8> {
        self.body@
    }

    /// How many of its bits have been read.
    pub closed spec fn at(self) -> int {
        self.bit_pos as int
    }

    /// A reader of what follows the header.
    pub fn new_after_header(bytes: &'a [u8]) -> (r: Result<Self>)
        ensures
            match r {
                Ok(reader) => {
                    &&& bytes@.len() >= QUIC_HEADER_SIZE
                    &&& reader.body() == bytes@.skip(QUIC_HEADER_SIZE as int)
                    &&& reader.at() == 0
                },
                Err(e) => {
                    &&& bytes@.len() < QUIC_HEADER_SIZE
                    &&& e == (QuicError::Short {
                        need: QUIC_HEADER_SIZE,
                        have: bytes@.len() as usize,
                    })
                },
            },
    {
        let len: usize = bytes.len();
        if len < QUIC_HEADER_SIZE {
            return Err(QuicError::Short { need: QUIC_HEADER_SIZE, have: len });
        }
        let body = vstd::slice::slice_subrange(bytes, QUIC_HEADER_SIZE, len);
        Ok(Self { body, bit_pos: 0 })
    }

    /// A position is never negative.
    pub proof fn lemma_at(&self)
        ensures
            0 <= self.at(),
    {
    }

    fn word_at(&self, k: u128) -> (w: u32)
        requires
            k <= u64::MAX,
        ensures
            w == word(self.body(), k as int),
    {
        let off: u128 = 4 * k;
        if off + 4 <= self.body.len() as u128 {
            let i: usize = off as usize;
            self.body[i] as u32 + 256 * self.body[i + 1] as u32 + 65536 * self.body[i + 2] as u32
                + 16777216 * self.body[i + 3] as u32
        } else {
            0
        }
    }

    /// Peek the next 32 bits. Bit 31 of the result is the next bit to be
    /// consumed.
    pub fn peek32(&self) -> (w: u32)
        ensures
            w == window(self.body(), self.at()),
    {
        let _len: usize = self.body.len();
        proof {
            use_type_invariant(self);
        }
        let k: u128 = self.bit_pos / 32;
        let b: u64 = (self.bit_pos % 32) as u64;
        let w0: u32 = self.word_at(k);
        let w1: u32 = self.word_at(k + 1);
        let two: u64 = 4294967296 * w0 as u64 + w1 as u64;
        proof {
            lemma_peek(self.body(), self.at(), two);
            lemma_u64_shr_is_div(two, (32 - b) as u64);
        }
        ((two >> (32 - b)) % 4294967296) as u32
    }

    /// Consume `len` bits.
    pub fn eat(&mut self, len: u32) -> (r: Result<()>)
        requires
            len <= 32,
        ensures
            final(self).body() == old(self).body(),
            r == eaten(old(self).body(), old(self).at() + len),
            final(self).at() == if r is Ok {
                old(self).at() + len
            } else {
                old(self).at()
            },
            r is Ok ==> final(self).at() <= limit(final(self).body()),
    {
        let bytes: usize = self.body.len();
        proof {
            use_type_invariant(&*self);
        }
        let new_pos: u128 = self.bit_pos + len as u128;
        // The decoder may peek past the end of the buffer, but it does not
        // consume past it by more than one word.
        let max_bits: u128 = 8 * bytes as u128;
        if new_pos > max_bits + 32 {
            return Err(QuicError::Short { need: ((new_pos - max_bits) / 8) as usize, have: 0 });
        }
        self.bit_pos = new_pos;
        Ok(())
    }

    /// Consume 32 bits.
    pub fn eat32(&mut self) -> (r: Result<()>)
        ensures
            final(self).body() == old(self).body(),
            r == eaten(old(self).body(), old(self).at() + 32),
            final(self).at() == if r is Ok {
                old(self).at() + 32
            } else {
                old(self).at()
            },
    {
        self.eat(32)
    }
}

proof fn lemma_peek(body: Seq<u8>, p: int, two: u64)
    requires
        0 <= p,
        two == 4294967296 * word(body, p / 32) + word(body, p / 32 + 1),
    ensures
        window(body, p) as int == (two as int / pow2((32 - p % 32) as nat) as int) % 4294967296,
{
    let b = (p % 32) as nat;
    let k = p / 32;
    let w0 = spell(word(body, k) as nat, 32);
    let w1 = spell(word(body, k + 1) as nat, 32);
    lemma2_to64();
    lemma_number_spell(word(body, k) as nat, 32);
    lemma_number_spell(word(body, k + 1) as nat, 32);
    lemma_number_concat(w0, w1);
    let all = w0 + w1;
    assert(w1.len() == 32 && pow2(32) == 4294967296);
    assert(number(w0) * pow2(w1.len()) == 4294967296 * number(w0)) by (nonlinear_arith)
        requires
            pow2(w1.len()) == 4294967296,
    ;
    assert(number(all) == two);
    let head = all.take(32 + b as int);
    lemma_number_take(all, 32 + b);
    assert(number(head) == two as nat / pow2((32 - b) as nat));
    lemma_number_take(head, b);
    let mid = head.skip(b as int);
    assert(mid =~= slice(body, p, 32)) by {
        assert forall|i: int| 0 <= i < 32 implies mid[i] == #[trigger] bit(body, p + i) by {
            if b + i < 32 {
                assert((p + i) / 32 == k);
                assert((p + i) % 32 == b + i);
            } else {
                assert((p + i) / 32 == k + 1);
                assert((p + i) % 32 == b + i - 32);
            }
        }
    }
    lemma_number_bound(mid);
}

/// Spelling out a number in two parts.
pub proof fn lemma_spell_concat(a: nat, n: nat, b: nat, m: nat)
    requires
        a < pow2(n),
        b < pow2(m),
    ensures
        spell(a * pow2(m) + b, n + m) == spell(a, n) + spell(b, m),
        a * pow2(m) + b < pow2(n + m),
{
    lemma_pow2_adds(n, m);
    assert(a * pow2(m) + b < pow2(n) * pow2(m)) by (nonlinear_arith)
        requires
            a + 1 <= pow2(n),
            b < pow2(m),
    ;
    lemma_number_spell(a * pow2(m) + b, n + m);
    lemma_number_spell(a, n);
    lemma_number_spell(b, m);
    lemma_number_concat(spell(a, n), spell(b, m));
    lemma_number_injective(spell(a * pow2(m) + b, n + m), spell(a, n) + spell(b, m));
}

/// `n` one bits.
pub open spec fn ones(n: nat) -> Seq<bool> {
    Seq::new(n, |i: int| true)
}

proof fn lemma_spell_ones(n: nat)
    ensures
        pow2(n) >= 1,
        spell((pow2(n) - 1) as nat, n) == ones(n),
    decreases n,
{
    lemma2_to64();
    lemma_pow2_pos(n);
    if n > 0 {
        lemma_pow2_unfold(n);
        lemma_pow2_pos((n - 1) as nat);
        lemma_spell_ones((n - 1) as nat);
    }
    assert(spell((pow2(n) - 1) as nat, n) =~= ones(n));
}

pub proof fn lemma_spell_zero(n: nat, i: int)
    requires
        0 <= i < n,
    ensures
        spell(0, n).len() == n,
        spell(0, n)[i] == false,
    decreases n,
{
    lemma_spell_len(0, n);
    lemma_spell_len(0, (n - 1) as nat);
    if i < n - 1 {
        lemma_spell_zero((n - 1) as nat, i);
    }
}

/// `bppmask(i)` has `i` ones in the low bits.
pub open spec fn mask(i: u32) -> u32 {
    if i >= 32 {
        0xFFFF_FFFF
    } else {
        (pow2(i as nat) - 1) as u32
    }
}

/// The number with `i` ones in the low bits.
pub fn bppmask(i: u32) -> (m: u32)
    ensures
        m == mask(i),
        i < 32 ==> m == pow2(i as nat) - 1,
{
    if i >= 32 {
        0xFFFF_FFFF
    } else {
        proof {
            lemma2_to64();
            lemma_pow2_pos(i as nat);
            lemma_pow2_below(i as nat, 32);
            lemma_u32_shl_is_mul(1, i);
        }
        (1u32 << i) - 1
    }
}

/// A lower power of two is smaller.
pub proof fn lemma_pow2_below(a: nat, b: nat)
    ensures
        a < b ==> pow2(a) < pow2(b),
        a <= b ==> pow2(a) <= pow2(b),
{
    if a < b {
        lemma_pow2_strictly_increases(a, b);
    }
}

/// Bit-writer dual to [`BitReader`]. Bits accumulate most significant first;
/// once 32 are pending they are emitted as a little-endian word.
pub struct BitWriter {
    buf: Vec<u8>,
    /// The bits that are not emitted yet, as a number.
    acc: u64,
    /// How many of them there are.
    pending: u32,
}

impl Default for BitWriter {
    fn default() -> (w: Self)
        ensures
            w@ == Seq::<bool>::empty(),
    {
        Self::new()
    }
}

impl View for BitWriter {
    type V = Seq<bool>;

    /// The bits written so far.
    closed spec fn view(&self) -> Seq<bool> {
        slice(self.buf@, 0, 8 * self.buf@.len()) + spell(self.acc as nat, self.pending as nat)
    }
}

proof fn lemma_append_word(buf: Seq<u8>, w: u32)
    requires
        buf.len() % 4 == 0,
    ensures
        slice(buf + wire::le32(w), 0, 8 * buf.len() + 32) == slice(buf, 0, 8 * buf.len()) + spell(
            w as nat,
            32,
        ),
{
    let after = buf + wire::le32(w);
    let n = buf.len() as int;
    assert(after.subrange(n, n + 4) =~= wire::le32(w));
    wire::u32_at_le32(after, n, w);
    lemma_spell_len(w as nat, 32);
    assert forall|p: int| 0 <= p < 8 * n implies bit(after, p) == #[trigger] bit(buf, p) by {
        let k = p / 32;
        assert(4 * k + 4 <= n);
        assert(after[4 * k] == buf[4 * k]);
        assert(after[4 * k + 1] == buf[4 * k + 1]);
        assert(after[4 * k + 2] == buf[4 * k + 2]);
        assert(after[4 * k + 3] == buf[4 * k + 3]);
    }
    assert forall|i: int| 0 <= i < 32 implies bit(after, 8 * n + i) == #[trigger] spell(
        w as nat,
        32,
    )[i] by {
        assert((8 * n + i) / 32 == n / 4);
        assert((8 * n + i) % 32 == i);
        assert(4 * (n / 4) == n);
    }
    assert(slice(after, 0, (8 * n + 32) as nat) =~= slice(buf, 0, (8 * n) as nat) + spell(
        w as nat,
        32,
    ));
}

impl BitWriter {
    #[verifier::type_invariant]
    spec fn inv(self) -> bool {
        &&& self.buf@.len() % 4 == 0
        &&& self.pending < 32
        &&& self.acc < pow2(self.pending as nat)
    }

    pub fn new() -> (w: Self)
        ensures
            w@ == Seq::<bool>::empty(),
    {
        proof {
            lemma2_to64();
        }
        let w = Self { buf: Vec::new(), acc: 0, pending: 0 };
        assert(w@ =~= Seq::<bool>::empty());
        w
    }

    /// Write the low `len` bits of `word`.
    pub fn write(&mut self, word: u32, len: u32)
        requires
            0 < len < 32,
            word < pow2(len as nat),
        ensures
            final(self)@ == old(self)@ + spell(word as nat, len as nat),
    {
        proof {
            use_type_invariant(&*self);
            lemma_spell_concat(self.acc as nat, self.pending as nat, word as nat, len as nat);
            lemma2_to64();
            lemma2_to64_rest();
            lemma_pow2_below((self.pending + len) as nat, 63);
            lemma_pow2_pos(len as nat);
            assert(self.acc * pow2(len as nat) + word < pow2(63));
            lemma_u64_shl_is_mul(self.acc, len as u64);
        }
        let all: u64 = (self.acc << len as u64) + word as u64;
        let total: u32 = self.pending + len;
        let ghost done = slice(self.buf@, 0, 8 * self.buf@.len());
        assert(done + spell(all as nat, total as nat) =~= self@ + spell(word as nat, len as nat));
        if total < 32 {
            self.set_pending(all, total);
            return;
        }
        let rest: u32 = total - 32;
        proof {
            lemma_u64_shr_is_div(all, rest as u64);
            lemma_pow2_pos(rest as nat);
            lemma_split_word(all as nat, rest as nat);
            lemma_u64_shl_is_mul(1, rest as u64);
            lemma_pow2_below(rest as nat, 32);
        }
        let high: u32 = (all >> rest as u64) as u32;
        let low: u64 = all % (1u64 << rest as u64);
        let ghost before = self.buf@;
        self.push_word(high);
        assert(self.buf@ == before + wire::le32(high));
        proof {
            lemma_append_word(before, high);
        }
        self.set_pending(low, rest);
        assert(self@ =~= old(self)@ + spell(word as nat, len as nat));
    }

    fn set_pending(&mut self, acc: u64, pending: u32)
        requires
            pending < 32,
            acc < pow2(pending as nat),
        ensures
            final(self).buf@ == old(self).buf@,
            final(self).acc == acc,
            final(self).pending == pending,
    {
        proof {
            use_type_invariant(&*self);
        }
        let mut buf: Vec<u8> = Vec::new();
        std::mem::swap(&mut buf, &mut self.buf);
        *self = Self { buf, acc, pending };
    }

    fn push_word(&mut self, w: u32)
        ensures
            final(self).buf@ == old(self).buf@ + wire::le32(w),
            final(self).acc == old(self).acc,
            final(self).pending == old(self).pending,
    {
        proof {
            use_type_invariant(&*self);
        }
        let mut buf: Vec<u8> = Vec::new();
        std::mem::swap(&mut buf, &mut self.buf);
        buf.push((w % 256) as u8);
        buf.push((w / 256 % 256) as u8);
        buf.push((w / 65536 % 256) as u8);
        buf.push((w / 16777216) as u8);
        assert(buf@ =~= old(self).buf@ + wire::le32(w));
        self.buf = buf;
    }

    /// Finalise the stream and return the bytes: the bits written, and zeros
    /// up to a whole word.
    pub fn finish(self) -> (r: Vec<u8>)
        ensures
            r@.len() % 4 == 0,
            self@.len() <= 8 * r@.len() < self@.len() + 32,
            carries(r@, 0, self@),
            forall|p: int| self@.len() <= p < 8 * r@.len() ==> !#[trigger] bit(r@, p),
    {
        proof {
            use_type_invariant(&self);
            lemma_spell_len(self.acc as nat, self.pending as nat);
        }
        let mut w = self;
        if w.pending != 0 {
            let free: u32 = 32 - w.pending;
            let ghost before = w.buf@;
            proof {
                lemma2_to64();
                lemma_pow2_pos(free as nat);
                lemma_spell_concat(w.acc as nat, w.pending as nat, 0, free as nat);
                lemma_u64_shl_is_mul(w.acc, free as u64);
            }
            let last: u32 = (w.acc << free as u64) as u32;
            w.push_word(last);
            proof {
                lemma_append_word(before, last);
                let all = slice(w.buf@, 0, 8 * w.buf@.len());
                assert(all =~= self@ + spell(0, free as nat));
                lemma_spell_len(0, free as nat);
                assert forall|k: int| 0 <= k < self@.len() implies #[trigger] bit(w.buf@, 0 + k)
                    == self@[k] by {
                    assert(all[k] == bit(w.buf@, 0 + k));
                }
                assert forall|p: int| self@.len() <= p < 8 * w.buf@.len() implies !#[trigger] bit(
                    w.buf@,
                    p,
                ) by {
                    assert(all[p] == bit(w.buf@, 0 + p));
                    lemma_spell_zero(free as nat, p - self@.len());
                }
            }
        } else {
            assert(self@ =~= slice(self.buf@, 0, 8 * self.buf@.len()));
        }
        w.buf
    }

    /// Emit `n` consecutive 1-bits.
    pub fn write_ones(&mut self, n: u32)
        ensures
            final(self)@ == old(self)@ + ones(n as nat),
    {
        let mut remaining: u32 = n;
        assert(self@ =~= old(self)@ + ones(0));
        while remaining >= 31
            invariant
                remaining <= n,
                self@ == old(self)@ + ones((n - remaining) as nat),
            decreases remaining,
        {
            proof {
                lemma_spell_ones(31);
            }
            let m: u32 = bppmask(31);
            self.write(m, 31);
            remaining = remaining - 31;
            assert(self@ =~= old(self)@ + ones((n - remaining) as nat));
        }
        if remaining > 0 {
            proof {
                lemma_spell_ones(remaining as nat);
            }
            let m: u32 = bppmask(remaining);
            self.write(m, remaining);
        }
        assert(self@ =~= old(self)@ + ones(n as nat));
    }
}

proof fn lemma_split_word(all: nat, rest: nat)
    requires
        all < pow2(32 + rest),
    ensures
        all / pow2(rest) < pow2(32),
        all % pow2(rest) < pow2(rest),
        spell(all, 32 + rest) == spell(all / pow2(rest), 32) + spell(all % pow2(rest), rest),
{
    lemma_pow2_pos(rest);
    lemma_pow2_adds(32, rest);
    let q = all / pow2(rest);
    let d = pow2(rest);
    assert(q < pow2(32) && all == q * d + all % d && all % d < d) by (nonlinear_arith)
        requires
            q == all / d,
            d > 0,
            all < pow2(32) * d,
    ;
    lemma_spell_concat(q, 32, all % d, rest);
}

} // verus!
