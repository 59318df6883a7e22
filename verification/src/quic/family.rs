//! The Golomb-Rice code tables, for eight and for five bits per channel.

use vstd::arithmetic::power2::*;
use vstd::bits::*;
use vstd::prelude::*;
use vstd::std_specs::bits::*;

use crate::quic::bits;
use crate::quic::bits::bppmask;

verus! {

/// Number of distinct codes that a family has tables for.
pub const MAXNUMCODES: usize = 8;

/// The longest codeword.
pub const DEFMAXCLEN: u32 = 26;

/// How many values a channel of `bpc` bits takes.
pub open spec fn levels(bpc: u32) -> int {
    pow2(bpc as nat) as int
}

/// How many zeros announce an escape codeword of code `l`.
pub open spec fn prefix_len(bpc: u32, l: int) -> int {
    let cap = pow2((bpc - l) as nat) - 1;
    if DEFMAXCLEN - bpc > cap {
        cap
    } else {
        DEFMAXCLEN - bpc
    }
}

/// How many symbols have a plain Golomb-Rice codeword in code `l`.
pub open spec fn gr_codewords(bpc: u32, l: int) -> int {
    prefix_len(bpc, l) * pow2(l as nat)
}

/// The least `k` with `v <= 2^k`.
pub open spec fn log2_ceil(v: nat) -> nat
    decreases v,
{
    if v <= 1 {
        0
    } else {
        1 + log2_ceil((v + 1) / 2)
    }
}

/// How many bits follow the prefix of an escape codeword of code `l`.
pub open spec fn suffix_len(bpc: u32, l: int) -> int {
    log2_ceil((levels(bpc) - gr_codewords(bpc, l)) as nat) as int
}

/// The length of an escape codeword of code `l`.
pub open spec fn escape_len(bpc: u32, l: int) -> int {
    prefix_len(bpc, l) + suffix_len(bpc, l)
}

/// The codeword of symbol `n` in code `l`, and its length: `n / 2^l` zeros,
/// a one and the low `l` bits of `n`; or, for the larger symbols, an escape.
pub open spec fn golomb_code(bpc: u32, l: int, n: int) -> (int, int) {
    if n < gr_codewords(bpc, l) {
        (pow2(l as nat) + n % (pow2(l as nat) as int), n / (pow2(l as nat) as int) + l + 1)
    } else {
        (n - gr_codewords(bpc, l), escape_len(bpc, l))
    }
}

/// The symbol that the top bits of `w` stand for in code `l`, and how many
/// bits it takes.
pub open spec fn golomb_symbol(bpc: u32, l: int, w: u32) -> (int, int) {
    if w >= pow2((32 - prefix_len(bpc, l)) as nat) {
        let zeros = u32_leading_zeros(w) as int;
        let len = zeros + 1 + l;
        (
            zeros * pow2(l as nat) + (w as int / pow2((32 - len) as nat) as int) % (pow2(
                l as nat,
            ) as int),
            len,
        )
    } else {
        let len = escape_len(bpc, l);
        (
            gr_codewords(bpc, l) + (w as int / pow2((32 - len) as nat) as int) % (pow2(
                suffix_len(bpc, l) as nat,
            ) as int),
            len,
        )
    }
}

/// Fold a difference (modulo the number of levels) so that small ones of
/// either sign come first.
pub open spec fn u2l(bpc: u32, s: int) -> int {
    let top = levels(bpc) - 1;
    if s <= top / 2 {
        2 * s
    } else {
        2 * (top - s) + 1
    }
}

/// Unfold a residual; the ones past the last level unfold to zero.
pub open spec fn l2u(bpc: u32, s: int) -> int {
    let top = levels(bpc) - 1;
    if s > top {
        0
    } else if s % 2 == 1 {
        top - s / 2
    } else {
        s / 2
    }
}

/// Unfolding undoes folding.
pub proof fn xlat_inverse(bpc: u32, s: int)
    requires
        bpc <= 8,
        0 <= s < levels(bpc),
    ensures
        0 <= u2l(bpc, s) < levels(bpc),
        l2u(bpc, u2l(bpc, s)) == s,
{
    lemma_levels(bpc);
}

/// The sizes in play for up to eight bits per channel.
pub proof fn lemma_levels(bpc: u32)
    requires
        bpc <= 8,
    ensures
        1 <= levels(bpc) <= 256,
        bpc > 0 ==> levels(bpc) % 2 == 0,
{
    lemma2_to64();
    bits::lemma_pow2_below(bpc as nat, 8);
    lemma_pow2_pos(bpc as nat);
    if bpc > 0 {
        lemma_pow2_unfold(bpc as nat);
    }
}

proof fn lemma_log2_ceil(v: nat, k: nat)
    requires
        1 <= v <= pow2(k),
    ensures
        log2_ceil(v) <= k,
        v <= pow2(log2_ceil(v)),
    decreases v,
{
    lemma2_to64();
    if v > 1 {
        if k == 0 {
            assert(pow2(0) == 1);
        }
        lemma_pow2_unfold(k);
        lemma_log2_ceil((v + 1) / 2, (k - 1) as nat);
        lemma_pow2_unfold(log2_ceil(v));
    } else {
        assert(pow2(0) == 1);
    }
}

/// The lengths of the codewords of code `l`.
pub proof fn lemma_code(bpc: u32, l: int)
    requires
        bpc <= 8,
        0 <= l < bpc,
    ensures
        1 <= prefix_len(bpc, l) <= 26 - bpc,
        0 < gr_codewords(bpc, l) < levels(bpc),
        gr_codewords(bpc, l) <= levels(bpc) - pow2(l as nat),
        0 <= suffix_len(bpc, l) <= bpc,
        levels(bpc) - gr_codewords(bpc, l) <= pow2(suffix_len(bpc, l) as nat),
        prefix_len(bpc, l) <= escape_len(bpc, l) <= 26,
        prefix_len(bpc, l) + l < 26,
        1 <= pow2(l as nat) <= levels(bpc) <= 256,
{
    lemma_levels(bpc);
    let d = (bpc - l) as nat;
    lemma2_to64();
    bits::lemma_pow2_below(1, d);
    lemma_pow2_pos(l as nat);
    bits::lemma_pow2_below(l as nat, bpc as nat);
    lemma_pow2_adds(d, l as nat);
    let a = prefix_len(bpc, l);
    let p = pow2(l as nat) as int;
    let q = pow2(d) as int;
    assert(p <= a * p <= q * p - p) by (nonlinear_arith)
        requires
            1 <= a <= q - 1,
            p >= 1,
    ;
    lemma_log2_ceil((levels(bpc) - gr_codewords(bpc, l)) as nat, bpc as nat);
}

/// Lookup tables for one Golomb-Rice family (8 bits per channel, or 5 for
/// 16-bit pixels). Built once via [`Family::init`].
#[derive(Debug)]
pub struct Family {
    pub bpc: u32,
    /// Number of unmodified GR codewords in code `l`.
    pub n_gr_codewords: [u32; MAXNUMCODES],
    /// Codeword length for the not-GR (escape) codeword in code `l`.
    pub not_gr_cwlen: [u32; MAXNUMCODES],
    /// Tells GR and not-GR codewords apart.
    pub not_gr_prefixmask: [u32; MAXNUMCODES],
    /// Suffix length of the not-GR codeword in code `l`.
    pub not_gr_suffixlen: [u32; MAXNUMCODES],
    /// Unfolds a residual (L to U).
    pub xlat_l2u: [u32; 256],
    /// Folds a difference (U to L).
    pub xlat_u2l: [u8; 256],
}

impl Family {
    /// The tables are those of `bpc`.
    pub open spec fn wf(self) -> bool {
        &&& self.bpc <= 8
        &&& forall|l: int|
            0 <= l < self.bpc ==> {
                &&& #[trigger] self.n_gr_codewords@[l] == gr_codewords(self.bpc, l)
                &&& self.not_gr_cwlen@[l] == escape_len(self.bpc, l)
                &&& self.not_gr_prefixmask@[l] == bits::mask((32 - prefix_len(self.bpc, l)) as u32)
                &&& self.not_gr_suffixlen@[l] == suffix_len(self.bpc, l)
            }
        &&& forall|s: int| 0 <= s < 256 ==> #[trigger] self.xlat_l2u@[s] == l2u(self.bpc, s)
        &&& forall|s: int|
            0 <= s < levels(self.bpc) ==> #[trigger] self.xlat_u2l@[s] == u2l(self.bpc, s)
    }

    pub fn init(bpc: u32) -> (f: Self)
        requires
            bpc <= 8,
        ensures
            f.wf(),
            f.bpc == bpc,
    {
        let mut n_gr_codewords: [u32; MAXNUMCODES] = [0; MAXNUMCODES];
        let mut not_gr_cwlen: [u32; MAXNUMCODES] = [0; MAXNUMCODES];
        let mut not_gr_prefixmask: [u32; MAXNUMCODES] = [0; MAXNUMCODES];
        let mut not_gr_suffixlen: [u32; MAXNUMCODES] = [0; MAXNUMCODES];
        proof {
            lemma_levels(bpc);
        }
        let mut l: u32 = 0;
        while l < bpc
            invariant
                l <= bpc <= 8,
                forall|k: int|
                    0 <= k < l ==> {
                        &&& #[trigger] n_gr_codewords@[k] == gr_codewords(bpc, k)
                        &&& not_gr_cwlen@[k] == escape_len(bpc, k)
                        &&& not_gr_prefixmask@[k] == bits::mask((32 - prefix_len(bpc, k)) as u32)
                        &&& not_gr_suffixlen@[k] == suffix_len(bpc, k)
                    },
            decreases bpc - l,
        {
            proof {
                lemma_code(bpc, l as int);
                lemma_levels(bpc);
            }
            let cap: u32 = bppmask(bpc - l);
            let alt: u32 = if DEFMAXCLEN - bpc > cap {
                cap
            } else {
                DEFMAXCLEN - bpc
            };
            proof {
                lemma_u32_shl_is_mul(alt, l);
                assert(alt == prefix_len(bpc, l as int));
            }
            let plain: u32 = alt << l;
            let ghost done = n_gr_codewords@;
            assert(plain == gr_codewords(bpc, l as int));
            let suffix: u32 = ceil_log2(bppmask(bpc) + 1 - plain);
            n_gr_codewords[l as usize] = plain;
            not_gr_suffixlen[l as usize] = suffix;
            not_gr_cwlen[l as usize] = alt + suffix;
            not_gr_prefixmask[l as usize] = bppmask(32 - alt);
            assert(suffix == suffix_len(bpc, l as int));
            assert(n_gr_codewords@ =~= done.update(l as int, plain));
            assert(not_gr_suffixlen@[l as int] == suffix);
            assert(not_gr_cwlen@[l as int] == escape_len(bpc, l as int));
            assert(not_gr_prefixmask@[l as int] == bits::mask(
                (32 - prefix_len(bpc, l as int)) as u32,
            ));
            l = l + 1;
        }
        let xlat_u2l = decorrelate_table(bpc);
        let xlat_l2u = correlate_table(bpc);
        Self {
            bpc,
            n_gr_codewords,
            not_gr_cwlen,
            not_gr_prefixmask,
            not_gr_suffixlen,
            xlat_l2u,
            xlat_u2l,
        }
    }
}

impl Family {
    /// Decode one Golomb-Rice codeword from the top of `bits`. Returns
    /// `(value, codeword_len)` so the caller can advance past it via
    /// `BitReader::eat`.
    pub fn golomb_decode(&self, l: u32, bits: u32) -> (r: (u32, u32))
        requires
            self.wf(),
            l < self.bpc,
        ensures
            r.0 == golomb_symbol(self.bpc, l as int, bits).0,
            r.1 == golomb_symbol(self.bpc, l as int, bits).1,
            0 < r.1 <= 26,
            r.0 < 512,
    {
        let i: usize = l as usize;
        let ghost bpc = self.bpc;
        proof {
            lemma_code(bpc, l as int);
            lemma2_to64();
            let a = prefix_len(bpc, l as int);
            lemma_pow2_pos((32 - a) as nat);
            assert(self.n_gr_codewords@[l as int] == gr_codewords(bpc, l as int));
        }
        if bits > self.not_gr_prefixmask[i] {
            // Standard GR codeword: leading zeros, a one, an l-bit suffix.
            let zeroprefix: u32 = bits.leading_zeros();
            proof {
                lemma_leading_zeros(bits, (32 - prefix_len(bpc, l as int)) as nat);
            }
            let cwlen: u32 = zeroprefix + 1 + l;
            proof {
                lemma_u32_shr_is_div(bits, (32 - cwlen) as u32);
                lemma_pow2_below_bpc(l);
                lemma_low_product(zeroprefix as int, l, bpc);
                lemma_u32_shl_is_mul(zeroprefix, l);
                lemma_u32_low_bits_mask_is_mod(bits >> (32 - cwlen) as u32, l as nat);
            }
            let high: u32 = zeroprefix << l;
            let low: u32 = (bits >> (32 - cwlen)) & bppmask(l);
            (high + low, cwlen)
        } else {
            // Escape: fixed length, value offset by the number of plain codewords.
            let cwlen: u32 = self.not_gr_cwlen[i];
            let suffix: u32 = self.not_gr_suffixlen[i];
            proof {
                bits::lemma_pow2_below(suffix as nat, 8);
                bits::lemma_pow2_below(suffix as nat, 9);
                lemma_pow2_pos(suffix as nat);
                lemma_u32_shr_is_div(bits, (32 - cwlen) as u32);
                lemma_u32_low_bits_mask_is_mod(bits >> (32 - cwlen) as u32, suffix as nat);
            }
            let low: u32 = (bits >> (32 - cwlen)) & bppmask(suffix);
            (self.n_gr_codewords[i] + low, cwlen)
        }
    }

    /// Encode symbol `n` at code `l`. Returns `(codeword, len)`.
    pub fn golomb_encode(&self, n: u8, l: u32) -> (r: (u32, u32))
        requires
            self.wf(),
            l < self.bpc,
            n < levels(self.bpc),
        ensures
            r.0 == golomb_code(self.bpc, l as int, n as int).0,
            r.1 == golomb_code(self.bpc, l as int, n as int).1,
            0 < r.1 <= 26,
            r.0 < pow2(r.1 as nat),
    {
        let i: usize = l as usize;
        let nv: u32 = n as u32;
        proof {
            lemma_code(self.bpc, l as int);
            lemma_code_fits(self.bpc, l as int, n as int);
            lemma2_to64();
            assert(self.n_gr_codewords@[l as int] == gr_codewords(self.bpc, l as int));
        }
        if nv < self.n_gr_codewords[i] {
            // `(n >> l)` zeros, a 1, then the `l` low bits of `n`.
            proof {
                lemma_u32_shl_is_mul(1, l);
                lemma_u32_shr_is_div(nv, l);
                lemma_u32_low_bits_mask_is_mod(nv, l as nat);
            }
            let codeword: u32 = (1u32 << l) + (nv & bppmask(l));
            let len: u32 = (nv >> l) + l + 1;
            (codeword, len)
        } else {
            // Escape: fixed length, the value less the number of plain codewords.
            (nv - self.n_gr_codewords[i], self.not_gr_cwlen[i])
        }
    }

    /// The length of the codeword of symbol `n` at code `l`.
    pub fn golomb_code_len(&self, n: u8, l: u32) -> (len: u32)
        requires
            self.wf(),
            l < self.bpc,
        ensures
            len == code_len(self.bpc, l as int, n as int),
            0 < len <= 26,
    {
        let i: usize = l as usize;
        proof {
            lemma_code(self.bpc, l as int);
            lemma_code_fits(self.bpc, l as int, n as int);
            assert(self.n_gr_codewords@[l as int] == gr_codewords(self.bpc, l as int));
            lemma_u32_shr_is_div(n as u32, l);
        }
        if (n as u32) < self.n_gr_codewords[i] {
            ((n as u32) >> l) + l + 1
        } else {
            self.not_gr_cwlen[i]
        }
    }
}

/// The length of the codeword of symbol `n` in code `l`.
pub open spec fn code_len(bpc: u32, l: int, n: int) -> int {
    golomb_code(bpc, l, n).1
}

proof fn lemma_pow2_below_bpc(l: u32)
    requires
        l < 8,
    ensures
        1 <= pow2(l as nat) <= 128,
{
    lemma2_to64();
    lemma_pow2_pos(l as nat);
    bits::lemma_pow2_below(l as nat, 7);
}

proof fn lemma_low_product(z: int, l: u32, bpc: u32)
    requires
        bpc <= 8,
        l < bpc,
        0 <= z < prefix_len(bpc, l as int),
    ensures
        0 <= z * pow2(l as nat) < 256,
{
    lemma_code(bpc, l as int);
    let p = pow2(l as nat) as int;
    assert(0 <= z * p < prefix_len(bpc, l as int) * p) by (nonlinear_arith)
        requires
            0 <= z < prefix_len(bpc, l as int),
            p >= 1,
    ;
}

/// How many zeros lead, from the powers of two on either side.
proof fn lemma_leading_zeros(w: u32, k: nat)
    requires
        w >= pow2(k),
        k < 32,
    ensures
        u32_leading_zeros(w) < 32 - k,
        pow2((31 - u32_leading_zeros(w)) as nat) <= w < pow2((32 - u32_leading_zeros(w)) as nat),
{
    broadcast use axiom_u32_leading_zeros;

    let z = u32_leading_zeros(w);
    lemma2_to64();
    lemma_pow2_pos(k);
    assert(w > 0);
    let a = (31 - z) as u32;
    lemma_u32_shr_is_div(w, a);
    lemma_pow2_pos(a as nat);
    assert((w >> a) & 1 != 0 ==> w >> a != 0) by (bit_vector);
    assert(w as nat / pow2(a as nat) >= 1);
    assert(w >= pow2(a as nat)) by (nonlinear_arith)
        requires
            w as nat / pow2(a as nat) >= 1,
            pow2(a as nat) > 0,
    ;
    if z > 0 {
        let b = (32 - z) as u32;
        lemma_u32_shr_is_div(w, b);
        lemma_pow2_pos(b as nat);
        assert(w < pow2(b as nat)) by (nonlinear_arith)
            requires
                w as nat / pow2(b as nat) == 0,
                pow2(b as nat) > 0,
        ;
    }
    if z >= 32 - k {
        bits::lemma_pow2_below((32 - z) as nat, k);
    }
}

pub proof fn lemma_code_fits(bpc: u32, l: int, n: int)
    requires
        bpc <= 8,
        0 <= l < bpc,
        0 <= n,
    ensures
        0 < golomb_code(bpc, l, n).1 <= 26,
        n < levels(bpc) ==> 0 <= golomb_code(bpc, l, n).0 < pow2(golomb_code(bpc, l, n).1 as nat),
        n < gr_codewords(bpc, l) ==> 0 <= n / (pow2(l as nat) as int) < prefix_len(bpc, l),
{
    lemma_code(bpc, l);
    let p = pow2(l as nat) as int;
    let (cw, len) = golomb_code(bpc, l, n);
    if n < gr_codewords(bpc, l) {
        let q = n / p;
        assert(0 <= q < prefix_len(bpc, l) && 0 <= n % p < p) by (nonlinear_arith)
            requires
                q == n / p,
                p >= 1,
                0 <= n < prefix_len(bpc, l) * p,
        ;
        lemma_pow2_unfold((l + 1) as nat);
        bits::lemma_pow2_below((l + 1) as nat, len as nat);
    } else {
        bits::lemma_pow2_below(suffix_len(bpc, l) as nat, len as nat);
    }
}

/// Decoding gives back the symbol that was encoded, whatever bits follow its
/// codeword.
pub proof fn golomb_round_trip(bpc: u32, l: int, n: int, w: u32)
    requires
        bpc <= 8,
        0 <= l < bpc,
        0 <= n < levels(bpc),
        w as int / pow2((32 - golomb_code(bpc, l, n).1) as nat) as int == golomb_code(bpc, l, n).0,
    ensures
        golomb_symbol(bpc, l, w) == (n, golomb_code(bpc, l, n).1),
{
    lemma_code(bpc, l);
    lemma_code_fits(bpc, l, n);
    let (cw, len) = golomb_code(bpc, l, n);
    let d = pow2((32 - len) as nat) as int;
    lemma_pow2_pos((32 - len) as nat);
    assert(cw * d <= w < (cw + 1) * d) by (nonlinear_arith)
        requires
            w as int / d == cw,
            d > 0,
    ;
    let p = pow2(l as nat) as int;
    let a = prefix_len(bpc, l);
    if n < gr_codewords(bpc, l) {
        let q = n / p;
        lemma_pow2_adds(l as nat, (32 - len) as nat);
        lemma_pow2_adds((l + 1) as nat, (32 - len) as nat);
        lemma_pow2_unfold((l + 1) as nat);
        assert(0 <= n % p < p && n == q * p + n % p) by (nonlinear_arith)
            requires
                q == n / p,
                p >= 1,
        ;
        assert(p * d <= cw * d && (cw + 1) * d <= (2 * p) * d) by (nonlinear_arith)
            requires
                p <= cw,
                cw + 1 <= 2 * p,
                d > 0,
        ;
        assert(pow2((31 - q) as nat) <= w < pow2((32 - q) as nat));
        bits::lemma_pow2_below((32 - a) as nat, (31 - q) as nat);
        lemma_leading_zeros(w, (31 - q) as nat);
        let z = u32_leading_zeros(w) as int;
        if z < q {
            bits::lemma_pow2_below((32 - q) as nat, (31 - z) as nat);
        }
        assert(z == q);
        assert(cw % p == n % p) by (nonlinear_arith)
            requires
                cw == p + n % p,
                0 <= n % p < p,
        ;
    } else {
        let k = pow2(suffix_len(bpc, l) as nat) as int;
        lemma_pow2_adds(suffix_len(bpc, l) as nat, (32 - len) as nat);
        assert((cw + 1) * d <= k * d) by (nonlinear_arith)
            requires
                cw + 1 <= k,
                d > 0,
        ;
        assert(w < pow2((32 - a) as nat));
        assert(cw % k == cw) by (nonlinear_arith)
            requires
                0 <= cw < k,
        ;
    }
}

fn ceil_log2(val: u32) -> (k: u32)
    requires
        val <= 256,
    ensures
        k == log2_ceil(val as nat),
        k <= 8,
    decreases val,
{
    if val <= 1 {
        0
    } else {
        proof {
            lemma2_to64();
            lemma_log2_ceil(val as nat, 8);
            lemma_log2_ceil(((val + 1) / 2) as nat, 7);
        }
        1 + ceil_log2((val + 1) / 2)
    }
}

fn decorrelate_table(bpc: u32) -> (t: [u8; 256])
    requires
        bpc <= 8,
    ensures
        forall|s: int| 0 <= s < levels(bpc) ==> #[trigger] t@[s] == u2l(bpc, s),
{
    proof {
        lemma_levels(bpc);
    }
    let top: u32 = bppmask(bpc);
    let mut t: [u8; 256] = [0; 256];
    let mut s: u32 = 0;
    while s <= top
        invariant
            s <= top + 1,
            top == levels(bpc) - 1,
            1 <= levels(bpc) <= 256,
            forall|k: int| 0 <= k < s ==> #[trigger] t@[k] == u2l(bpc, k),
        decreases top + 1 - s,
    {
        let v: u32 = if s <= top / 2 {
            2 * s
        } else {
            2 * (top - s) + 1
        };
        t[s as usize] = v as u8;
        s = s + 1;
    }
    t
}

fn correlate_table(bpc: u32) -> (t: [u32; 256])
    requires
        bpc <= 8,
    ensures
        forall|s: int| 0 <= s < 256 ==> #[trigger] t@[s] == l2u(bpc, s),
{
    proof {
        lemma_levels(bpc);
    }
    let top: u32 = bppmask(bpc);
    let mut t: [u32; 256] = [0; 256];
    let mut s: u32 = 0;
    while s <= top
        invariant
            s <= top + 1,
            top == levels(bpc) - 1,
            1 <= levels(bpc) <= 256,
            forall|k: int| 0 <= k < s ==> #[trigger] t@[k] == l2u(bpc, k),
            forall|k: int| s <= k < 256 ==> #[trigger] t@[k] == 0,
        decreases top + 1 - s,
    {
        let v: u32 = if s % 2 != 0 {
            top - s / 2
        } else {
            s / 2
        };
        t[s as usize] = v;
        s = s + 1;
    }
    t
}

} // verus!
