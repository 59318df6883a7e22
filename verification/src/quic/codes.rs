//! The numbers behind the codes of a QUIC stream.

use vstd::arithmetic::power2::{
    lemma2_to64, lemma_pow2_adds, lemma_pow2_pos, lemma_pow2_unfold, pow2,
};
use vstd::prelude::*;

use crate::quic::bits;
use crate::quic::decode;
use crate::quic::decode::{Coder, Mode};
use crate::quic::family;
use crate::quic::melcode;
use crate::quic::melcode::CommonState;
use crate::quic::model;
use crate::quic::model::{BucketModel, Chan};

verus! {

/// How many zero bits mark an escape in each code of eight bits.
pub open spec fn marks_of_8() -> Seq<int> {
    seq![18, 18, 18, 18, 15, 7, 3, 1]
}

/// How many bits an escape has behind its mark, in each code of eight bits.
pub open spec fn tails_of_8() -> Seq<int> {
    seq![8, 8, 8, 7, 4, 5, 6, 7]
}

/// How many zero bits mark an escape in each code of five bits.
pub open spec fn marks_of_5() -> Seq<int> {
    seq![21, 15, 7, 3, 1]
}

/// How many bits an escape has behind its mark, in each code of five bits.
pub open spec fn tails_of_5() -> Seq<int> {
    seq![4, 1, 2, 3, 4]
}

/// The codeword of residual `n` in code `l`, with these marks and tails: as
/// many zeros as there are whole `2^l` in `n`, a one, and the `l` low bits of
/// `n`; or, where that many zeros are the mark, the mark and what `n` has
/// beyond the residuals that can be written without it.
pub open spec fn codeword(l: int, n: int, mark: int, tail: int) -> (int, int) {
    let unit = pow2(l as nat) as int;
    if n / unit < mark {
        (unit + n % unit, n / unit + 1 + l)
    } else {
        (n - mark * unit, mark + tail)
    }
}

proof fn lemma_tables_8(l: int)
    requires
        0 <= l < 8,
    ensures
        family::prefix_len(8, l) == marks_of_8()[l],
        family::suffix_len(8, l) == tails_of_8()[l],
{
    lemma2_to64();
    if l == 0 {
        let mark = family::prefix_len(8, 0);
        let unit = pow2(0) as int;
        assert(mark * unit == 18) by (nonlinear_arith)
            requires
                mark == 18,
                unit == 1,
        ;
        assert(family::log2_ceil(238) == 8) by {
            reveal_with_fuel(family::log2_ceil, 10);
        }
    }
    if l == 1 {
        let mark = family::prefix_len(8, 1);
        let unit = pow2(1) as int;
        assert(mark * unit == 36) by (nonlinear_arith)
            requires
                mark == 18,
                unit == 2,
        ;
        assert(family::log2_ceil(220) == 8) by {
            reveal_with_fuel(family::log2_ceil, 10);
        }
    }
    if l == 2 {
        let mark = family::prefix_len(8, 2);
        let unit = pow2(2) as int;
        assert(mark * unit == 72) by (nonlinear_arith)
            requires
                mark == 18,
                unit == 4,
        ;
        assert(family::log2_ceil(184) == 8) by {
            reveal_with_fuel(family::log2_ceil, 10);
        }
    }
    if l == 3 {
        let mark = family::prefix_len(8, 3);
        let unit = pow2(3) as int;
        assert(mark * unit == 144) by (nonlinear_arith)
            requires
                mark == 18,
                unit == 8,
        ;
        assert(family::log2_ceil(112) == 7) by {
            reveal_with_fuel(family::log2_ceil, 10);
        }
    }
    if l == 4 {
        let mark = family::prefix_len(8, 4);
        let unit = pow2(4) as int;
        assert(mark * unit == 240) by (nonlinear_arith)
            requires
                mark == 15,
                unit == 16,
        ;
        assert(family::log2_ceil(16) == 4) by {
            reveal_with_fuel(family::log2_ceil, 10);
        }
    }
    if l == 5 {
        let mark = family::prefix_len(8, 5);
        let unit = pow2(5) as int;
        assert(mark * unit == 224) by (nonlinear_arith)
            requires
                mark == 7,
                unit == 32,
        ;
        assert(family::log2_ceil(32) == 5) by {
            reveal_with_fuel(family::log2_ceil, 10);
        }
    }
    if l == 6 {
        let mark = family::prefix_len(8, 6);
        let unit = pow2(6) as int;
        assert(mark * unit == 192) by (nonlinear_arith)
            requires
                mark == 3,
                unit == 64,
        ;
        assert(family::log2_ceil(64) == 6) by {
            reveal_with_fuel(family::log2_ceil, 10);
        }
    }
    if l == 7 {
        let mark = family::prefix_len(8, 7);
        let unit = pow2(7) as int;
        assert(mark * unit == 128) by (nonlinear_arith)
            requires
                mark == 1,
                unit == 128,
        ;
        assert(family::log2_ceil(128) == 7) by {
            reveal_with_fuel(family::log2_ceil, 10);
        }
    }
}

proof fn lemma_tables_5(l: int)
    requires
        0 <= l < 5,
    ensures
        family::prefix_len(5, l) == marks_of_5()[l],
        family::suffix_len(5, l) == tails_of_5()[l],
{
    lemma2_to64();
    if l == 0 {
        let mark = family::prefix_len(5, 0);
        let unit = pow2(0) as int;
        assert(mark * unit == 21) by (nonlinear_arith)
            requires
                mark == 21,
                unit == 1,
        ;
        assert(family::log2_ceil(11) == 4) by {
            reveal_with_fuel(family::log2_ceil, 10);
        }
    }
    if l == 1 {
        let mark = family::prefix_len(5, 1);
        let unit = pow2(1) as int;
        assert(mark * unit == 30) by (nonlinear_arith)
            requires
                mark == 15,
                unit == 2,
        ;
        assert(family::log2_ceil(2) == 1) by {
            reveal_with_fuel(family::log2_ceil, 10);
        }
    }
    if l == 2 {
        let mark = family::prefix_len(5, 2);
        let unit = pow2(2) as int;
        assert(mark * unit == 28) by (nonlinear_arith)
            requires
                mark == 7,
                unit == 4,
        ;
        assert(family::log2_ceil(4) == 2) by {
            reveal_with_fuel(family::log2_ceil, 10);
        }
    }
    if l == 3 {
        let mark = family::prefix_len(5, 3);
        let unit = pow2(3) as int;
        assert(mark * unit == 24) by (nonlinear_arith)
            requires
                mark == 3,
                unit == 8,
        ;
        assert(family::log2_ceil(8) == 3) by {
            reveal_with_fuel(family::log2_ceil, 10);
        }
    }
    if l == 4 {
        let mark = family::prefix_len(5, 4);
        let unit = pow2(4) as int;
        assert(mark * unit == 16) by (nonlinear_arith)
            requires
                mark == 1,
                unit == 16,
        ;
        assert(family::log2_ceil(16) == 4) by {
            reveal_with_fuel(family::log2_ceil, 10);
        }
    }
}

proof fn lemma_under(n: int, unit: int, mark: int)
    requires
        0 < unit,
        0 <= n,
    ensures
        n / unit < mark <==> n < mark * unit,
{
    assert(n / unit < mark <==> n < mark * unit) by (nonlinear_arith)
        requires
            0 < unit,
            0 <= n,
    ;
}

/// What the codewords are, for samples of eight bits; and a codeword is read
/// as the residual that it stands for, whatever follows it.
pub proof fn codewords_of_8(l: int, n: int, w: u32)
    requires
        0 <= l < 8,
        0 <= n < 256,
    ensures
        ({
            let (code, len) = codeword(l, n, marks_of_8()[l], tails_of_8()[l]);
            &&& family::golomb_code(8, l, n) == (code, len)
            &&& w as int / pow2((32 - len) as nat) as int == code ==> family::golomb_symbol(8, l, w)
                == (n, len)
        }),
{
    lemma_tables_8(l);
    lemma_pow2_pos(l as nat);
    lemma_under(n, pow2(l as nat) as int, marks_of_8()[l]);
    lemma2_to64();
    let (code, len) = codeword(l, n, marks_of_8()[l], tails_of_8()[l]);
    if w as int / pow2((32 - len) as nat) as int == code {
        family::golomb_round_trip(8, l, n, w);
    }
}

/// What the codewords are, for samples of five bits; and a codeword is read as
/// the residual that it stands for, whatever follows it.
pub proof fn codewords_of_5(l: int, n: int, w: u32)
    requires
        0 <= l < 5,
        0 <= n < 32,
    ensures
        ({
            let (code, len) = codeword(l, n, marks_of_5()[l], tails_of_5()[l]);
            &&& family::golomb_code(5, l, n) == (code, len)
            &&& w as int / pow2((32 - len) as nat) as int == code ==> family::golomb_symbol(5, l, w)
                == (n, len)
        }),
{
    lemma_tables_5(l);
    lemma_pow2_pos(l as nat);
    lemma_under(n, pow2(l as nat) as int, marks_of_5()[l]);
    lemma2_to64();
    let (code, len) = codeword(l, n, marks_of_5()[l], tails_of_5()[l]);
    if w as int / pow2((32 - len) as nat) as int == code {
        family::golomb_round_trip(5, l, n, w);
    }
}

/// A difference and its residual: differences that go up have the even
/// residuals, those that go down the odd ones, the nearest first.
pub proof fn residuals_alternate(bpc: u32, m: int)
    requires
        1 <= bpc <= 8,
        0 <= 2 * m < pow2(bpc as nat),
    ensures
        family::u2l(bpc, m) == 2 * m,
        family::l2u(bpc, 2 * m) == m,
        m > 0 ==> family::u2l(bpc, pow2(bpc as nat) - m) == 2 * m - 1,
        m > 0 ==> family::l2u(bpc, 2 * m - 1) == pow2(bpc as nat) - m,
{
    lemma_pow2_unfold(bpc as nat);
    lemma_pow2_pos((bpc - 1) as nat);
}

/// Contexts share a bucket in groups of 1, 2, 4 and so on, from 0 up: group `k`
/// starts at `2^k - 1`. The last group has all that is left.
pub proof fn buckets_double_in_size(bpc: u32, k: int, v: int)
    requires
        1 <= bpc <= 8,
        0 <= k < bpc,
        pow2(k as nat) - 1 <= v,
        k < bpc - 1 ==> v < pow2((k + 1) as nat) - 1,
    ensures
        model::bucket_of(bpc, v) == k,
{
    if k < bpc - 1 {
        bits::lemma_pow2_below((k + 1) as nat, (bpc - 1) as nat);
        model::lemma_log2_floor((v + 1) as nat, k as nat);
    }
}

proof fn lemma_best(bpc: u32, c: Seq<u32>, l: int)
    requires
        1 <= bpc,
        0 <= l < bpc,
    ensures
        ({
            let b = model::best_code(bpc, c, l);
            &&& l <= b < bpc
            &&& forall|i: int| l <= i < b ==> c[b] <= #[trigger] c[i]
            &&& forall|i: int| b < i < bpc ==> c[b] <= #[trigger] c[i]
        }),
    decreases bpc - l,
{
    if l < bpc - 1 {
        lemma_best(bpc, c, l + 1);
    }
}

proof fn lemma_last_best(bpc: u32, c: Seq<u32>, l: int)
    requires
        1 <= bpc,
        0 <= l < bpc,
    ensures
        ({
            let b = model::best_code(bpc, c, l);
            forall|i: int| b < i < bpc ==> c[b] < #[trigger] c[i]
        }),
    decreases bpc - l,
{
    if l < bpc - 1 {
        lemma_best(bpc, c, l + 1);
        lemma_last_best(bpc, c, l + 1);
    }
}

/// A bucket that learns a residual adds to each code the length that the
/// residual has in it, and from then on uses the code with the least; of
/// several such codes the last. Once that least is over the trigger, all are
/// halved.
#[verifier::rlimit(60)]
#[verifier::spinoff_prover]
pub proof fn buckets_learn_lengths(m: BucketModel, bpc: u32, trigger: u32, v: u8, l: int)
    requires
        1 <= bpc <= 8,
        m.ok(bpc),
        0 <= l < bpc,
        forall|i: int| 0 <= i < bpc ==> #[trigger] m.counters[i] < 0x8000_0000,
    ensures
        ({
            let after = m.learn(bpc, trigger, v);
            let sum = |i: int| m.counters[i] + family::golomb_code(bpc, i, v as int).1;
            let over = sum(after.best) > trigger;
            &&& 0 <= after.best < bpc
            &&& sum(after.best) <= sum(l)
            &&& l > after.best ==> sum(after.best) < sum(l)
            &&& after.counters[l] == if over {
                sum(l) / 2
            } else {
                sum(l)
            }
        }),
{
    let c = model::counted(bpc, m.counters, v);
    lemma_best(bpc, c, 0);
    lemma_last_best(bpc, c, 0);
    let b = model::best_code(bpc, c, 0);
    family::lemma_code_fits(bpc, l, v as int);
    family::lemma_code_fits(bpc, b, v as int);
    assert(m.counters[l] < 0x8000_0000);
    assert(m.counters[b] < 0x8000_0000);
    assert(c[b] <= c[l]);
}

/// A channel learns the residual of column `i` in the bucket of the residual
/// before it, and in no other.
pub proof fn channels_learn_in_one_bucket(c: Chan, bpc: u32, trigger: u32, i: int, k: int)
    requires
        1 <= bpc <= 8,
        c.ok(bpc, c.res.len() as int),
        0 <= i < c.res.len(),
        0 <= k < bpc,
    ensures
        ({
            let before = if i == 0 {
                c.left
            } else {
                c.res[i - 1]
            };
            let group = model::bucket_of(bpc, before as int);
            let after = c.learn(bpc, trigger, i);
            &&& after.buckets[k] == if k == group {
                c.buckets[k].learn(bpc, trigger, c.res[i])
            } else {
                c.buckets[k]
            }
            &&& after.res == c.res
            &&& after.line == c.line
            &&& after.above == c.above
        }),
{
    model::lemma_bucket(bpc, c.context(i) as int);
}

/// The residual of the next sample is read in the code that the bucket of the
/// residual before it uses; at the start of a row that is the first residual of
/// the row above. It stands at the place that has been read up to, and reading
/// goes on behind it.
pub proof fn residuals_are_read_in_the_best_code(c: Chan, body: Seq<u8>, bpc: u32, p: int)
    requires
        1 <= bpc <= 8,
        c.line.len() < c.res.len(),
    ensures
        c.sample_in(body, bpc, p) matches Ok((d, q)) ==> {
            let x = c.line.len() as int;
            let before = if x == 0 {
                c.left
            } else {
                c.res[x - 1]
            };
            let l = c.buckets[model::bucket_of(bpc, before as int)].best;
            let w = bits::number(
                Seq::new(32, |i: int| bits::bit(body, p + i)),
            ) as u32;
            let (residual, len) = family::golomb_symbol(bpc, l, w);
            &&& before < pow2(bpc as nat)
            &&& residual < 256
            &&& d.res[x] == residual as u8
            &&& q == p + len
            &&& q <= 8 * body.len() + 32
            &&& d.buckets == c.buckets
        },
{
}

/// Where no run starts, a pixel is read at column `j`; it is learned there if it
/// is the one that was waited for, and then the wait for the next is drawn.
pub proof fn pixels_are_learned_when_due(
    body: Seq<u8>,
    mode: Mode,
    c: Coder,
    j: int,
    due: int,
    ended: int,
    end: int,
)
    requires
        j < end,
        !decode::run_here(mode.runs, c.chans, j, ended),
    ensures
        decode::pixel_in(body, mode.bpc, c.chans, 0, c.p) is Err ==> decode::seg_in(
            body,
            mode,
            c,
            j,
            due,
            ended,
            end,
        ) is Err,
        decode::pixel_in(body, mode.bpc, c.chans, 0, c.p) matches Ok((chans, q)) ==> {
            let (st, wait) = decode::drawn(c.st);
            let learned = Seq::new(
                chans.len(),
                |k: int| chans[k].learn(mode.bpc, c.st.wm_trigger, j),
            );
            let on = decode::seg_in(body, mode, c, j, due, ended, end);
            &&& j == due ==> on == decode::seg_in(
                body,
                mode,
                Coder { st, chans: learned, p: q },
                j + 1,
                j + 1 + wait,
                ended,
                end,
            )
            &&& j != due ==> on == decode::seg_in(
                body,
                mode,
                Coder { st: c.st, chans, p: q },
                j + 1,
                due,
                ended,
                end,
            )
        },
{
}

/// A channel starts with every bucket on the last code, nothing counted, no row
/// above and residuals of nought; and a row starts with the first residual of
/// the row above as the one before it.
pub proof fn channels_start_so(bpc: u32, width: int, c: Chan, k: int, l: int)
    requires
        1 <= bpc <= 8,
        0 < width,
        0 <= k < bpc,
        0 <= l < 8,
    ensures
        ({
            let first = Chan::fresh(bpc, width);
            &&& first.buckets[k].best == bpc - 1
            &&& first.buckets[k].counters[l] == 0
            &&& first.left == 0
            &&& first.above is None
            &&& first.line.len() == 0
            &&& first.res.len() == width
            &&& forall|x: int| 0 <= x < width ==> #[trigger] first.res[x] == 0
        }),
        c.next_row().left == c.res[0],
        c.next_row().above == Some(c.line),
        c.next_row().line.len() == 0,
        c.next_row().buckets == c.buckets,
        c.next_row().res == c.res,
{
}

/// The bits that a run's length has beyond whole units, in each state.
pub open spec fn run_bits() -> Seq<int> {
    seq![
        0, 0, 0, 0, 1, 1, 1, 1, 2, 2, 2, 2, 3, 3, 3, 3, 4, 4, 5, 5, 6, 6, 7, 7, 8, 9, 10, 11, 12, 13, 14,
        15,
    ]
}

/// How a run is read: a one bit adds a unit, two to the power of the state's
/// bits, and leads to the next state; a zero bit ends it, and the state's bits
/// that follow are what it has beyond.
pub proof fn runs_grow_by_units(body: Seq<u8>, p: int, s: int)
    requires
        0 <= s < 32,
        0 <= p,
    ensures
        ({
            let run = melcode::run_at(body, p, s);
            let up = if s < 31 {
                s + 1
            } else {
                31
            };
            let rest = melcode::run_at(body, p + 1, up);
            &&& p < 8 * body.len() && bits::bit(body, p) ==> {
                &&& run.len == (pow2(run_bits()[s] as nat) + rest.len) % 0x1_0000_0000
                &&& run.top == rest.top
                &&& run.end == rest.end
            }
            &&& !(p < 8 * body.len() && bits::bit(body, p)) ==> {
                &&& run.len == bits::number(bits::slice(body, p + 1, run_bits()[s] as nat))
                    % 0x1_0000_0000
                &&& run.top == s
                &&& run.end == p + 1 + run_bits()[s]
            }
        }),
{
    let up = melcode::climb(s, 1);
    assert(melcode::melc_len(s) == run_bits()[s]);
    let n = melcode::ones_at(body, p);
    if p < 8 * body.len() && bits::bit(body, p) {
        let m = melcode::ones_at(body, p + 1);
        assert(n == m + 1);
        assert(melcode::climb(s, n) == melcode::climb(up, m));
        assert(melcode::climbed(s, n) == melcode::melc_order(s) + melcode::climbed(up, m));
        let top = melcode::climb(s, n);
        let tail = bits::number(bits::slice(body, p + n + 1, melcode::melc_len(top) as nat)) as int;
        let a = melcode::melc_order(s);
        let b = melcode::climbed(up, m) + tail;
        vstd::arithmetic::div_mod::lemma_add_mod_noop(a, b, 0x1_0000_0000);
        vstd::arithmetic::div_mod::lemma_add_mod_noop(a, b % 0x1_0000_0000, 0x1_0000_0000);
        vstd::arithmetic::div_mod::lemma_mod_twice(b, 0x1_0000_0000);
    } else {
        assert(n == 0);
        assert(melcode::climbed(s, 0) == 0);
        assert(melcode::climb(s, 0) == s);
    }
}

/// After a run the state goes one back, but not before the first.
pub proof fn runs_end_one_state_down(top: int)
    requires
        0 <= top < 32,
    ensures
        top > 0 ==> melcode::step_down(top) == top - 1,
        melcode::step_down(0) == 0,
{
}

/// The count over which a bucket is halved, at each stage.
pub proof fn triggers_by_stage(stage: u32)
    ensures
        ({
            let counts = seq![110int, 550, 900, 800, 550, 400, 350, 250, 140, 160];
            melcode::trigger(stage) == if stage < 10 {
                counts[stage as int]
            } else {
                140
            }
        }),
{
}

/// Coding starts in stage 0, with 2048 pixels to the next stage; at once it
/// learns, and runs are in their first state. Stages go up to 6.
pub proof fn coding_starts_so(st: CommonState, stage: int)
    requires
        0 <= stage <= 6,
    ensures
        ({
            let first = CommonState::initial();
            &&& first.waitcnt == 0
            &&& first.tabrand_seed == 255
            &&& first.wmidx == 0
            &&& first.wm_trigger == 110
            &&& first.wmileft == 2048
            &&& first.melcstate == 0
        }),
        decode::at_waitmask(st, stage).wmidx == stage,
        decode::at_waitmask(st, stage).wmileft == 2048,
        decode::at_waitmask(st, stage).wm_trigger == melcode::trigger(stage as u32),
        decode::at_waitmask(st, stage).waitcnt == st.waitcnt,
        decode::at_waitmask(st, stage).tabrand_seed == st.tabrand_seed,
        decode::at_waitmask(st, stage).melcstate == st.melcstate,
{
}

/// The pixels to wait until the next is learned are drawn from the table, one
/// entry after the other and round again; in stage `k` only the `k` low bits
/// count.
pub proof fn waits_are_drawn_in_turn(st: CommonState)
    requires
        st.wmidx <= 6,
    ensures
        ({
            let (after, wait) = decode::drawn(st);
            let turn = (st.tabrand_seed + 1) % 256;
            &&& after.tabrand_seed == (st.tabrand_seed + 1) % 0x1_0000_0000
            &&& wait == melcode::TABRAND_CHAOS@[turn] as int % pow2(st.wmidx as nat) as int
            &&& after == (CommonState { tabrand_seed: after.tabrand_seed, ..st })
        }),
{
    lemma2_to64();
    let (seed, r) = melcode::tabrand_next(st.tabrand_seed);
    assert(seed == (st.tabrand_seed + 1) % 0x1_0000_0000);
    assert(seed % 256 == (st.tabrand_seed + 1) % 256);
    assert(r & 0 == 0 && r & 1 == r % 2 && r & 3 == r % 4 && r & 7 == r % 8 && r & 15 == r % 16 && r
        & 31 == r % 32 && r & 63 == r % 64) by (bit_vector);
}

proof fn lemma_spelled(v: nat, n: nat, i: int)
    requires
        0 <= i < n,
    ensures
        bits::spell(v, n).len() == n,
        bits::spell(v, n)[i] <==> v as int / pow2((n - 1 - i) as nat) as int % 2 == 1,
    decreases n,
{
    bits::lemma_spell_len(v, n);
    bits::lemma_spell_len(v / 2, (n - 1) as nat);
    if i == n - 1 {
        lemma2_to64();
        assert(pow2(0) == 1);
        assert(v as int / 1 == v);
    } else {
        lemma_spelled(v / 2, (n - 1) as nat, i);
        let d = pow2((n - 2 - i) as nat) as int;
        lemma_pow2_pos((n - 2 - i) as nat);
        lemma_pow2_unfold((n - 1 - i) as nat);
        vstd::arithmetic::div_mod::lemma_div_denominator(v as int, 2, d);
    }
}

proof fn lemma_bit_of_sum(b: int, more: int, t: nat)
    requires
        0 <= b < 256,
        0 <= more,
        t < 8,
    ensures
        (b + 256 * more) / pow2(t) as int % 2 == b / pow2(t) as int % 2,
{
    let d = pow2(t) as int;
    let e = pow2((7 - t) as nat) as int;
    lemma2_to64();
    lemma_pow2_pos(t);
    lemma_pow2_pos((7 - t) as nat);
    lemma_pow2_adds(t, (7 - t) as nat);
    assert(256 * more == (2 * (e * more)) * d) by (nonlinear_arith)
        requires
            d * e == 128,
    ;
    vstd::arithmetic::div_mod::lemma_hoist_over_denominator(b, 2 * (e * more), d as nat);
    assert((b / d + 2 * (e * more)) % 2 == b / d % 2);
}

proof fn lemma_bit_of_word(b0: int, b1: int, b2: int, b3: int, m: int, t: nat)
    requires
        0 <= b0 < 256,
        0 <= b1 < 256,
        0 <= b2 < 256,
        0 <= b3 < 256,
        0 <= m < 4,
        t < 8,
    ensures
        ({
            let w = b0 + 256 * b1 + 65536 * b2 + 16777216 * b3;
            let b = seq![b0, b1, b2, b3][m];
            w / pow2((8 * m + t) as nat) as int % 2 == b / pow2(t) as int % 2
        }),
{
    let w = b0 + 256 * b1 + 65536 * b2 + 16777216 * b3;
    let d = pow2((8 * m) as nat) as int;
    lemma2_to64();
    lemma_pow2_pos((8 * m) as nat);
    lemma_pow2_pos(t);
    lemma_pow2_adds((8 * m) as nat, t);
    vstd::arithmetic::div_mod::lemma_div_denominator(w, d, pow2(t) as int);
    if m == 0 {
        assert(w / 1 == w);
        lemma_bit_of_sum(b0, b1 + 256 * b2 + 65536 * b3, t);
    } else if m == 1 {
        assert(w / 256 == b1 + 256 * (b2 + 256 * b3));
        lemma_bit_of_sum(b1, b2 + 256 * b3, t);
    } else if m == 2 {
        assert(w / 65536 == b2 + 256 * b3);
        lemma_bit_of_sum(b2, b3, t);
    } else {
        assert(w / 16777216 == b3);
        lemma_bit_of_sum(b3, 0, t);
    }
}

/// The bits of a stream come in words of four bytes, the lowest byte first; in
/// each word the highest bit comes first. So the first eight bits are those of
/// the fourth byte, from the top.
pub proof fn bits_come_from_the_top_of_words(body: Seq<u8>, p: int)
    requires
        0 <= p,
        4 * (p / 32) + 4 <= body.len(),
    ensures
        ({
            let byte = body[4 * (p / 32) + 3 - p % 32 / 8] as int;
            bits::bit(body, p) <==> byte / pow2((7 - p % 8) as nat) as int % 2 == 1
        }),
{
    let k = p / 32;
    let i = p % 32;
    let m = 3 - i / 8;
    let t = (7 - p % 8) as nat;
    assert(p % 8 == i % 8);
    assert(31 - i == 8 * m + t);
    lemma_spelled(bits::word(body, k) as nat, 32, i);
    let b0 = body[4 * k] as int;
    let b1 = body[4 * k + 1] as int;
    let b2 = body[4 * k + 2] as int;
    let b3 = body[4 * k + 3] as int;
    lemma_bit_of_word(b0, b1, b2, b3, m, t);
    assert(seq![b0, b1, b2, b3][m] == body[4 * k + 3 - i / 8] as int);
}

/// The entries of the table from `i` on, each times its place from 1, summed.
pub open spec fn round_weight(i: int, n: nat) -> int
    decreases n,
{
    if n == 0 {
        0
    } else {
        (i + 1) * melcode::TABRAND_CHAOS@[i] + round_weight(i + 1, (n - 1) as nat)
    }
}

proof fn lemma_weight_joins(i: int, a: nat, b: nat)
    ensures
        round_weight(i, a + b) == round_weight(i, a) + round_weight(i + a, b),
    decreases a,
{
    if a > 0 {
        lemma_weight_joins(i + 1, (a - 1) as nat, b);
        assert((a - 1) as nat + b == (a + b - 1) as nat);
    }
}

/// The draws of a whole round, each times its place in the round, come to one
/// number: no draw is another, nor in another place.
#[verifier::rlimit(60)]
#[verifier::spinoff_prover]
pub proof fn a_round_of_draws_has_its_weight()
    ensures
        round_weight(0, 256) == 70271897236242,
{
    assert(round_weight(0, 16) == 208965302331) by {
        reveal_with_fuel(round_weight, 17);
    }
    assert(round_weight(16, 16) == 871470669133) by {
        reveal_with_fuel(round_weight, 17);
    }
    assert(round_weight(32, 16) == 1412194016256) by {
        reveal_with_fuel(round_weight, 17);
    }
    assert(round_weight(48, 16) == 1683623069706) by {
        reveal_with_fuel(round_weight, 17);
    }
    assert(round_weight(64, 16) == 2233343364406) by {
        reveal_with_fuel(round_weight, 17);
    }
    assert(round_weight(80, 16) == 2753829088986) by {
        reveal_with_fuel(round_weight, 17);
    }
    assert(round_weight(96, 16) == 3756636961539) by {
        reveal_with_fuel(round_weight, 17);
    }
    assert(round_weight(112, 16) == 3827719759246) by {
        reveal_with_fuel(round_weight, 17);
    }
    assert(round_weight(128, 16) == 4217491800622) by {
        reveal_with_fuel(round_weight, 17);
    }
    assert(round_weight(144, 16) == 6336780891141) by {
        reveal_with_fuel(round_weight, 17);
    }
    assert(round_weight(160, 16) == 5593071556812) by {
        reveal_with_fuel(round_weight, 17);
    }
    assert(round_weight(176, 16) == 5347995206585) by {
        reveal_with_fuel(round_weight, 17);
    }
    assert(round_weight(192, 16) == 6127159014861) by {
        reveal_with_fuel(round_weight, 17);
    }
    assert(round_weight(208, 16) == 7355802338471) by {
        reveal_with_fuel(round_weight, 17);
    }
    assert(round_weight(224, 16) == 8287427514403) by {
        reveal_with_fuel(round_weight, 17);
    }
    assert(round_weight(240, 16) == 10258386681744) by {
        reveal_with_fuel(round_weight, 17);
    }
    lemma_weight_joins(0, 16, 16);
    lemma_weight_joins(0, 32, 16);
    lemma_weight_joins(0, 48, 16);
    lemma_weight_joins(0, 64, 16);
    lemma_weight_joins(0, 80, 16);
    lemma_weight_joins(0, 96, 16);
    lemma_weight_joins(0, 112, 16);
    lemma_weight_joins(0, 128, 16);
    lemma_weight_joins(0, 144, 16);
    lemma_weight_joins(0, 160, 16);
    lemma_weight_joins(0, 176, 16);
    lemma_weight_joins(0, 192, 16);
    lemma_weight_joins(0, 208, 16);
    lemma_weight_joins(0, 224, 16);
    lemma_weight_joins(0, 240, 16);
}

} // verus!
