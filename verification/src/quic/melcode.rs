//! The coder's adaptive state, its pseudo-random sequence, and MELCODE runs.

use vstd::arithmetic::power2::*;
use vstd::bits::*;
use vstd::prelude::*;

use crate::quic::bits;
use crate::quic::bits::{BitReader, BitWriter};
use crate::quic::error::{QuicError, Result};

verus! {

/// The last MELCODE state.
pub const MELCSTATES: u8 = 32;

/// How many pixels a waitmask stays in use.
pub const DEFWMINEXT: u32 = 2048;

/// The last waitmask.
pub const DEFWMIMAX: u32 = 6;

/// The seed that `tabrand` starts from.
pub const TABRAND_SEEDMASK: u32 = 0x0FF;

/// The numbers that `tabrand` walks through.
pub const TABRAND_CHAOS: [u32; 256] = [
    0x02c57542, 0x35427717, 0x2f5a2153, 0x9244f155, 0x7bd26d07, 0x354c6052, 0x57329b28, 0x2993868e,
    0x6cd8808c, 0x147b46e0, 0x99db66af, 0xe32b4cac, 0x1b671264, 0x9d433486, 0x62a4c192, 0x06089a4b,
    0x9e3dce44, 0xdaabee13, 0x222425ea, 0xa46f331d, 0xcd589250, 0x8bb81d7f, 0xc8b736b9, 0x35948d33,
    0xd7ac7fd0, 0x5fbe2803, 0x2cfbc105, 0x013dbc4e, 0x7a37820f, 0x39f88e9e, 0xedd58794, 0xc5076689,
    0xfcada5a4, 0x64c2f46d, 0xb3ba3243, 0x8974b4f9, 0x5a05aebd, 0x20afcd00, 0x39e2b008, 0x88a18a45,
    0x600bde29, 0xf3971ace, 0xf37b0a6b, 0x7041495b, 0x70b707ab, 0x06beffbb, 0x4206051f, 0xe13c4ee3,
    0xc1a78327, 0x91aa067c, 0x8295f72a, 0x732917a6, 0x1d871b4d, 0x4048f136, 0xf1840e7e, 0x6a6048c1,
    0x696cb71a, 0x7ff501c3, 0x0fc6310b, 0x57e0f83d, 0x8cc26e74, 0x11a525a2, 0x946934c7, 0x7cd888f0,
    0x8f9d8604, 0x4f86e73b, 0x04520316, 0xdeeea20c, 0xf1def496, 0x67687288, 0xf540c5b2, 0x22401484,
    0x3478658a, 0xc2385746, 0x01979c2c, 0x5dad73c8, 0x0321f58b, 0xf0fedbee, 0x92826ddf, 0x284bec73,
    0x5b1a1975, 0x03df1e11, 0x20963e01, 0xa17cf12b, 0x740d776e, 0xa7a6bf3c, 0x01b5cce4, 0x1118aa76,
    0xfc6fac0a, 0xce927e9b, 0x00bf2567, 0x806f216c, 0xbca69056, 0x795bd3e9, 0xc9dc4557, 0x8929b6c2,
    0x789d52ec, 0x3f3fbf40, 0xb9197368, 0xa38c15b5, 0xc3b44fa8, 0xca8333b0, 0xb7e8d590, 0xbe807feb,
    0xbf5f8360, 0xd99e2f5c, 0x372928e1, 0x7c757c4c, 0x0db5b154, 0xc01ede02, 0x1fc86e78, 0x1f3985be,
    0xb4805c77, 0x00c880fa, 0x974c1b12, 0x35ab0214, 0xb2dc840d, 0x5b00ae37, 0xd313b026, 0xb260969d,
    0x7f4c8879, 0x1734c4d3, 0x49068631, 0xb9f6a021, 0x6b863e6f, 0xcee5debf, 0x29f8c9fb, 0x53dd6880,
    0x72b61223, 0x1f67a9fd, 0x0a0f6993, 0x13e59119, 0x11cca12e, 0xfe6b6766, 0x16b6effc, 0x97918fc4,
    0xc2b8a563, 0x94f2f741, 0x0bfa8c9a, 0xd1537ae8, 0xc1da349c, 0x873c60ca, 0x95005b85, 0x9b5c080e,
    0xbc8abbd9, 0xe1eab1d2, 0x6dac9070, 0x4ea9ebf1, 0xe0cf30d4, 0x1ef5bd7b, 0xd161043e, 0x5d2fa2e2,
    0xff5d3cae, 0x86ed9f87, 0x2aa1daa1, 0xbd731a34, 0x9e8f4b22, 0xb1c2c67a, 0xc21758c9, 0xa182215d,
    0xccb01948, 0x8d168df7, 0x04238cfe, 0x368c3dbc, 0x0aeadca5, 0xbad21c24, 0x0a71fee5, 0x9fc5d872,
    0x54c152c6, 0xfc329483, 0x6783384a, 0xeddb3e1c, 0x65f90e30, 0x884ad098, 0xce81675a, 0x4b372f7d,
    0x68bf9a39, 0x43445f1e, 0x40f8d8cb, 0x90d5acb6, 0x4cd07282, 0x349eeb06, 0x0c9d5332, 0x520b24ef,
    0x80020447, 0x67976491, 0x2f931ca3, 0xfe9b0535, 0xfcd30220, 0x61a9e6cc, 0xa487d8d7, 0x3f7c5dd1,
    0x7d0127c5, 0x48f51d15, 0x60dea871, 0xc9a91cb7, 0x58b53bb3, 0x9d5e0b2d, 0x624a78b4, 0x30dbee1b,
    0x9bdf22e7, 0x1df5c299, 0x2d5643a7, 0xf4dd35ff, 0x03ca8fd6, 0x53b47ed8, 0x6f2c19aa, 0xfeb0c1f4,
    0x49e54438, 0x2f2577e6, 0xbf876969, 0x72440ea9, 0xfa0bafb8, 0x74f5b3a0, 0x7dd357cd, 0x89ce1358,
    0x6ef2cdda, 0x1e7767f3, 0xa6be9fdb, 0x4f5f88f8, 0xba994a3a, 0x08ca6b65, 0xe0893818, 0x9e00a16a,
    0xf42bfc8f, 0x9972eedc, 0x749c8b51, 0x32c05f5e, 0xd706805f, 0x6bfbb7cf, 0xd9210a10, 0x31a1db97,
    0x923a9559, 0x37a7a1f6, 0x059f8861, 0xca493e62, 0x65157e81, 0x8f6467dd, 0xab85ff9f, 0x9331aff2,
    0x8616b9f5, 0xedbd5695, 0xee7e29b1, 0x313ac44f, 0xb903112f, 0x432ef649, 0xdc0a36c0, 0x61cf2bba,
    0x81474925, 0xa8b6c7ad, 0xee5931de, 0xb2f8158d, 0x59fb7409, 0x2e3dfaed, 0x9af25a3f, 0xe1fed4d5,
];

/// The number of suffix bits in each MELCODE state.
pub open spec fn melc_len(state: int) -> int {
    if state < 16 {
        state / 4
    } else if state < 24 {
        state / 2 - 4
    } else {
        state - 16
    }
}

fn j_table(state: u8) -> (len: u8)
    requires
        state < MELCSTATES,
    ensures
        len == melc_len(state as int),
        len <= 15,
{
    if state < 16 {
        state / 4
    } else if state < 24 {
        state / 2 - 4
    } else {
        state - 16
    }
}

/// How long a run one more bit stands for in each MELCODE state.
pub open spec fn melc_order(state: int) -> int {
    pow2(melc_len(state) as nat) as int
}

/// The trigger at which a bucket's counters are halved.
pub open spec fn trigger(wmidx: u32) -> u32 {
    match wmidx {
        0 => 110,
        1 => 550,
        2 => 900,
        3 => 800,
        4 => 550,
        5 => 400,
        6 => 350,
        7 => 250,
        8 => 140,
        9 => 160,
        _ => 140,
    }
}

/// Per-channel bookkeeping shared by all rows.
#[derive(Debug, Clone, Copy, PartialEq, Eq, Structural)]
pub struct CommonState {
    pub waitcnt: u32,
    pub tabrand_seed: u32,
    pub wm_trigger: u32,
    pub wmidx: u32,
    pub wmileft: u32,
    pub melcstate: u8,
    pub melclen: u8,
    pub melcorder: u32,
}

impl CommonState {
    /// The MELCODE fields belong together.
    pub open spec fn wf(self) -> bool {
        &&& self.melcstate < MELCSTATES
        &&& self.melclen == melc_len(self.melcstate as int)
        &&& self.melcorder == melc_order(self.melcstate as int)
    }

    /// This state with the MELCODE fields of state `s`.
    pub open spec fn at_melc(self, s: int) -> CommonState {
        CommonState {
            melcstate: s as u8,
            melclen: melc_len(s) as u8,
            melcorder: melc_order(s) as u32,
            ..self
        }
    }

    /// What a coder starts from.
    pub open spec fn initial() -> CommonState {
        CommonState {
            waitcnt: 0,
            tabrand_seed: TABRAND_SEEDMASK,
            wm_trigger: 110,
            wmidx: 0,
            wmileft: DEFWMINEXT,
            melcstate: 0,
            melclen: 0,
            melcorder: 1,
        }
    }

    /// Update `wm_trigger` from the current `wmidx`.
    pub fn set_wm_trigger(&mut self)
        ensures
            *final(self) == (CommonState { wm_trigger: trigger(old(self).wmidx), ..*old(self) }),
    {
        self.wm_trigger = match self.wmidx {
            0 => 110,
            1 => 550,
            2 => 900,
            3 => 800,
            4 => 550,
            5 => 400,
            6 => 350,
            7 => 250,
            8 => 140,
            9 => 160,
            _ => 140,
        };
    }

    /// Reset the MELCODE state to its initial config.
    pub fn reset_rle(&mut self)
        ensures
            *final(self) == old(self).at_melc(0),
    {
        proof {
            lemma2_to64();
        }
        self.melcstate = 0;
        self.melclen = 0;
        self.melcorder = 1;
    }

    fn set_melc(&mut self, s: u8)
        requires
            s < MELCSTATES,
        ensures
            *final(self) == old(self).at_melc(s as int),
            final(self).wf(),
    {
        let len: u8 = j_table(s);
        proof {
            lemma_order(s as int);
            lemma_u32_shl_is_mul(1, len as u32);
        }
        self.melcstate = s;
        self.melclen = len;
        self.melcorder = 1u32 << len as u32;
    }
}

impl Default for CommonState {
    fn default() -> (s: Self)
        ensures
            s == CommonState::initial(),
            s.wf(),
    {
        proof {
            lemma2_to64();
        }
        CommonState {
            waitcnt: 0,
            tabrand_seed: TABRAND_SEEDMASK,
            wm_trigger: 110,
            wmidx: 0,
            wmileft: DEFWMINEXT,
            melcstate: 0,
            melclen: 0,
            melcorder: 1,
        }
    }
}

/// The seed after the next number, and that number.
pub open spec fn tabrand_next(seed: u32) -> (u32, u32) {
    let next: u32 = if seed == u32::MAX {
        0
    } else {
        (seed + 1) as u32
    };
    (next, TABRAND_CHAOS@[next as int % 256])
}

/// Pseudo-random sequence used to vary `waitcnt`: increments the seed before
/// indexing.
pub fn tabrand(seed: &mut u32) -> (r: u32)
    ensures
        (*final(seed), r) == tabrand_next(*old(seed)),
{
    *seed = if *seed == u32::MAX {
        0
    } else {
        *seed + 1
    };
    TABRAND_CHAOS[(*seed % 256) as usize]
}

pub proof fn lemma_order(s: int)
    requires
        0 <= s < 32,
    ensures
        0 <= melc_len(s) <= 15,
        1 <= melc_order(s) <= 32768,
{
    lemma2_to64();
    lemma_pow2_pos(melc_len(s) as nat);
    bits::lemma_pow2_below(melc_len(s) as nat, 15);
}

/// The state that `n` one bits lead to.
pub open spec fn climb(s: int, n: nat) -> int {
    if s + n < 31 {
        s + n
    } else {
        31
    }
}

/// The length of the run that `n` one bits stand for.
pub open spec fn climbed(s: int, n: nat) -> int
    decreases n,
{
    if n == 0 {
        0
    } else {
        melc_order(s) + climbed(climb(s, 1), (n - 1) as nat)
    }
}

/// How many one bits follow each other from position `p` on.
pub open spec fn ones_at(body: Seq<u8>, p: int) -> nat
    decreases 8 * body.len() - p,
{
    if p < 8 * body.len() && bits::bit(body, p) {
        1 + ones_at(body, p + 1)
    } else {
        0
    }
}

/// A run at position `p`, in MELCODE state `s`: the ones there, a zero and
/// the suffix of the state that the ones lead to.
pub struct Run {
    pub len: int,
    /// The state that the ones lead to.
    pub top: int,
    /// Where the suffix starts.
    pub suffix: int,
    /// Where the run's code ends.
    pub end: int,
}

pub open spec fn run_at(body: Seq<u8>, p: int, s: int) -> Run {
    let n = ones_at(body, p);
    let top = climb(s, n);
    let suffix = p + n + 1;
    Run {
        len: (climbed(s, n) + bits::number(bits::slice(body, suffix, melc_len(top) as nat)))
            % 4294967296,
        top,
        suffix,
        end: suffix + melc_len(top),
    }
}

/// The state after a run that climbed to `top`.
pub open spec fn step_down(top: int) -> int {
    if top > 0 {
        top - 1
    } else {
        0
    }
}

/// What reading a run comes to.
pub open spec fn run_result(body: Seq<u8>, r: Run) -> Result<u32> {
    match bits::eaten(body, r.suffix) {
        Err(e) => Err(e),
        Ok(_) => match bits::eaten(body, r.end) {
            Err(e) => Err(e),
            Ok(_) => Ok(r.len as u32),
        },
    }
}

proof fn lemma_climbed_push(s: int, n: nat)
    requires
        0 <= s <= 31,
    ensures
        climbed(s, n + 1) == climbed(s, n) + melc_order(climb(s, n)),
    decreases n,
{
    reveal_with_fuel(climbed, 2);
    if n > 0 {
        lemma_climbed_push(climb(s, 1), (n - 1) as nat);
        assert(climb(climb(s, 1), (n - 1) as nat) == climb(s, n));
    }
}

/// Past the end of a body, its bits are zero.
proof fn lemma_bit_inside(body: Seq<u8>, p: int)
    requires
        0 <= p,
        bits::bit(body, p),
    ensures
        p < 8 * body.len(),
{
    if p >= 8 * body.len() {
        assert(4 * (p / 32) + 4 > body.len());
        bits::lemma_spell_zero(32, p % 32);
    }
}

/// The top bit of a window is the bit it starts at.
proof fn lemma_top_bit(body: Seq<u8>, p: int)
    ensures
        (bits::window(body, p) >= 2147483648) == bits::bit(body, p),
{
    lemma2_to64();
    bits::lemma_window_prefix(body, p, 1);
    let one = bits::slice(body, p, 1);
    reveal_with_fuel(bits::number, 2);
    assert(one.drop_last() =~= Seq::<bool>::empty());
    assert(one.last() == bits::bit(body, p));
    assert(bits::number(one) == if bits::bit(body, p) { 1nat } else { 0nat });
    assert(pow2(31) == 2147483648);
    let w = bits::window(body, p) as nat;
    assert(bits::number(one) == w / 2147483648);
    let d: nat = 2147483648;
    assert((w / d >= 1) == (w >= d)) by (nonlinear_arith)
        requires
            d > 0,
    ;
}

/// MELCODE state-run decoder. Consumes leading ones from the bit stream and
/// returns the length of the run they stand for.
pub fn decode_state_run(reader: &mut BitReader<'_>, state: &mut CommonState) -> (r: Result<u32>)
    requires
        old(state).wf(),
    ensures
        ({
            let run = run_at(old(reader).body(), old(reader).at(), old(state).melcstate as int);
            &&& r == run_result(old(reader).body(), run)
            &&& final(reader).body() == old(reader).body()
            &&& final(state).wf()
            &&& match r {
                Ok(_) => {
                    &&& final(reader).at() == run.end
                    &&& *final(state) == old(state).at_melc(step_down(run.top))
                },
                Err(_) => {
                    &&& *final(state) == old(state).at_melc(run.top)
                    &&& final(reader).at() == if bits::eaten(
                        old(reader).body(),
                        run.suffix,
                    ) is Err {
                        run.suffix - 1
                    } else {
                        run.suffix
                    }
                },
            }
        }),
{
    let ghost body = reader.body();
    let ghost p = reader.at();
    let ghost s0 = state.melcstate as int;
    let ghost mut n: nat = 0;
    let mut runlen: u32 = 0;
    let mut top_bit: u32 = reader.peek32();
    proof {
        reader.lemma_at();
        lemma_top_bit(body, p);
        lemma_order(s0);
    }
    while top_bit >= 2147483648
        invariant
            0 <= p,
            0 <= s0 <= 31,
            reader.body() == body,
            reader.at() == p + n,
            top_bit == bits::window(body, p + n),
            (top_bit >= 2147483648) == bits::bit(body, p + n),
            ones_at(body, p) == n + ones_at(body, p + n),
            state.wf(),
            *state == old(state).at_melc(climb(s0, n)),
            runlen == climbed(s0, n) % 4294967296,
        decreases 8 * body.len() - (p + n),
    {
        proof {
            lemma_bit_inside(body, p + n);
            lemma_climbed_push(s0, n);
            lemma_order(climb(s0, n));
        }
        runlen = runlen.wrapping_add(state.melcorder);
        if state.melcstate < MELCSTATES - 1 {
            state.set_melc(state.melcstate + 1);
        }
        let eaten = reader.eat(1);
        assert(eaten is Ok);
        proof {
            n = n + 1;
        }
        top_bit = reader.peek32();
        proof {
            lemma_top_bit(body, p + n);
        }
    }
    let ghost run = run_at(body, p, s0);
    // The terminating zero.
    reader.eat(1)?;
    let len: u32 = state.melclen as u32;
    proof {
        lemma_order(run.top);
        bits::lemma_window_prefix(body, run.suffix, melc_len(run.top) as nat);
    }
    if len != 0 {
        let w: u32 = reader.peek32();
        proof {
            lemma_u32_shr_is_div(w, (32 - len) as u32);
        }
        runlen = runlen.wrapping_add(w >> (32 - len));
        reader.eat(len)?;
    }
    if state.melcstate > 0 {
        state.set_melc(state.melcstate - 1);
    }
    Ok(runlen)
}

/// How many ones the code of a run of length `r` starts with, in state `s`.
pub open spec fn run_ones(s: int, r: int) -> nat
    decreases r,
    when r >= 0 && 0 <= s <= 31
    via run_ones_decreases
{
    if r >= melc_order(s) {
        1 + run_ones(climb(s, 1), r - melc_order(s))
    } else {
        0
    }
}

#[via_fn]
proof fn run_ones_decreases(s: int, r: int) {
    lemma_order(s);
}

/// The code of a run of length `r` in state `s`.
pub open spec fn run_code(s: int, r: int) -> Seq<bool> {
    let n = run_ones(s, r);
    bits::ones(n) + bits::spell((r - climbed(s, n)) as nat, (melc_len(climb(s, n)) + 1) as nat)
}

proof fn lemma_run_ones(s: int, r: int)
    requires
        r >= 0,
        0 <= s <= 31,
    ensures
        0 <= r - climbed(s, run_ones(s, r)) < melc_order(climb(s, run_ones(s, r))),
        run_ones(s, r) <= r,
    decreases r,
{
    lemma_order(s);
    if r >= melc_order(s) {
        lemma_run_ones(climb(s, 1), r - melc_order(s));
        let n = run_ones(s, r);
        assert(climb(climb(s, 1), (n - 1) as nat) == climb(s, n));
    }
}

/// Encode a run of length `runlen`.
pub fn encode_state_run(writer: &mut BitWriter, state: &mut CommonState, runlen: u32)
    requires
        old(state).wf(),
    ensures
        final(writer)@ == old(writer)@ + run_code(old(state).melcstate as int, runlen as int),
        *final(state) == old(state).at_melc(
            step_down(
                climb(
                    old(state).melcstate as int,
                    run_ones(old(state).melcstate as int, runlen as int),
                ),
            ),
        ),
        final(state).wf(),
{
    let ghost s0 = state.melcstate as int;
    let mut hits: u32 = 0;
    let mut rest: u32 = runlen;
    proof {
        lemma_run_ones(s0, runlen as int);
    }
    while rest >= state.melcorder
        invariant
            0 <= s0 <= 31,
            hits + rest <= runlen,
            state.wf(),
            *state == old(state).at_melc(climb(s0, hits as nat)),
            rest == runlen - climbed(s0, hits as nat),
            run_ones(s0, runlen as int) == hits + run_ones(climb(s0, hits as nat), rest as int),
        decreases rest,
    {
        proof {
            lemma_climbed_push(s0, hits as nat);
            lemma_order(climb(s0, hits as nat));
            assert(climb(climb(s0, hits as nat), 1) == climb(s0, (hits + 1) as nat));
        }
        hits = hits + 1;
        rest = rest - state.melcorder;
        if state.melcstate < MELCSTATES - 1 {
            state.set_melc(state.melcstate + 1);
        }
    }
    proof {
        let top = climb(s0, hits as nat);
        lemma_order(top);
        assert(run_ones(top, rest as int) == 0);
        lemma_pow2_unfold((melc_len(top) + 1) as nat);
    }
    writer.write_ones(hits);
    let trailing_len: u32 = state.melclen as u32 + 1;
    writer.write(rest, trailing_len);
    if state.melcstate > 0 {
        state.set_melc(state.melcstate - 1);
    }
    assert(writer@ =~= old(writer)@ + run_code(s0, runlen as int));
}

proof fn lemma_ones_at(body: Seq<u8>, p: int, n: nat)
    requires
        bits::carries(body, p, bits::ones(n)),
        !bits::bit(body, p + n),
    ensures
        ones_at(body, p) == n,
    decreases n,
{
    if n > 0 {
        assert(bits::bit(body, p + 0) == bits::ones(n)[0]);
        assert forall|k: int| 0 <= k < n - 1 implies #[trigger] bits::bit(body, p + 1 + k)
            == bits::ones((n - 1) as nat)[k] by {
            assert(bits::bit(body, p + (1 + k)) == bits::ones(n)[1 + k]);
        }
        lemma_ones_at(body, p + 1, (n - 1) as nat);
    }
}

/// Reading a run gives back the one that was written, and leaves the same
/// state behind.
pub proof fn state_run_round_trip(body: Seq<u8>, p: int, s: int, r: int)
    requires
        0 <= s <= 31,
        0 <= r < 4294967296,
        bits::carries(body, p, run_code(s, r)),
    ensures
        run_at(body, p, s).len == r,
        run_at(body, p, s).top == climb(s, run_ones(s, r)),
        run_at(body, p, s).end == p + run_code(s, r).len(),
        run_result(body, run_at(body, p, s)) == Ok::<u32, QuicError>(r as u32),
{
    let n = run_ones(s, r);
    let top = climb(s, n);
    let len = melc_len(top) as nat;
    let rest = (r - climbed(s, n)) as nat;
    lemma_run_ones(s, r);
    lemma_order(top);
    lemma_pow2_unfold(len + 1);
    let tail = bits::spell(rest, len + 1);
    bits::lemma_carries_split(body, p, bits::ones(n), tail);
    lemma2_to64();
    // The tail is a zero and the suffix.
    bits::lemma_spell_concat(0, 1, rest, len);
    assert(0 * pow2(len) + rest == rest);
    bits::lemma_spell_len(0, 1);
    bits::lemma_spell_len(rest, len);
    assert(tail == bits::spell(0, 1) + bits::spell(rest, len));
    bits::lemma_carries_split(body, p + n, bits::spell(0, 1), bits::spell(rest, len));
    bits::lemma_spell_zero(1, 0);
    assert(bits::bit(body, p + n + 0) == bits::spell(0, 1)[0]);
    lemma_ones_at(body, p, n);
    assert(bits::slice(body, p + n + 1, len) =~= bits::spell(rest, len));
    bits::lemma_number_spell(rest, len);
}

} // verus!
