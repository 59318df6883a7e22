//! How the samples of a picture follow from their neighbours.
//!
//! A channel is read sample by sample, row by row. What is read of a sample is
//! a residual, which says how far the sample lies from what its neighbours
//! let expect. Where rows go on as they did before, samples repeat instead.

use vstd::arithmetic::power2::{lemma2_to64, lemma_pow2_pos, pow2};
use vstd::prelude::*;

use crate::quic::decode;
use crate::quic::decode::{Coder, Mode};
use crate::quic::family;
use crate::quic::image;
use crate::quic::model::Chan;

verus! {

/// How far a residual moves a sample: 0, 1, 2, 3, 4 mean nought, one down, one
/// up, two down, two up, and so on.
pub open spec fn shift_of(residual: int) -> int {
    if residual % 2 == 0 {
        residual / 2
    } else {
        -((residual + 1) / 2)
    }
}

/// What the neighbours of the sample at column `x` of a row let expect: halfway
/// between the left one and the upper one, rounded down; the left one in the
/// first row, the upper one in the first column, and nought in the corner.
pub open spec fn expected(row: Seq<u8>, above: Option<Seq<u8>>, x: int) -> int {
    match above {
        None => if x == 0 {
            0
        } else {
            row[x - 1] as int
        },
        Some(upper) => if x == 0 {
            upper[0] as int
        } else {
            (row[x - 1] + upper[x]) / 2
        },
    }
}

/// The sample at column `x` of a row is what its neighbours let expect, moved
/// by the residual; samples of `bpc` bits wrap. A residual that no sample of
/// `bpc` bits has moves nothing.
pub open spec fn moved(
    bpc: u32,
    row: Seq<u8>,
    above: Option<Seq<u8>>,
    residuals: Seq<u8>,
    x: int,
) -> bool {
    let shift = if residuals[x] < pow2(bpc as nat) {
        shift_of(residuals[x] as int)
    } else {
        0
    };
    row[x] == (expected(row, above, x) + shift) % (pow2(bpc as nat) as int)
}

/// The sample at column `x` of a row that is read with runs repeats the one on
/// its left. Runs do not start before the fourth column of a row, nor in the
/// first row.
pub open spec fn repeated(runs: bool, row: Seq<u8>, above: Option<Seq<u8>>, x: int) -> bool {
    runs && x > 2 && above is Some && row[x] == row[x - 1]
}

/// The sample at column `x` follows from its neighbours.
pub open spec fn follows(mode: Mode, c: Chan, x: int) -> bool {
    ||| moved(mode.bpc, c.line, c.above, c.res, x)
    ||| repeated(mode.runs, c.line, c.above, x)
}

/// From `c` to `d` samples were added that follow from their neighbours, and
/// nothing that was there has changed.
spec fn grew(mode: Mode, c: Chan, d: Chan) -> bool {
    &&& d.above == c.above
    &&& d.res.len() == c.res.len()
    &&& c.line.len() <= d.line.len()
    &&& d.line.take(c.line.len() as int) == c.line
    &&& forall|x: int| 0 <= x < c.line.len() ==> #[trigger] d.res[x] == c.res[x]
    &&& forall|x: int| c.line.len() <= x < d.line.len() ==> #[trigger] follows(mode, d, x)
}

spec fn all_grew(mode: Mode, cs: Seq<Chan>, ds: Seq<Chan>, j: int) -> bool {
    &&& ds.len() == cs.len()
    &&& forall|k: int|
        0 <= k < cs.len() ==> grew(mode, cs[k], #[trigger] ds[k]) && ds[k].line.len() == j
}

spec fn all_at(cs: Seq<Chan>, width: int, j: int) -> bool {
    forall|k: int|
        0 <= k < cs.len() ==> (#[trigger] cs[k]).line.len() == j && cs[k].res.len() == width
}

proof fn lemma_grew_on(mode: Mode, c: Chan, d: Chan, e: Chan)
    requires
        grew(mode, c, d),
        grew(mode, d, e),
    ensures
        grew(mode, c, e),
{
    let m = c.line.len() as int;
    let n = d.line.len() as int;
    assert forall|x: int| 0 <= x < n implies e.line[x] == d.line[x] by {
        assert(e.line.take(n)[x] == d.line[x]);
    }
    assert(e.line.take(m) =~= c.line) by {
        assert forall|x: int| 0 <= x < m implies e.line[x] == c.line[x] by {
            assert(d.line.take(m)[x] == c.line[x]);
        }
    }
    assert forall|x: int| m <= x < e.line.len() implies #[trigger] follows(mode, e, x) by {
        if x < n {
            assert(follows(mode, d, x));
            assert(e.res[x] == d.res[x]);
        }
    }
    assert forall|x: int| 0 <= x < m implies #[trigger] e.res[x] == c.res[x] by {
        assert(d.res[x] == c.res[x]);
    }
}

proof fn lemma_all_grew_on(mode: Mode, cs: Seq<Chan>, ds: Seq<Chan>, es: Seq<Chan>, i: int, j: int)
    requires
        all_grew(mode, cs, ds, i),
        all_grew(mode, ds, es, j),
    ensures
        all_grew(mode, cs, es, j),
{
    assert forall|k: int| 0 <= k < cs.len() implies grew(mode, cs[k], #[trigger] es[k])
        && es[k].line.len() == j by {
        assert(grew(mode, ds[k], es[k]));
        assert(grew(mode, cs[k], ds[k]));
        lemma_grew_on(mode, cs[k], ds[k], es[k]);
    }
}

proof fn lemma_wrap(a: int, b: int, n: int)
    requires
        0 < n,
    ensures
        (a + n + b) % n == (a + b) % n,
{
    vstd::arithmetic::div_mod::lemma_mod_add_multiples_vanish(a + b, n);
}

proof fn lemma_symbol(bpc: u32, l: int, w: u32)
    requires
        1 <= bpc <= 8,
    ensures
        0 <= family::golomb_symbol(bpc, l, w).0,
{
    let m = pow2(l as nat) as int;
    lemma_pow2_pos(l as nat);
    lemma_pow2_pos((32 - family::escape_len(bpc, l)) as nat);
    let zeros = vstd::std_specs::bits::u32_leading_zeros(w) as int;
    assert(0 <= zeros * m) by (nonlinear_arith)
        requires
            0 <= zeros,
            0 <= m,
    ;
    let a = w as int / pow2((32 - (zeros + 1 + l)) as nat) as int;
    vstd::arithmetic::div_mod::lemma_mod_bound(a, m);
    let tail = pow2(family::suffix_len(bpc, l) as nat) as int;
    lemma_pow2_pos(family::suffix_len(bpc, l) as nat);
    let b = w as int / pow2((32 - family::escape_len(bpc, l)) as nat) as int;
    vstd::arithmetic::div_mod::lemma_mod_bound(b, tail);
    let plen = family::prefix_len(bpc, l);
    lemma_pow2_pos((bpc - l) as nat);
    assert(0 <= plen * m) by (nonlinear_arith)
        requires
            0 <= plen,
            0 <= m,
    ;
}

/// One sample is read: it is what its left and upper neighbours let expect,
/// moved by the residual, and it comes after those before it.
pub proof fn sample_follows_its_neighbours(c: Chan, body: Seq<u8>, bpc: u32, p: int)
    requires
        1 <= bpc <= 8,
        c.line.len() < c.res.len(),
    ensures
        c.sample_in(body, bpc, p) matches Ok((d, q)) ==> {
            let x = c.line.len() as int;
            &&& d.line.len() == x + 1
            &&& d.line.take(x) == c.line
            &&& d.above == c.above
            &&& d.res.len() == c.res.len()
            &&& forall|y: int| 0 <= y < c.res.len() && y != x ==> #[trigger] d.res[y] == c.res[y]
            &&& moved(bpc, d.line, d.above, d.res, x)
        },
{
    match c.sample_in(body, bpc, p) {
        Err(_) => {},
        Ok((d, q)) => {
            lemma2_to64();
            let x = c.line.len() as int;
            let levels = pow2(bpc as nat) as int;
            lemma_symbol(bpc, c.code(bpc), crate::quic::bits::window(body, p));
            let r = d.res[x] as int;
            assert(d.line.take(x) =~= c.line);
            assert(1 < levels <= 256) by {
                family::lemma_levels(bpc);
            }
            assert(c.predicted() == expected(d.line, d.above, x)) by {
                if x > 0 {
                    assert(d.line[x - 1] == c.line[x - 1]);
                }
            }
            if r < levels && r % 2 == 1 {
                assert(levels - 1 - r / 2 == levels + shift_of(r));
                lemma_wrap(shift_of(r), c.predicted(), levels);
            }
            let sum = family::l2u(bpc, r) + c.predicted();
            assert(0 <= sum % levels < 256) by {
                vstd::arithmetic::div_mod::lemma_mod_bound(sum, levels);
            }
        },
    }
}

proof fn lemma_pixel(
    mode: Mode,
    body: Seq<u8>,
    chans: Seq<Chan>,
    k: int,
    p: int,
    width: int,
    j: int,
)
    requires
        1 <= mode.bpc <= 8,
        0 <= k <= chans.len(),
        0 <= j < width,
        forall|x: int| k <= x < chans.len() ==> (#[trigger] chans[x]).line.len() == j,
        forall|x: int| 0 <= x < chans.len() ==> (#[trigger] chans[x]).res.len() == width,
    ensures
        decode::pixel_in(body, mode.bpc, chans, k, p) matches Ok((ds, q)) ==> {
            &&& ds.len() == chans.len()
            &&& forall|x: int| 0 <= x < k ==> #[trigger] ds[x] == chans[x]
            &&& forall|x: int|
                k <= x < ds.len() ==> grew(mode, chans[x], #[trigger] ds[x]) && ds[x].line.len() == j
                    + 1
        },
    decreases chans.len() - k,
{
    if k < chans.len() {
        sample_follows_its_neighbours(chans[k], body, mode.bpc, p);
        match chans[k].sample_in(body, mode.bpc, p) {
            Err(_) => {},
            Ok((c, q)) => {
                let next = chans.update(k, c);
                lemma_pixel(mode, body, next, k + 1, q, width, j);
                assert(grew(mode, chans[k], c)) by {
                    assert(follows(mode, c, j));
                }
                match decode::pixel_in(body, mode.bpc, next, k + 1, q) {
                    Err(_) => {},
                    Ok((ds, _)) => {
                        assert(ds[k] == next[k]);
                        assert forall|x: int| k <= x < ds.len() implies grew(
                            mode,
                            chans[x],
                            #[trigger] ds[x],
                        ) && ds[x].line.len() == j + 1 by {
                            if x > k {
                                assert(next[x] == chans[x]);
                                assert(grew(mode, next[x], ds[x]));
                            }
                        }
                        assert forall|x: int| 0 <= x < k implies #[trigger] ds[x] == chans[x] by {
                            assert(ds[x] == next[x]);
                        }
                    },
                }
            },
        }
    }
}

proof fn lemma_learn(mode: Mode, cs: Seq<Chan>, ds: Seq<Chan>, trigger: u32, i: int, j: int)
    requires
        all_grew(mode, cs, ds, j),
    ensures
        all_grew(mode, cs, decode::learn_all(mode.bpc, trigger, ds, i), j),
{
    let es = decode::learn_all(mode.bpc, trigger, ds, i);
    assert forall|k: int| 0 <= k < cs.len() implies grew(mode, cs[k], #[trigger] es[k])
        && es[k].line.len() == j by {
        let d = ds[k];
        let e = es[k];
        assert(grew(mode, cs[k], d));
        assert(e.line == d.line && e.res == d.res && e.above == d.above);
        assert forall|x: int| cs[k].line.len() <= x < e.line.len() implies #[trigger] follows(
            mode,
            e,
            x,
        ) by {
            assert(follows(mode, d, x));
        }
    }
}

proof fn lemma_repeat(mode: Mode, cs: Seq<Chan>, n: int, j: int, run_at: int, width: int)
    requires
        decode::run_here(mode.runs, cs, j, run_at),
        all_at(cs, width, j),
        0 <= n,
    ensures
        all_grew(mode, cs, decode::repeat_all(cs, n), j + n),
{
    let ds = decode::repeat_all(cs, n);
    assert forall|k: int| 0 <= k < cs.len() implies grew(mode, cs[k], #[trigger] ds[k])
        && ds[k].line.len() == j + n by {
        let c = cs[k];
        let d = ds[k];
        assert(c.settled(j));
        assert(d.line.take(j) =~= c.line);
        assert forall|x: int| j <= x < d.line.len() implies #[trigger] follows(mode, d, x) by {
            assert(d.line[x] == c.line[j - 1]);
            assert(d.line[x - 1] == c.line[j - 1]);
            assert(repeated(mode.runs, d.line, d.above, x));
        }
    }
}

proof fn lemma_at(mode: Mode, cs: Seq<Chan>, ds: Seq<Chan>, width: int, i: int, j: int)
    requires
        all_at(cs, width, i),
        all_grew(mode, cs, ds, j),
    ensures
        all_at(ds, width, j),
{
    assert forall|k: int| 0 <= k < ds.len() implies (#[trigger] ds[k]).line.len() == j
        && ds[k].res.len() == width by {
        assert(grew(mode, cs[k], ds[k]));
        assert(cs[k].res.len() == width);
    }
}

proof fn lemma_same(mode: Mode, cs: Seq<Chan>, width: int, j: int)
    requires
        all_at(cs, width, j),
    ensures
        all_grew(mode, cs, cs, j),
{
    assert forall|k: int| 0 <= k < cs.len() implies grew(mode, cs[k], #[trigger] cs[k])
        && cs[k].line.len() == j by {
        assert(cs[k].line.take(j) =~= cs[k].line);
    }
}

proof fn lemma_next_pixel(mode: Mode, body: Seq<u8>, cs: Seq<Chan>, p: int, width: int, j: int)
    requires
        1 <= mode.bpc <= 8,
        0 <= j < width,
        all_at(cs, width, j),
    ensures
        decode::pixel_in(body, mode.bpc, cs, 0, p) matches Ok((ds, q)) ==> all_grew(
            mode,
            cs,
            ds,
            j + 1,
        ),
{
    lemma_pixel(mode, body, cs, 0, p, width, j);
}

proof fn lemma_seg(
    body: Seq<u8>,
    mode: Mode,
    c: Coder,
    j: int,
    stop: int,
    run_at: int,
    end: int,
    width: int,
)
    requires
        1 <= mode.bpc <= 8,
        0 <= j <= end <= width,
        all_at(c.chans, width, j),
    ensures
        decode::seg_in(body, mode, c, j, stop, run_at, end) matches Ok(d) ==> {
            &&& all_grew(mode, c.chans, d.chans, end)
            &&& d.st.wmileft == c.st.wmileft
            &&& d.st.wmidx == c.st.wmidx
        },
    decreases
            end - j,
            if run_at == j {
                0int
            } else {
                1int
            },
{
    if j >= end {
        lemma_same(mode, c.chans, width, j);
    } else if decode::run_here(mode.runs, c.chans, j, run_at) {
        let run = crate::quic::melcode::run_at(body, c.p, c.st.melcstate as int);
        match crate::quic::melcode::run_result(body, run) {
            Err(_) => {},
            Ok(n) => {
                let after = decode::repeat_all(c.chans, n as int);
                lemma_repeat(mode, c.chans, n as int, j, run_at, width);
                lemma_at(mode, c.chans, after, width, j, j + n);
                if j + n < end {
                    let st = crate::quic::melcode::CommonState {
                        waitcnt: (stop - j) as u32,
                        ..c.st
                    }.at_melc(crate::quic::melcode::step_down(run.top));
                    let coder = Coder { st, chans: after, p: run.end };
                    lemma_seg(body, mode, coder, j + n, j + n + st.waitcnt, j, end, width);
                    match decode::seg_in(body, mode, coder, j + n, j + n + st.waitcnt, j, end) {
                        Err(_) => {},
                        Ok(d) => lemma_all_grew_on(mode, c.chans, after, d.chans, j + n, end),
                    }
                }
            },
        }
    } else {
        lemma_next_pixel(mode, body, c.chans, c.p, width, j);
        match decode::pixel_in(body, mode.bpc, c.chans, 0, c.p) {
            Err(_) => {},
            Ok((chans, q)) => if j == stop {
                let (st, wait) = decode::drawn(c.st);
                let after = decode::learn_all(mode.bpc, c.st.wm_trigger, chans, j);
                lemma_learn(mode, c.chans, chans, c.st.wm_trigger, j, j + 1);
                lemma_at(mode, c.chans, after, width, j, j + 1);
                let coder = Coder { st, chans: after, p: q };
                lemma_seg(body, mode, coder, j + 1, j + 1 + wait, run_at, end, width);
                match decode::seg_in(body, mode, coder, j + 1, j + 1 + wait, run_at, end) {
                    Err(_) => {},
                    Ok(d) => lemma_all_grew_on(mode, c.chans, after, d.chans, j + 1, end),
                }
            } else {
                lemma_at(mode, c.chans, chans, width, j, j + 1);
                let coder = Coder { chans, p: q, ..c };
                lemma_seg(body, mode, coder, j + 1, stop, run_at, end, width);
                match decode::seg_in(body, mode, coder, j + 1, stop, run_at, end) {
                    Err(_) => {},
                    Ok(d) => lemma_all_grew_on(mode, c.chans, chans, d.chans, j + 1, end),
                }
            },
        }
    }
}

proof fn lemma_segment(body: Seq<u8>, mode: Mode, c: Coder, start: int, end: int, width: int)
    requires
        1 <= mode.bpc <= 8,
        0 <= start < end <= width,
        all_at(c.chans, width, start),
    ensures
        decode::segment_in(body, mode, c, start, end) matches Ok(d) ==> {
            &&& all_grew(mode, c.chans, d.chans, end)
            &&& d.st.wmileft == c.st.wmileft
            &&& d.st.wmidx == c.st.wmidx
        },
{
    if start == 0 {
        lemma_next_pixel(mode, body, c.chans, c.p, width, 0);
        match decode::pixel_in(body, mode.bpc, c.chans, 0, c.p) {
            Err(_) => {},
            Ok((chans, q)) => {
                let after = if c.st.waitcnt > 0 {
                    Coder {
                        st: crate::quic::melcode::CommonState {
                            waitcnt: (c.st.waitcnt - 1) as u32,
                            ..c.st
                        },
                        chans,
                        p: q,
                    }
                } else {
                    let (st, wait) = decode::drawn(c.st);
                    Coder {
                        st: crate::quic::melcode::CommonState { waitcnt: wait, ..st },
                        chans: decode::learn_all(mode.bpc, c.st.wm_trigger, chans, 0),
                        p: q,
                    }
                };
                lemma_learn(mode, c.chans, chans, c.st.wm_trigger, 0, 1);
                lemma_at(mode, c.chans, after.chans, width, 0, 1);
                lemma_seg(body, mode, after, 1, 1 + after.st.waitcnt, -1, end, width);
                match decode::seg_in(body, mode, after, 1, 1 + after.st.waitcnt, -1, end) {
                    Err(_) => {},
                    Ok(d) => lemma_all_grew_on(mode, c.chans, after.chans, d.chans, 1, end),
                }
            },
        }
    } else {
        lemma_seg(body, mode, c, start, start + c.st.waitcnt, -1, end, width);
    }
}

proof fn lemma_row(body: Seq<u8>, mode: Mode, c: Coder, pos: int, width: int)
    requires
        1 <= mode.bpc <= 8,
        0 <= pos <= width,
        all_at(c.chans, width, pos),
        0 < c.st.wmileft,
    ensures
        decode::row_in(body, mode, c, pos, width) matches Ok(d) ==> {
            &&& all_grew(mode, c.chans, d.chans, width)
            &&& 0 < d.st.wmileft
        },
    decreases crate::quic::melcode::DEFWMIMAX - c.st.wmidx,
{
    let max = crate::quic::melcode::DEFWMIMAX;
    if c.st.wmidx < max && c.st.wmileft <= width - pos {
        let end = pos + c.st.wmileft;
        lemma_segment(body, mode, c, pos, end, width);
        match decode::segment_in(body, mode, c, pos, end) {
            Err(_) => {},
            Ok(d) => {
                let next = Coder { st: decode::at_waitmask(d.st, c.st.wmidx + 1), ..d };
                lemma_at(mode, c.chans, d.chans, width, pos, end);
                lemma_row(body, mode, next, end, width);
                match decode::row_in(body, mode, next, end, width) {
                    Err(_) => {},
                    Ok(e) => lemma_all_grew_on(mode, c.chans, d.chans, e.chans, end, width),
                }
            },
        }
    } else if pos < width {
        lemma_segment(body, mode, c, pos, width, width);
    } else {
        lemma_same(mode, c.chans, width, width);
    }
}

/// The coder as it stands before row `y`, where the rows before it can be
/// read.
pub open spec fn coder_at(body: Seq<u8>, mode: Mode, c: Coder, width: int, y: nat) -> Coder
    decreases y, 0nat,
{
    if y == 0 {
        c
    } else {
        let d = row_of(body, mode, c, width, (y - 1) as nat);
        Coder { chans: decode::next_rows(d.chans), ..d }
    }
}

/// The coder as it stands after row `y`, with the samples and the residuals
/// of that row.
pub open spec fn row_of(body: Seq<u8>, mode: Mode, c: Coder, width: int, y: nat) -> Coder
    decreases y, 1nat,
{
    decode::row_in(body, mode, coder_at(body, mode, c, width, y), 0, width)->Ok_0
}

proof fn lemma_next_rows(cs: Seq<Chan>, width: int)
    requires
        all_at(cs, width, width),
        0 < width,
    ensures
        all_at(decode::next_rows(cs), width, 0),
        decode::next_rows(cs).len() == cs.len(),
        forall|k: int|
            0 <= k < cs.len() ==> (#[trigger] decode::next_rows(cs)[k]).above == Some(cs[k].line),
{
    let ds = decode::next_rows(cs);
    assert forall|k: int| 0 <= k < ds.len() implies (#[trigger] ds[k]).line.len() == 0
        && ds[k].res.len() == width by {
        assert(cs[k].res.len() == width);
    }
}

/// The rows from row `y` on: each is read, its samples follow from their
/// neighbours, and they stand in the planes, row after row.
#[verifier::opaque]
spec fn read_on(
    body: Seq<u8>,
    mode: Mode,
    c: Coder,
    width: int,
    y: nat,
    out: Seq<Seq<u8>>,
    from: int,
) -> bool {
    let before = coder_at(body, mode, c, width, y);
    let d = row_of(body, mode, c, width, y);
    &&& decode::row_in(body, mode, before, 0, width) is Ok
    &&& d.chans.len() == before.chans.len() == out.len()
    &&& forall|k: int|
        0 <= k < out.len() ==> {
            &&& from + width <= (#[trigger] out[k]).len()
            &&& d.chans[k].line == out[k].subrange(from, from + width)
            &&& d.chans[k].above == before.chans[k].above
            &&& forall|x: int| 0 <= x < width ==> #[trigger] follows(mode, d.chans[k], x)
        }
}

proof fn lemma_read_row(
    body: Seq<u8>,
    mode: Mode,
    c: Coder,
    width: int,
    y: nat,
    out: Seq<Seq<u8>>,
    from: int,
)
    requires
        1 <= mode.bpc <= 8,
        0 < width,
        all_at(coder_at(body, mode, c, width, y).chans, width, 0),
        0 < coder_at(body, mode, c, width, y).st.wmileft,
        decode::row_in(body, mode, coder_at(body, mode, c, width, y), 0, width) is Ok,
        out.len() == coder_at(body, mode, c, width, y).chans.len(),
        forall|k: int|
            0 <= k < out.len() ==> from + width <= (#[trigger] out[k]).len() && out[k].subrange(
                from,
                from + width,
            ) == row_of(body, mode, c, width, y).chans[k].line,
    ensures
        read_on(body, mode, c, width, y, out, from),
{
    reveal(read_on);
    let before = coder_at(body, mode, c, width, y);
    let d = row_of(body, mode, c, width, y);
    lemma_row(body, mode, before, 0, width);
    assert(all_grew(mode, before.chans, d.chans, width));
    assert forall|k: int| 0 <= k < out.len() implies {
        &&& from + width <= (#[trigger] out[k]).len()
        &&& d.chans[k].line == out[k].subrange(from, from + width)
        &&& d.chans[k].above == before.chans[k].above
        &&& forall|x: int| 0 <= x < width ==> #[trigger] follows(mode, d.chans[k], x)
    } by {
        assert(grew(mode, before.chans[k], d.chans[k]));
        assert(before.chans[k].line.len() == 0);
    }
}

proof fn lemma_channel_row(
    body: Seq<u8>,
    mode: Mode,
    c: Coder,
    width: int,
    y: nat,
    out: Seq<Seq<u8>>,
    from: int,
    k: int,
)
    requires
        read_on(body, mode, c, width, y, out, from),
        0 <= k < out.len(),
    ensures
        ({
            let before = coder_at(body, mode, c, width, y).chans;
            let after = row_of(body, mode, c, width, y).chans;
            &&& after.len() == before.len() == out.len()
            &&& from + width <= out[k].len()
            &&& after[k].line == out[k].subrange(from, from + width)
            &&& after[k].above == before[k].above
            &&& forall|x: int| 0 <= x < width ==> #[trigger] follows(mode, after[k], x)
        }),
{
    reveal(read_on);
}

#[verifier::rlimit(60)]
#[verifier::spinoff_prover]
proof fn lemma_rows(
    body: Seq<u8>,
    mode: Mode,
    c: Coder,
    width: int,
    y: nat,
    rows: nat,
    planes: Seq<Seq<u8>>,
)
    requires
        1 <= mode.bpc <= 8,
        0 < width,
        all_at(coder_at(body, mode, c, width, y).chans, width, 0),
        0 < coder_at(body, mode, c, width, y).st.wmileft,
        planes.len() == coder_at(body, mode, c, width, y).chans.len(),
        forall|k: int| 0 <= k < planes.len() ==> (#[trigger] planes[k]).len() == y * width,
    ensures
        decode::rows_in(body, mode, coder_at(body, mode, c, width, y), width, rows, planes)
            matches Ok((out, q)) ==> {
            &&& out.len() == planes.len()
            &&& forall|k: int|
                0 <= k < out.len() ==> (#[trigger] out[k]).len() == (y + rows) * width
                    && out[k].take(y * width) == planes[k]
            &&& forall|z: nat|
                y <= z < y + rows ==> #[trigger] read_on(body, mode, c, width, z, out, z * width)
        },
    decreases rows,
{
    let before = coder_at(body, mode, c, width, y);
    if rows == 0 {
        assert forall|k: int| 0 <= k < planes.len() implies (#[trigger] planes[k]).take(y * width)
            == planes[k] by {
            assert(planes[k].take(y * width) =~= planes[k]);
        }
    } else {
        match decode::row_in(body, mode, before, 0, width) {
            Err(_) => {},
            Ok(d) => {
                lemma_row(body, mode, before, 0, width);
                lemma_at(mode, before.chans, d.chans, width, 0, width);
                lemma_next_rows(d.chans, width);
                let next = coder_at(body, mode, c, width, y + 1);
                assert(next == Coder { chans: decode::next_rows(d.chans), ..d });
                let more = decode::with_row(planes, d.chans);
                assert((y + 1) * width == y * width + width) by (nonlinear_arith);
                assert forall|k: int| 0 <= k < more.len() implies (#[trigger] more[k]).len() == (y
                    + 1) * width by {
                    assert(d.chans[k].line.len() == width);
                    assert(planes[k].len() == y * width);
                }
                lemma_rows(body, mode, c, width, y + 1, (rows - 1) as nat, more);
                match decode::rows_in(body, mode, next, width, (rows - 1) as nat, more) {
                    Err(_) => {},
                    Ok((out, q)) => {
                        assert(0 <= y * width) by (nonlinear_arith)
                            requires
                                0 < width,
                        ;
                        assert((y + 1) * width <= (y + rows) * width) by (nonlinear_arith)
                            requires
                                0 < width,
                                1 <= rows,
                        ;
                        assert(((y + 1) + (rows - 1)) * width == (y + rows) * width);
                        assert forall|k: int| 0 <= k < out.len() implies (#[trigger] out[k]).len()
                            == (y + rows) * width && out[k].take(y * width) == planes[k]
                            && out[k].subrange(y * width, y * width + width)
                            == d.chans[k].line by {
                            assert(out[k].take((y + 1) * width) == more[k]);
                            assert(d.chans[k].line.len() == width);
                            assert(more[k] == planes[k] + d.chans[k].line);
                            assert(out[k].take(y * width) =~= more[k].take(y * width));
                            assert(more[k].take(y * width) =~= planes[k]);
                            assert(out[k].subrange(y * width, y * width + width)
                                =~= more[k].subrange(y * width, y * width + width));
                            assert(more[k].subrange(y * width, y * width + width)
                                =~= d.chans[k].line);
                        }
                        lemma_read_row(body, mode, c, width, y, out, y * width);
                        assert forall|z: nat| y <= z < y + rows implies #[trigger] read_on(
                            body,
                            mode,
                            c,
                            width,
                            z,
                            out,
                            z * width,
                        ) by {
                            if z > y {
                                assert(y + 1 <= z < (y + 1) + (rows - 1));
                            }
                        }
                    },
                }
            },
        }
    }
}

/// The residual that is read for the sample at column `x` of row `y` of
/// channel `k`.
pub open spec fn residual_of(
    body: Seq<u8>,
    mode: Mode,
    channels: nat,
    width: int,
    p: int,
    k: int,
    y: nat,
    x: int,
) -> int {
    row_of(body, mode, decode::fresh(mode, channels, width, p), width, y).chans[k].res[x] as int
}

/// The sample at column `x` of row `y` of a plane.
pub open spec fn sample_at(plane: Seq<u8>, width: int, y: int, x: int) -> int {
    plane[y * width + x] as int
}

proof fn lemma_planes(
    body: Seq<u8>,
    mode: Mode,
    channels: nat,
    width: int,
    height: int,
    p: int,
)
    requires
        1 <= mode.bpc <= 8,
        0 < width,
        0 <= height,
    ensures
        decode::planes_in(body, mode, channels, width, height, p) matches Ok((out, q)) ==> {
            &&& out.len() == channels
            &&& forall|k: int| 0 <= k < channels ==> (#[trigger] out[k]).len() == width * height
            &&& forall|z: nat|
                z < height ==> #[trigger] read_on(
                    body,
                    mode,
                    decode::fresh(mode, channels, width, p),
                    width,
                    z,
                    out,
                    z * width,
                )
        },
{
    let c = decode::fresh(mode, channels, width, p);
    let planes = Seq::new(channels, |i: int| Seq::<u8>::empty());
    assert(coder_at(body, mode, c, width, 0) == c);
    lemma_rows(body, mode, c, width, 0, height as nat, planes);
    assert((0 + height) * width == width * height) by (nonlinear_arith);
}

proof fn lemma_one_row(
    body: Seq<u8>,
    mode: Mode,
    channels: nat,
    width: int,
    height: int,
    p: int,
    k: int,
    y: nat,
)
    requires
        1 <= mode.bpc <= 8,
        0 < width,
        0 <= k < channels,
        y < height,
    ensures
        decode::planes_in(body, mode, channels, width, height, p) matches Ok((out, q)) ==> {
            let d = row_of(body, mode, decode::fresh(mode, channels, width, p), width, y).chans[k];
            &&& 0 <= y * width
            &&& y * width + width <= out[k].len()
            &&& d.line == out[k].subrange(y * width, y * width + width)
            &&& y == 0 ==> d.above is None
            &&& y > 0 ==> {
                &&& 0 <= (y - 1) * width
                &&& (y - 1) * width + width <= out[k].len()
                &&& d.above == Some(out[k].subrange((y - 1) * width, (y - 1) * width + width))
            }
            &&& forall|x: int| 0 <= x < width ==> #[trigger] follows(mode, d, x)
        },
{
    let c = decode::fresh(mode, channels, width, p);
    lemma_planes(body, mode, channels, width, height, p);
    assert(coder_at(body, mode, c, width, 0) == c);
    assert(0 <= y * width) by (nonlinear_arith)
        requires
            0 < width,
    ;
    match decode::planes_in(body, mode, channels, width, height, p) {
        Err(_) => {},
        Ok((out, q)) => {
            lemma_channel_row(body, mode, c, width, y, out, y * width, k);
            if y > 0 {
                let z = (y - 1) as nat;
                lemma_channel_row(body, mode, c, width, z, out, z * width, k);
                let e = row_of(body, mode, c, width, z);
                assert(coder_at(body, mode, c, width, y).chans[k].above == Some(e.chans[k].line));
                assert(0 <= z * width) by (nonlinear_arith)
                    requires
                        0 < width,
                ;
            }
        },
    }
}

/// Every sample of a picture lies where its left and upper neighbours in the
/// picture let expect it, halfway between them, moved by the residual that is
/// read for it; in the first row there is only the left one, in the first
/// column only the upper one, and the corner starts from nought. With runs, a
/// sample from the fourth of a row on, but for the first row, may be the same
/// as its left neighbour instead.
pub proof fn samples_follow_their_neighbours(
    body: Seq<u8>,
    mode: Mode,
    channels: nat,
    width: int,
    height: int,
    p: int,
    k: int,
    y: nat,
    x: int,
)
    requires
        1 <= mode.bpc <= 8,
        0 < width,
        0 <= k < channels,
        y < height,
        0 <= x < width,
    ensures
        decode::planes_in(body, mode, channels, width, height, p) matches Ok((out, q)) ==> {
            let residual = residual_of(body, mode, channels, width, p, k, y, x);
            let levels = pow2(mode.bpc as nat) as int;
            let shift = if residual < levels {
                shift_of(residual)
            } else {
                0
            };
            let sample = sample_at(out[k], width, y as int, x);
            let left = sample_at(out[k], width, y as int, x - 1);
            let upper = sample_at(out[k], width, y - 1, x);
            let from = if y == 0 && x == 0 {
                0
            } else if y == 0 {
                left
            } else if x == 0 {
                upper
            } else {
                (left + upper) / 2
            };
            &&& out.len() == channels
            &&& out[k].len() == width * height
            &&& sample == (from + shift) % levels || (mode.runs && y > 0 && x > 2 && sample == left)
        },
{
    let c = decode::fresh(mode, channels, width, p);
    lemma_planes(body, mode, channels, width, height, p);
    match decode::planes_in(body, mode, channels, width, height, p) {
        Err(_) => {},
        Ok((out, q)) => {
            lemma_one_row(body, mode, channels, width, height, p, k, y);
            let d = row_of(body, mode, c, width, y).chans[k];
            let from = y * width;
            assert(follows(mode, d, x));
            assert(d.line[x] == out[k][from + x]) by {
                assert(out[k].subrange(from, from + width)[x] == out[k][from + x]);
            }
            if x > 0 {
                assert(d.line[x - 1] == out[k][from + (x - 1)]) by {
                    assert(out[k].subrange(from, from + width)[x - 1] == out[k][from + (x - 1)]);
                }
            }
            if y > 0 {
                let before = (y - 1) * width;
                assert(d.above->Some_0[x] == out[k][before + x]) by {
                    assert(out[k].subrange(before, before + width)[x] == out[k][before + x]);
                }
            }
        },
    }
}

/// The planes of a picture are red, green and blue, in this order; in the
/// picture each pixel is blue, green, red and a byte that is nought.
pub proof fn rgb32_planes_are_red_green_blue(stream: Seq<u8>, width: u32, height: u32, i: int)
    requires
        0 <= i < width * height,
    ensures
        image::rgb32_image(stream, width, height) matches Ok(picture) ==> {
            &&& stream.len() >= 20
            &&& decode::planes_in(
                stream.skip(20),
                Mode { bpc: 8, runs: true },
                3,
                width as int,
                height as int,
                0,
            ) matches Ok((out, _))
            &&& picture.len() == 4 * (width * height)
            &&& picture[4 * i] == out[2][i]
            &&& picture[4 * i + 1] == out[1][i]
            &&& picture[4 * i + 2] == out[0][i]
            &&& picture[4 * i + 3] == 0
        },
{
    if 0 < width && 0 < height {
        lemma_planes(
            stream.skip(20),
            Mode { bpc: 8, runs: true },
            3,
            width as int,
            height as int,
            0,
        );
    } else {
        assert(width * height == 0) by (nonlinear_arith)
            requires
                width == 0 || height == 0,
        ;
    }
}

/// With alpha, a fourth plane follows the bits of the other three. It is read
/// without runs.
#[verifier::rlimit(60)]
#[verifier::spinoff_prover]
pub proof fn rgba_planes_are_red_green_blue_alpha(stream: Seq<u8>, width: u32, height: u32, i: int)
    requires
        0 < width,
        0 < height,
        0 <= i < width * height,
    ensures
        image::rgba_image(stream, width, height) matches Ok(picture) ==> {
            &&& stream.len() >= 20
            &&& decode::planes_in(
                stream.skip(20),
                Mode { bpc: 8, runs: true },
                3,
                width as int,
                height as int,
                0,
            ) matches Ok((out, p))
            &&& decode::planes_in(
                stream.skip(20),
                Mode { bpc: 8, runs: false },
                1,
                width as int,
                height as int,
                p,
            ) matches Ok((alpha, _))
            &&& picture.len() == 4 * (width * height)
            &&& picture[4 * i] == out[2][i]
            &&& picture[4 * i + 1] == out[1][i]
            &&& picture[4 * i + 2] == out[0][i]
            &&& picture[4 * i + 3] == alpha[0][i]
        },
{
    lemma_planes(
        stream.skip(20),
        Mode { bpc: 8, runs: true },
        3,
        width as int,
        height as int,
        0,
    );
}

/// Runs start from the fourth column on, where in every channel the row above
/// did not change at this column and the row itself did not change at the one
/// before; but not again where a run has just ended.
pub proof fn runs_start_where_nothing_changes(
    runs: bool,
    chans: Seq<Chan>,
    j: int,
    ended: int,
)
    ensures
        decode::run_here(runs, chans, j, ended) <==> {
            &&& runs
            &&& j >= 3
            &&& j != ended
            &&& forall|k: int|
                0 <= k < chans.len() ==> {
                    &&& (#[trigger] chans[k]).above matches Some(upper)
                    &&& upper[j] == upper[j - 1]
                    &&& chans[k].line[j - 1] == chans[k].line[j - 2]
                }
        },
{
    if decode::run_here(runs, chans, j, ended) {
        assert forall|k: int| 0 <= k < chans.len() implies {
            &&& (#[trigger] chans[k]).above matches Some(upper)
            &&& upper[j] == upper[j - 1]
            &&& chans[k].line[j - 1] == chans[k].line[j - 2]
        } by {
            assert(chans[k].settled(j));
        }
    }
}

/// A gray picture has one plane: each pixel is three times its sample, and
/// opaque. It is read without runs.
pub proof fn gray_pixels_are_the_samples(stream: Seq<u8>, width: u32, height: u32, i: int)
    requires
        0 <= i < width * height,
    ensures
        image::gray_image(stream, width, height) matches Ok(picture) ==> {
            &&& stream.len() >= 20
            &&& decode::planes_in(
                stream.skip(20),
                Mode { bpc: 8, runs: false },
                1,
                width as int,
                height as int,
                0,
            ) matches Ok((out, _))
            &&& picture.len() == 4 * (width * height)
            &&& picture[4 * i] == out[0][i]
            &&& picture[4 * i + 1] == out[0][i]
            &&& picture[4 * i + 2] == out[0][i]
            &&& picture[4 * i + 3] == 255
        },
{
    if 0 < width && 0 < height {
        lemma_planes(
            stream.skip(20),
            Mode { bpc: 8, runs: false },
            1,
            width as int,
            height as int,
            0,
        );
    } else {
        assert(width * height == 0) by (nonlinear_arith)
            requires
                width == 0 || height == 0,
        ;
    }
}

/// A sample of five bits, and the byte that it becomes: its five bits, and the
/// upper three of them once more.
pub open spec fn widened(sample: u8, byte: u8) -> bool {
    sample < 32 ==> byte / 8 == sample && byte % 8 == sample / 4
}

/// A picture of five bits for each sample has red, green and blue planes too.
/// Its samples are brought to eight bits, and each pixel is opaque.
#[verifier::rlimit(60)]
#[verifier::spinoff_prover]
pub proof fn rgb16_samples_are_widened(stream: Seq<u8>, width: u32, height: u32, i: int)
    requires
        0 <= i < width * height,
    ensures
        image::rgb16_image(stream, width, height) matches Ok(picture) ==> {
            &&& stream.len() >= 20
            &&& decode::planes_in(
                stream.skip(20),
                Mode { bpc: 5, runs: false },
                3,
                width as int,
                height as int,
                0,
            ) matches Ok((out, _))
            &&& picture.len() == 4 * (width * height)
            &&& widened(out[2][i], picture[4 * i])
            &&& widened(out[1][i], picture[4 * i + 1])
            &&& widened(out[0][i], picture[4 * i + 2])
            &&& picture[4 * i + 3] == 255
        },
{
    if 0 < width && 0 < height {
        lemma_planes(
            stream.skip(20),
            Mode { bpc: 5, runs: false },
            3,
            width as int,
            height as int,
            0,
        );
    } else {
        assert(width * height == 0) by (nonlinear_arith)
            requires
                width == 0 || height == 0,
        ;
    }
}

} // verus!
