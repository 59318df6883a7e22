//! Images into the bit stream.

use vstd::arithmetic::power2::*;
use vstd::prelude::*;

use crate::quic::bits;
use crate::quic::bits::{BitWriter, QUIC_HEADER_SIZE};
use crate::quic::decode;
use crate::quic::decode::{
    draw, learn_channels, repeat_channels, run_starts, start_rows, Coder, Mode,
};
use crate::quic::error::QuicError;
use crate::quic::family;
use crate::quic::family::Family;
use crate::quic::header::{QuicHeader, QuicImageType};
use crate::quic::image;
use crate::quic::melcode;
use crate::quic::melcode::{encode_state_run, CommonState, DEFWMIMAX, DEFWMINEXT};
use crate::quic::model;
use crate::quic::model::{Chan, ChannelDecoder};

verus! {

/// A coder after it has written something, and what it has written.
pub struct Written {
    pub st: CommonState,
    pub chans: Seq<Chan>,
    pub code: Seq<bool>,
}

/// RGB32 images have eight bits per channel, and runs.
pub open spec fn rgb32_mode() -> Mode {
    Mode { bpc: 8, runs: true }
}

/// Writing one sample of `row` for each channel from the `k`-th on.
pub open spec fn pixel_out(chans: Seq<Chan>, row: Seq<Seq<u8>>, k: int) -> (Seq<Chan>, Seq<bool>)
    decreases chans.len() - k,
{
    if k < 0 || k >= chans.len() {
        (chans, Seq::empty())
    } else {
        let v = row[k][chans[k].line.len() as int];
        let (after, code) = pixel_out(chans.update(k, chans[k].sample_out(8, v)), row, k + 1);
        (after, chans[k].sample_code(8, v) + code)
    }
}

/// The pixels at `j` and before it are the same.
pub open spec fn repeats(row: Seq<Seq<u8>>, j: int) -> bool {
    forall|k: int| 0 <= k < row.len() ==> (#[trigger] row[k])[j] == row[k][j - 1]
}

/// How many pixels from `j` on are the same as the one before them.
pub open spec fn run_len(row: Seq<Seq<u8>>, j: int, end: int) -> nat
    decreases end - j,
{
    if j < end && repeats(row, j) {
        1 + run_len(row, j + 1, end)
    } else {
        0
    }
}

/// Writing the pixels of `row` from `j` up to `end`.
pub open spec fn seg_out(
    st: CommonState,
    chans: Seq<Chan>,
    row: Seq<Seq<u8>>,
    j: int,
    stop: int,
    run_at: int,
    end: int,
) -> Written
    decreases
            end - j,
            if run_at == j {
                0int
            } else {
                1int
            },
{
    if j >= end {
        Written {
            st: CommonState { waitcnt: (stop - end) as u32, ..st },
            chans,
            code: Seq::empty(),
        }
    } else if decode::run_here(true, chans, j, run_at) {
        let s = st.melcstate as int;
        let n = run_len(row, j, end) as int;
        let code = melcode::run_code(s, n);
        let next = CommonState { waitcnt: (stop - j) as u32, ..st }.at_melc(
            melcode::step_down(melcode::climb(s, melcode::run_ones(s, n))),
        );
        let after = decode::repeat_all(chans, n);
        if j + n >= end {
            Written { st: next, chans: after, code }
        } else {
            let w = seg_out(next, after, row, j + n, j + n + next.waitcnt, j, end);
            Written { code: code + w.code, ..w }
        }
    } else {
        let (after, code) = pixel_out(chans, row, 0);
        let w = if j == stop {
            let (next, wait) = decode::drawn(st);
            seg_out(
                next,
                decode::learn_all(8, st.wm_trigger, after, j),
                row,
                j + 1,
                j + 1 + wait,
                run_at,
                end,
            )
        } else {
            seg_out(st, after, row, j + 1, stop, run_at, end)
        };
        Written { code: code + w.code, ..w }
    }
}

/// Writing a segment of a row.
pub open spec fn segment_out(
    st: CommonState,
    chans: Seq<Chan>,
    row: Seq<Seq<u8>>,
    start: int,
    end: int,
) -> Written {
    if start == 0 {
        let (after, code) = pixel_out(chans, row, 0);
        let w = if st.waitcnt > 0 {
            let next = CommonState { waitcnt: (st.waitcnt - 1) as u32, ..st };
            seg_out(next, after, row, 1, 1 + next.waitcnt, -1, end)
        } else {
            let (next, wait) = decode::drawn(st);
            seg_out(
                CommonState { waitcnt: wait, ..next },
                decode::learn_all(8, st.wm_trigger, after, 0),
                row,
                1,
                1 + wait,
                -1,
                end,
            )
        };
        Written { code: code + w.code, ..w }
    } else {
        seg_out(st, chans, row, start, start + st.waitcnt, -1, end)
    }
}

/// Writing a row from `pos` up to `width`.
pub open spec fn row_out(
    st: CommonState,
    chans: Seq<Chan>,
    row: Seq<Seq<u8>>,
    pos: int,
    width: int,
) -> Written
    decreases DEFWMIMAX - st.wmidx,
{
    if st.wmidx < DEFWMIMAX && st.wmileft <= width - pos {
        let end = pos + st.wmileft;
        let d = segment_out(st, chans, row, pos, end);
        let w = row_out(
            decode::at_waitmask(d.st, st.wmidx + 1),
            d.chans,
            row,
            end,
            width,
        );
        Written { code: d.code + w.code, ..w }
    } else if pos < width {
        let d = segment_out(st, chans, row, pos, width);
        if d.st.wmidx < DEFWMIMAX {
            Written {
                st: CommonState { wmileft: (d.st.wmileft - (width - pos)) as u32, ..d.st },
                ..d
            }
        } else {
            d
        }
    } else {
        Written { st, chans, code: Seq::empty() }
    }
}

/// Writing the rows of an image from the `y`-th on.
pub open spec fn rows_out(
    st: CommonState,
    chans: Seq<Chan>,
    rows: Seq<Seq<Seq<u8>>>,
    y: int,
    width: int,
) -> Seq<bool>
    decreases rows.len() - y,
{
    if y >= rows.len() {
        Seq::empty()
    } else {
        let d = row_out(st, chans, rows[y], 0, width);
        d.code + rows_out(d.st, decode::next_rows(d.chans), rows, y + 1, width)
    }
}

/// The red, green and blue samples of the `y`-th row of a BGRA image.
pub open spec fn row_of(pixels: Seq<u8>, width: int, y: int) -> Seq<Seq<u8>> {
    Seq::new(
        3,
        |k: int| Seq::new(width as nat, |x: int| pixels[4 * (y * width + x) + 2 - k]),
    )
}

/// All rows of a BGRA image.
pub open spec fn rows_of(pixels: Seq<u8>, width: int, height: int) -> Seq<Seq<Seq<u8>>> {
    Seq::new(height as nat, |y: int| row_of(pixels, width, y))
}

/// The code of a BGRA image.
pub open spec fn image_code(pixels: Seq<u8>, width: int, height: int) -> Seq<bool> {
    let c = decode::fresh(rgb32_mode(), 3, width, 0);
    rows_out(c.st, c.chans, rows_of(pixels, width, height), 0, width)
}

/// The channels have come to position `j` of `row`.
pub open spec fn tracks(chans: Seq<Chan>, row: Seq<Seq<u8>>, width: int, j: int) -> bool {
    &&& chans.len() == row.len()
    &&& 0 <= j <= width
    &&& forall|k: int| 0 <= k < chans.len() ==> (#[trigger] chans[k]).ok(8, width)
    &&& forall|k: int| 0 <= k < chans.len() ==> (#[trigger] row[k]).len() == width
    &&& forall|k: int| 0 <= k < chans.len() ==> (#[trigger] chans[k]).line == row[k].take(j)
}

proof fn lemma_sample(body: Seq<u8>, c: Chan, width: int, p: int, v: u8)
    requires
        c.ok(8, width),
        c.line.len() < width,
        bits::carries(body, p, c.sample_code(8, v)),
    ensures
        c.sample_in(body, 8, p) == Ok::<(Chan, int), QuicError>(
            (c.sample_out(8, v), p + c.sample_code(8, v).len()),
        ),
        c.sample_out(8, v).ok(8, width),
{
    lemma2_to64();
    let context = c.context(c.line.len() as int);
    model::lemma_bucket(8, context as int);
    let l = c.code(8);
    assert(c.buckets[model::bucket_of(8, context as int)].ok(8));
    assert(0 <= c.predicted() <= 255);
    let d = (v - c.predicted()) % 256;
    family::xlat_inverse(8, d);
    let r = c.residual(8, v);
    assert(r == family::u2l(8, d));
    let (cw, len) = family::golomb_code(8, l, r);
    family::lemma_code_fits(8, l, r);
    bits::lemma_spell_len(cw as nat, len as nat);
    bits::lemma_window_carries(body, p, cw as nat, len as nat);
    family::golomb_round_trip(8, l, r, bits::window(body, p));
    assert((family::l2u(8, r) + c.predicted()) % 256 == v as int);
    assert(bits::eaten(body, p + len) is Ok);
}

proof fn lemma_pixel(
    body: Seq<u8>,
    chans: Seq<Chan>,
    row: Seq<Seq<u8>>,
    width: int,
    j: int,
    k: int,
    p: int,
)
    requires
        0 <= k <= chans.len(),
        chans.len() == row.len(),
        0 <= j < width,
        forall|x: int| 0 <= x < chans.len() ==> (#[trigger] chans[x]).ok(8, width),
        forall|x: int| 0 <= x < chans.len() ==> (#[trigger] row[x]).len() == width,
        forall|x: int| 0 <= x < k ==> (#[trigger] chans[x]).line == row[x].take(j + 1),
        forall|x: int| k <= x < chans.len() ==> (#[trigger] chans[x]).line == row[x].take(j),
        bits::carries(body, p, pixel_out(chans, row, k).1),
    ensures
        decode::pixel_in(body, 8, chans, k, p) == Ok::<(Seq<Chan>, int), QuicError>(
            (pixel_out(chans, row, k).0, p + pixel_out(chans, row, k).1.len()),
        ),
        tracks(pixel_out(chans, row, k).0, row, width, j + 1),
    decreases chans.len() - k,
{
    if k < chans.len() {
        let c = chans[k];
        assert(c.line == row[k].take(j));
        let v = row[k][j];
        let code = c.sample_code(8, v);
        let next = chans.update(k, c.sample_out(8, v));
        let rest = pixel_out(next, row, k + 1).1;
        bits::lemma_carries_split(body, p, code, rest);
        lemma_sample(body, c, width, p, v);
        assert(row[k].take(j).push(v) =~= row[k].take(j + 1));
        lemma_pixel(body, next, row, width, j, k + 1, p + code.len());
    }
}

proof fn lemma_learn_tracks(
    chans: Seq<Chan>,
    row: Seq<Seq<u8>>,
    width: int,
    j: int,
    trigger: u32,
    i: int,
)
    requires
        tracks(chans, row, width, j),
    ensures
        tracks(decode::learn_all(8, trigger, chans, i), row, width, j),
{
    let after = decode::learn_all(8, trigger, chans, i);
    assert forall|k: int| 0 <= k < after.len() implies (#[trigger] after[k]).ok(8, width)
        && after[k].line == row[k].take(j) by {
        assert(chans[k].ok(8, width));
        model::lemma_learn_ok(chans[k], 8, width, trigger, i);
        assert(chans[k].line == row[k].take(j));
    }
}

proof fn lemma_run_len(row: Seq<Seq<u8>>, j: int, end: int)
    requires
        j <= end,
    ensures
        j + run_len(row, j, end) <= end,
        forall|x: int, k: int|
            j <= x < j + run_len(row, j, end) && 0 <= k < row.len() ==> #[trigger] row[k][x]
                == row[k][j - 1],
    decreases end - j,
{
    if j < end && repeats(row, j) {
        lemma_run_len(row, j + 1, end);
        assert forall|x: int, k: int|
            j <= x < j + run_len(row, j, end) && 0 <= k < row.len() implies #[trigger] row[k][x]
            == row[k][j - 1] by {
            assert(row[k][j] == row[k][j - 1]);
            if x > j {
                assert(row[k][x] == row[k][j + 1 - 1]);
            }
        }
    }
}

proof fn lemma_repeat_tracks(
    chans: Seq<Chan>,
    row: Seq<Seq<u8>>,
    width: int,
    j: int,
    end: int,
)
    requires
        tracks(chans, row, width, j),
        0 < j <= end <= width,
    ensures
        j + run_len(row, j, end) <= end,
        tracks(
            decode::repeat_all(chans, run_len(row, j, end) as int),
            row,
            width,
            j + run_len(row, j, end),
        ),
{
    let n = run_len(row, j, end) as int;
    let after = decode::repeat_all(chans, n);
    lemma_run_len(row, j, end);
    assert forall|k: int| 0 <= k < after.len() implies (#[trigger] after[k]).ok(8, width)
        && after[k].line == row[k].take(j + n) by {
        assert(chans[k].ok(8, width));
        assert(row[k].len() == width);
        assert(chans[k].line == row[k].take(j));
        assert forall|x: int| 0 <= x < j + n implies after[k].line[x] == row[k].take(j + n)[x] by {
            if x >= j {
                assert(row[k][x] == row[k][j - 1]);
            }
        }
        assert(after[k].line =~= row[k].take(j + n));
    }
}

/// Reading a segment gives back the pixels that were written, and leaves the
/// same coder behind.
#[verifier::rlimit(60)]
#[verifier::spinoff_prover]
proof fn lemma_seg(
    body: Seq<u8>,
    c: Coder,
    row: Seq<Seq<u8>>,
    width: int,
    j: int,
    stop: int,
    run_at: int,
    end: int,
)
    requires
        tracks(c.chans, row, width, j),
        0 < j <= end <= width < 4294967296,
        c.st.wf(),
        bits::carries(body, c.p, seg_out(c.st, c.chans, row, j, stop, run_at, end).code),
    ensures
        ({
            let w = seg_out(c.st, c.chans, row, j, stop, run_at, end);
            &&& decode::seg_in(body, rgb32_mode(), c, j, stop, run_at, end) == Ok::<
                Coder,
                QuicError,
            >(Coder { st: w.st, chans: w.chans, p: c.p + w.code.len() })
            &&& tracks(w.chans, row, width, end)
            &&& w.st.wf()
            &&& w.st.wmidx == c.st.wmidx
            &&& w.st.wmileft == c.st.wmileft
        }),
    decreases
            end - j,
            if run_at == j {
                0int
            } else {
                1int
            },
{
    let w = seg_out(c.st, c.chans, row, j, stop, run_at, end);
    if j >= end {
    } else if decode::run_here(true, c.chans, j, run_at) {
        let s = c.st.melcstate as int;
        let n = run_len(row, j, end) as int;
        let code = melcode::run_code(s, n);
        let top = melcode::climb(s, melcode::run_ones(s, n));
        let next = CommonState { waitcnt: (stop - j) as u32, ..c.st }.at_melc(
            melcode::step_down(top),
        );
        melcode::lemma_order(melcode::step_down(top));
        let after = decode::repeat_all(c.chans, n);
        lemma_repeat_tracks(c.chans, row, width, j, end);
        if j + n == end {
            melcode::state_run_round_trip(body, c.p, s, n);
        } else {
            let rest = seg_out(next, after, row, j + n, j + n + next.waitcnt, j, end);
            bits::lemma_carries_split(body, c.p, code, rest.code);
            melcode::state_run_round_trip(body, c.p, s, n);
            let d = Coder { st: next, chans: after, p: c.p + code.len() };
            lemma_seg(body, d, row, width, j + n, j + n + next.waitcnt, j, end);
        }
    } else {
        let (after, code) = pixel_out(c.chans, row, 0);
        if j == stop {
            let (next, wait) = decode::drawn(c.st);
            let learnt = decode::learn_all(8, c.st.wm_trigger, after, j);
            let rest = seg_out(next, learnt, row, j + 1, j + 1 + wait, run_at, end);
            bits::lemma_carries_split(body, c.p, code, rest.code);
            lemma_pixel(body, c.chans, row, width, j, 0, c.p);
            lemma_learn_tracks(after, row, width, j + 1, c.st.wm_trigger, j);
            let d = Coder { st: next, chans: learnt, p: c.p + code.len() };
            lemma_seg(body, d, row, width, j + 1, j + 1 + wait, run_at, end);
        } else {
            let rest = seg_out(c.st, after, row, j + 1, stop, run_at, end);
            bits::lemma_carries_split(body, c.p, code, rest.code);
            lemma_pixel(body, c.chans, row, width, j, 0, c.p);
            let d = Coder { st: c.st, chans: after, p: c.p + code.len() };
            lemma_seg(body, d, row, width, j + 1, stop, run_at, end);
        }
    }
}

/// A segment reads back as it was written. A decoder that starts with the
/// encoder's state and channels, at the bits that the encoder wrote for the
/// pixels of `row` from `start` up to `end`, reads these pixels, ends with the
/// encoder's state and channels, and has read exactly the bits written.
pub proof fn segment_is_read_back(
    body: Seq<u8>,
    c: Coder,
    row: Seq<Seq<u8>>,
    width: int,
    start: int,
    end: int,
)
    requires
        tracks(c.chans, row, width, start),
        start < end <= width < 4294967296,
        c.st.wf(),
        bits::carries(body, c.p, segment_out(c.st, c.chans, row, start, end).code),
    ensures
        ({
            let w = segment_out(c.st, c.chans, row, start, end);
            &&& decode::segment_in(body, rgb32_mode(), c, start, end) == Ok::<Coder, QuicError>(
                Coder { st: w.st, chans: w.chans, p: c.p + w.code.len() },
            )
            &&& forall|k: int| 0 <= k < row.len() ==> #[trigger] w.chans[k].line == row[k].take(end)
            &&& tracks(w.chans, row, width, end)
            &&& w.st.wf()
            &&& w.st.wmidx == c.st.wmidx
            &&& w.st.wmileft == c.st.wmileft
        }),
{
    if start == 0 {
        let (after, code) = pixel_out(c.chans, row, 0);
        if c.st.waitcnt > 0 {
            let next = CommonState { waitcnt: (c.st.waitcnt - 1) as u32, ..c.st };
            let rest = seg_out(next, after, row, 1, 1 + next.waitcnt, -1, end);
            bits::lemma_carries_split(body, c.p, code, rest.code);
            lemma_pixel(body, c.chans, row, width, 0, 0, c.p);
            let d = Coder { st: next, chans: after, p: c.p + code.len() };
            lemma_seg(body, d, row, width, 1, 1 + next.waitcnt, -1, end);
        } else {
            let (drawn, wait) = decode::drawn(c.st);
            let next = CommonState { waitcnt: wait, ..drawn };
            let learnt = decode::learn_all(8, c.st.wm_trigger, after, 0);
            let rest = seg_out(next, learnt, row, 1, 1 + wait, -1, end);
            bits::lemma_carries_split(body, c.p, code, rest.code);
            lemma_pixel(body, c.chans, row, width, 0, 0, c.p);
            lemma_learn_tracks(after, row, width, 1, c.st.wm_trigger, 0);
            let d = Coder { st: next, chans: learnt, p: c.p + code.len() };
            lemma_seg(body, d, row, width, 1, 1 + wait, -1, end);
        }
    } else {
        lemma_seg(body, c, row, width, start, start + c.st.waitcnt, -1, end);
    }
}

proof fn lemma_row(body: Seq<u8>, c: Coder, row: Seq<Seq<u8>>, width: int, pos: int)
    requires
        tracks(c.chans, row, width, pos),
        width < 4294967296,
        c.st.wf(),
        c.st.wmileft > 0,
        bits::carries(body, c.p, row_out(c.st, c.chans, row, pos, width).code),
    ensures
        ({
            let w = row_out(c.st, c.chans, row, pos, width);
            &&& decode::row_in(body, rgb32_mode(), c, pos, width) == Ok::<Coder, QuicError>(
                Coder { st: w.st, chans: w.chans, p: c.p + w.code.len() },
            )
            &&& tracks(w.chans, row, width, width)
            &&& w.st.wf()
            &&& w.st.wmileft > 0
        }),
    decreases DEFWMIMAX - c.st.wmidx,
{
    if c.st.wmidx < DEFWMIMAX && c.st.wmileft <= width - pos {
        let end = pos + c.st.wmileft;
        let d = segment_out(c.st, c.chans, row, pos, end);
        let next = decode::at_waitmask(d.st, c.st.wmidx + 1);
        let rest = row_out(next, d.chans, row, end, width);
        bits::lemma_carries_split(body, c.p, d.code, rest.code);
        segment_is_read_back(body, c, row, width, pos, end);
        lemma_row(
            body,
            Coder { st: next, chans: d.chans, p: c.p + d.code.len() },
            row,
            width,
            end,
        );
    } else if pos < width {
        segment_is_read_back(body, c, row, width, pos, width);
    }
}

proof fn lemma_next_tracks(chans: Seq<Chan>, row: Seq<Seq<u8>>, next: Seq<Seq<u8>>, width: int)
    requires
        tracks(chans, row, width, width),
        0 < width,
        next.len() == row.len(),
        forall|k: int| 0 <= k < next.len() ==> (#[trigger] next[k]).len() == width,
    ensures
        tracks(decode::next_rows(chans), next, width, 0),
{
    let after = decode::next_rows(chans);
    assert forall|k: int| 0 <= k < after.len() implies (#[trigger] after[k]).ok(8, width)
        && after[k].line == next[k].take(0) by {
        assert(chans[k].ok(8, width));
        assert(chans[k].line == row[k].take(width));
        assert(row[k].len() == width);
        assert(after[k].line =~= next[k].take(0));
    }
}

/// The planes of the first `y` rows.
pub open spec fn planes_of(rows: Seq<Seq<Seq<u8>>>, y: int) -> Seq<Seq<u8>>
    decreases y,
{
    if y <= 0 {
        Seq::new(3, |k: int| Seq::empty())
    } else {
        Seq::new(3, |k: int| planes_of(rows, y - 1)[k] + rows[y - 1][k])
    }
}

proof fn lemma_rows(body: Seq<u8>, c: Coder, rows: Seq<Seq<Seq<u8>>>, y: int, width: int)
    requires
        0 <= y <= rows.len(),
        0 < width < 4294967296,
        forall|i: int| 0 <= i < rows.len() ==> (#[trigger] rows[i]).len() == 3,
        forall|i: int, k: int|
            0 <= i < rows.len() && 0 <= k < 3 ==> (#[trigger] rows[i][k]).len() == width,
        y < rows.len() ==> tracks(c.chans, rows[y], width, 0),
        c.st.wf(),
        c.st.wmileft > 0,
        bits::carries(body, c.p, rows_out(c.st, c.chans, rows, y, width)),
    ensures
        decode::rows_in(
            body,
            rgb32_mode(),
            c,
            width,
            (rows.len() - y) as nat,
            planes_of(rows, y),
        ) == Ok::<(Seq<Seq<u8>>, int), QuicError>(
            (
                planes_of(rows, rows.len() as int),
                c.p + rows_out(c.st, c.chans, rows, y, width).len(),
            ),
        ),
    decreases rows.len() - y,
{
    if y < rows.len() {
        let d = row_out(c.st, c.chans, rows[y], 0, width);
        let next = decode::next_rows(d.chans);
        let rest = rows_out(d.st, next, rows, y + 1, width);
        bits::lemma_carries_split(body, c.p, d.code, rest);
        lemma_row(body, c, rows[y], width, 0);
        if y + 1 < rows.len() {
            lemma_next_tracks(d.chans, rows[y], rows[y + 1], width);
        }
        assert(planes_of(rows, y + 1) =~= decode::with_row(planes_of(rows, y), d.chans)) by {
            assert forall|k: int| 0 <= k < 3 implies planes_of(rows, y + 1)[k] == decode::with_row(
                planes_of(rows, y),
                d.chans,
            )[k] by {
                assert(d.chans[k].line == rows[y][k].take(width));
                assert(rows[y][k].len() == width);
                assert(rows[y][k].take(width) =~= rows[y][k]);
            }
        }
        lemma_rows(
            body,
            Coder { st: d.st, chans: next, p: c.p + d.code.len() },
            rows,
            y + 1,
            width,
        );
    }
}

/// A plane of an image sample by sample.
proof fn lemma_planes_of(pixels: Seq<u8>, width: int, height: int, y: int)
    requires
        0 < width,
        0 <= y <= height,
        pixels.len() == 4 * (width * height),
    ensures
        planes_of(rows_of(pixels, width, height), y).len() == 3,
        forall|k: int|
            0 <= k < 3 ==> (#[trigger] planes_of(rows_of(pixels, width, height), y)[k]).len() == y
                * width,
        forall|k: int, i: int|
            0 <= k < 3 && 0 <= i < y * width ==> #[trigger] planes_of(
                rows_of(pixels, width, height),
                y,
            )[k][i] == pixels[4 * i + 2 - k],
    decreases y,
{
    let rows = rows_of(pixels, width, height);
    if y > 0 {
        lemma_planes_of(pixels, width, height, y - 1);
        assert(y * width == (y - 1) * width + width) by (nonlinear_arith);
        let before = planes_of(rows, y - 1);
        let after = planes_of(rows, y);
        assert forall|k: int| 0 <= k < 3 implies (#[trigger] after[k]).len() == y * width by {
            assert(before[k].len() == (y - 1) * width);
        }
        assert forall|k: int, i: int| 0 <= k < 3 && 0 <= i < y * width implies #[trigger] after[k][i]
            == pixels[4 * i + 2 - k] by {
            assert(before[k].len() == (y - 1) * width);
            if i < (y - 1) * width {
                assert(before[k][i] == pixels[4 * i + 2 - k]);
            } else {
                let x = i - (y - 1) * width;
                assert(after[k][i] == rows[y - 1][k][x]);
            }
        }
    } else {
        assert(0 * width == 0);
    }
}

/// A BGRA image with its alpha bytes zeroed.
pub open spec fn opaque_free(pixels: Seq<u8>) -> Seq<u8> {
    Seq::new(
        pixels.len(),
        |i: int|
            if i % 4 == 3 {
                0u8
            } else {
                pixels[i]
            },
    )
}

/// A QUIC stream of an image: its header, its code, and zeros up to a whole
/// word.
pub open spec fn is_stream_of(stream: Seq<u8>, pixels: Seq<u8>, width: u32, height: u32) -> bool {
    let header = QuicHeader { image_type: QuicImageType::Rgb32, width, height };
    let code = image_code(pixels, width as int, height as int);
    let body = stream.skip(QUIC_HEADER_SIZE as int);
    &&& stream.len() >= QUIC_HEADER_SIZE
    &&& stream.take(QUIC_HEADER_SIZE as int) == header.wire()
    &&& body.len() % 4 == 0
    &&& code.len() <= 8 * body.len() < code.len() + 32
    &&& bits::carries(body, 0, code)
    &&& forall|p: int| code.len() <= p < 8 * body.len() ==> !#[trigger] bits::bit(body, p)
}

/// Decoding a compressed image gives the image back, with its alpha bytes
/// zeroed, for every image that the decoder's cap admits.
pub proof fn rgb32_round_trip(pixels: Seq<u8>, width: u32, height: u32, stream: Seq<u8>)
    requires
        crate::lz::dims::dims_ok(width, height, 4),
        pixels.len() == 4 * (width * height),
        is_stream_of(stream, pixels, width, height),
    ensures
        image::rgb32_image(stream, width, height) == Ok::<Seq<u8>, QuicError>(
            opaque_free(pixels),
        ),
{
    let body = stream.skip(QUIC_HEADER_SIZE as int);
    let w = width as int;
    let h = height as int;
    let c = decode::fresh(rgb32_mode(), 3, w, 0);
    let rows = rows_of(pixels, w, h);
    lemma2_to64();
    assert forall|k: int| 0 <= k < 3 implies (#[trigger] c.chans[k]).ok(8, w) && c.chans[k].line
        == rows[0][k].take(0) by {
        assert(c.chans[k].line =~= rows[0][k].take(0));
    }
    assert(tracks(c.chans, rows[0], w, 0));
    assert(planes_of(rows, 0) =~= Seq::new(3, |k: int| Seq::<u8>::empty()));
    lemma_rows(body, c, rows, 0, w);
    lemma_planes_of(pixels, w, h, h);
    let planes = planes_of(rows, h);
    assert(h * w == w * h) by (nonlinear_arith);
    let n = (width * height) as nat;
    assert(planes[0].len() == n && planes[1].len() == n && planes[2].len() == n);
    let out = image::bgra(planes[2], planes[1], planes[0], image::flat(n, 0));
    assert(out =~= opaque_free(pixels)) by {
        assert forall|i: int| 0 <= i < out.len() implies out[i] == opaque_free(pixels)[i] by {
            let x = i / 4;
            assert(planes[0][x] == pixels[4 * x + 2 - 0]);
            assert(planes[1][x] == pixels[4 * x + 2 - 1]);
            assert(planes[2][x] == pixels[4 * x + 2 - 2]);
        }
    }
}

fn encode_pixel(
    writer: &mut BitWriter,
    fam: &Family,
    chans: &mut Vec<ChannelDecoder>,
    row: &Vec<Vec<u8>>,
    j: u32,
    width: Ghost<int>,
)
    requires
        fam.wf(),
        fam.bpc == 8,
        decode::ready(old(chans)@, 8, width@, j as int),
        j < width@,
        row@.len() == old(chans)@.len(),
        forall|k: int| 0 <= k < row@.len() ==> (#[trigger] row@[k])@.len() == width@,
    ensures
        final(chans)@.len() == old(chans)@.len(),
        decode::ready(final(chans)@, 8, width@, j + 1),
        ({
            let out = pixel_out(decode::views(old(chans)@), decode::plane_views(row@), 0);
            &&& decode::views(final(chans)@) == out.0
            &&& final(writer)@ == old(writer)@ + out.1
        }),
{
    let ghost rows = decode::plane_views(row@);
    let ghost total = pixel_out(decode::views(chans@), rows, 0);
    let n: usize = chans.len();
    let mut k: usize = 0;
    while k < n
        invariant
            fam.wf(),
            fam.bpc == 8,
            j < width@,
            k <= n == chans@.len() == old(chans)@.len() == row@.len(),
            rows == decode::plane_views(row@),
            forall|x: int| 0 <= x < n ==> (#[trigger] row@[x])@.len() == width@,
            forall|x: int| 0 <= x < n ==> (#[trigger] chans@[x]).wf(8, width@),
            forall|x: int| 0 <= x < k ==> (#[trigger] chans@[x])@.line.len() == j + 1,
            forall|x: int| k <= x < n ==> (#[trigger] chans@[x])@.line.len() == j,
            ({
                let rest = pixel_out(decode::views(chans@), rows, k as int);
                &&& total.0 == rest.0
                &&& old(writer)@ + total.1 == writer@ + rest.1
            }),
        decreases n - k,
    {
        let ghost before = chans@;
        let ghost rest = pixel_out(decode::views(before), rows, k as int);
        let ghost written = writer@;
        assert(before[k as int]@.line.len() == j);
        assert(row@[k as int]@.len() == width@);
        assert(rows[k as int] == row@[k as int]@);
        let v: u8 = row[k][j as usize];
        chans[k].encode_sample(writer, fam, v, width);
        assert(decode::views(chans@) =~= decode::views(before).update(
            k as int,
            chans@[k as int]@,
        ));
        k = k + 1;
        proof {
            let after = pixel_out(decode::views(chans@), rows, k as int);
            let code = before[k - 1]@.sample_code(8, v);
            assert(rest.1 == code + after.1);
            assert(written + (code + after.1) =~= (written + code) + after.1);
        }
    }
    assert(writer@ + Seq::<bool>::empty() =~= writer@);
}

fn count_run(row: &Vec<Vec<u8>>, j: u32, end: u32, width: Ghost<int>) -> (n: u32)
    requires
        0 < j <= end <= width@,
        forall|k: int| 0 <= k < row@.len() ==> (#[trigger] row@[k])@.len() == width@,
    ensures
        n == run_len(decode::plane_views(row@), j as int, end as int),
        j + n <= end,
{
    let ghost rows = decode::plane_views(row@);
    let mut n: u32 = 0;
    while j + n < end && same_as_before(row, j + n, width)
        invariant
            0 < j,
            j + n <= end <= width@,
            rows == decode::plane_views(row@),
            forall|k: int| 0 <= k < row@.len() ==> (#[trigger] row@[k])@.len() == width@,
            run_len(rows, j as int, end as int) == n + run_len(rows, j + n, end as int),
        decreases end - (j + n),
    {
        n = n + 1;
    }
    n
}

fn same_as_before(row: &Vec<Vec<u8>>, j: u32, width: Ghost<int>) -> (b: bool)
    requires
        0 < j < width@,
        forall|k: int| 0 <= k < row@.len() ==> (#[trigger] row@[k])@.len() == width@,
    ensures
        b == repeats(decode::plane_views(row@), j as int),
{
    let ghost rows = decode::plane_views(row@);
    let n: usize = row.len();
    let mut k: usize = 0;
    while k < n
        invariant
            k <= n == row@.len(),
            0 < j < width@,
            rows == decode::plane_views(row@),
            forall|x: int| 0 <= x < row@.len() ==> (#[trigger] row@[x])@.len() == width@,
            forall|x: int| 0 <= x < k ==> (#[trigger] rows[x])[j as int] == rows[x][j - 1],
        decreases n - k,
    {
        assert(row@[k as int]@.len() == width@);
        assert(rows[k as int] == row@[k as int]@);
        if row[k][j as usize] != row[k][j as usize - 1] {
            return false;
        }
        k = k + 1;
    }
    true
}

/// A row to be written: one list of samples per channel.
spec fn row_ok(row: Seq<Vec<u8>>, channels: nat, width: int) -> bool {
    &&& row.len() == channels
    &&& forall|k: int| 0 <= k < row.len() ==> (#[trigger] row[k])@.len() == width
}

/// Encode the pixels from `start` up to `end`.
fn compress_seg_rgb32(
    writer: &mut BitWriter,
    fam: &Family,
    state: &mut CommonState,
    chans: &mut Vec<ChannelDecoder>,
    row: &Vec<Vec<u8>>,
    start: u32,
    end: u32,
    width: Ghost<int>,
)
    requires
        fam.wf(),
        fam.bpc == 8,
        decode::ready(old(chans)@, 8, width@, start as int),
        row_ok(row@, old(chans)@.len(), width@),
        start < end <= width@,
        end <= 1073741823,
        decode::steady(*old(state)),
    ensures
        final(chans)@.len() == old(chans)@.len(),
        decode::ready(final(chans)@, 8, width@, end as int),
        decode::steady(*final(state)),
        final(state).wmidx == old(state).wmidx,
        final(state).wmileft == old(state).wmileft,
        ({
            let w = segment_out(
                *old(state),
                decode::views(old(chans)@),
                decode::plane_views(row@),
                start as int,
                end as int,
            );
            &&& *final(state) == w.st
            &&& decode::views(final(chans)@) == w.chans
            &&& final(writer)@ == old(writer)@ + w.code
        }),
{
    let ghost rows = decode::plane_views(row@);
    let ghost total = segment_out(
        *state,
        decode::views(chans@),
        rows,
        start as int,
        end as int,
    );
    let mut j: u32 = start;
    let mut run_at: i64 = -1;
    if j == 0 {
        encode_pixel(writer, fam, chans, row, 0, width);
        if state.waitcnt > 0 {
            state.waitcnt = state.waitcnt - 1;
        } else {
            let trigger: u32 = state.wm_trigger;
            let wait: u32 = draw(state);
            state.waitcnt = wait;
            proof {
                lemma2_to64();
            }
            learn_channels(fam, trigger, chans, 0, width, Ghost(1int));
        }
        j = 1;
    }
    let mut stop: u32 = j + state.waitcnt;
    let ghost rest = seg_out(
        *state,
        decode::views(chans@),
        rows,
        j as int,
        stop as int,
        run_at as int,
        end as int,
    );
    proof {
        if start == 0 {
            let code = pixel_out(decode::views(old(chans)@), rows, 0).1;
            assert(old(writer)@ + (code + rest.code) =~= writer@ + rest.code);
        }
    }
    while j < end
        invariant
            fam.wf(),
            fam.bpc == 8,
            chans@.len() == old(chans)@.len(),
            rows == decode::plane_views(row@),
            row_ok(row@, chans@.len(), width@),
            total == segment_out(
                *old(state),
                decode::views(old(chans)@),
                rows,
                start as int,
                end as int,
            ),
            rest == seg_out(
                *state,
                decode::views(chans@),
                rows,
                j as int,
                stop as int,
                run_at as int,
                end as int,
            ),
            total.st == rest.st,
            total.chans == rest.chans,
            old(writer)@ + total.code == writer@ + rest.code,
            decode::ready(chans@, 8, width@, j as int),
            0 < j <= end <= width@,
            end <= 1073741823,
            j <= stop <= j + 63,
            decode::steady(*state),
            state.wmidx == old(state).wmidx,
            state.wmileft == old(state).wmileft,
        decreases
                end - j,
                if run_at == j {
                    0int
                } else {
                    1int
                },
    {
        let ghost written = writer@;
        if run_starts(true, &*chans, j, run_at, Ghost(8u32), width) {
            state.waitcnt = stop - j;
            let n: u32 = count_run(row, j, end, width);
            let ghost code = melcode::run_code(state.melcstate as int, n as int);
            encode_state_run(writer, state, n);
            repeat_channels(chans, n, Ghost(8u32), width, Ghost(j as int));
            run_at = j as i64;
            j = j + n;
            if j == end {
                return;
            }
            stop = j + state.waitcnt;
            proof {
                let next = seg_out(
                    *state,
                    decode::views(chans@),
                    rows,
                    j as int,
                    stop as int,
                    run_at as int,
                    end as int,
                );
                assert(written + (code + next.code) =~= writer@ + next.code);
                rest = next;
            }
        } else {
            let ghost code = pixel_out(decode::views(chans@), rows, 0).1;
            encode_pixel(writer, fam, chans, row, j, width);
            if j == stop {
                let trigger: u32 = state.wm_trigger;
                proof {
                    lemma2_to64();
                }
                learn_channels(fam, trigger, chans, j as usize, width, Ghost(j + 1));
                let wait: u32 = draw(state);
                stop = j + 1 + wait;
            }
            j = j + 1;
            proof {
                let next = seg_out(
                    *state,
                    decode::views(chans@),
                    rows,
                    j as int,
                    stop as int,
                    run_at as int,
                    end as int,
                );
                assert(written + (code + next.code) =~= writer@ + next.code);
                rest = next;
            }
        }
    }
    state.waitcnt = stop - end;
    assert(writer@ + rest.code =~= writer@);
}

fn compress_row_rgb32(
    writer: &mut BitWriter,
    fam: &Family,
    state: &mut CommonState,
    chans: &mut Vec<ChannelDecoder>,
    row: &Vec<Vec<u8>>,
    width: u32,
)
    requires
        fam.wf(),
        fam.bpc == 8,
        decode::ready(old(chans)@, 8, width as int, 0),
        row_ok(row@, old(chans)@.len(), width as int),
        0 < width <= 1073741823,
        decode::steady(*old(state)),
    ensures
        final(chans)@.len() == old(chans)@.len(),
        decode::ready(final(chans)@, 8, width as int, width as int),
        decode::steady(*final(state)),
        ({
            let w = row_out(
                *old(state),
                decode::views(old(chans)@),
                decode::plane_views(row@),
                0,
                width as int,
            );
            &&& *final(state) == w.st
            &&& decode::views(final(chans)@) == w.chans
            &&& final(writer)@ == old(writer)@ + w.code
        }),
{
    let ghost rows = decode::plane_views(row@);
    let ghost total = row_out(*state, decode::views(chans@), rows, 0, width as int);
    let mut pos: u32 = 0;
    while state.wmidx < DEFWMIMAX && state.wmileft <= width - pos
        invariant
            fam.wf(),
            fam.bpc == 8,
            chans@.len() == old(chans)@.len(),
            rows == decode::plane_views(row@),
            row_ok(row@, chans@.len(), width as int),
            ({
                let rest = row_out(
                    *state,
                    decode::views(chans@),
                    rows,
                    pos as int,
                    width as int,
                );
                &&& total.st == rest.st
                &&& total.chans == rest.chans
                &&& old(writer)@ + total.code == writer@ + rest.code
            }),
            decode::ready(chans@, 8, width as int, pos as int),
            pos <= width <= 1073741823,
            decode::steady(*state),
        decreases DEFWMIMAX - state.wmidx,
    {
        let ghost written = writer@;
        let end: u32 = pos + state.wmileft;
        let ghost d = segment_out(*state, decode::views(chans@), rows, pos as int, end as int);
        compress_seg_rgb32(writer, fam, state, chans, row, pos, end, Ghost(width as int));
        pos = end;
        state.wmidx = state.wmidx + 1;
        state.set_wm_trigger();
        state.wmileft = DEFWMINEXT;
        proof {
            let next = row_out(*state, decode::views(chans@), rows, pos as int, width as int);
            assert(written + (d.code + next.code) =~= writer@ + next.code);
        }
    }
    if pos < width {
        compress_seg_rgb32(writer, fam, state, chans, row, pos, width, Ghost(width as int));
        if state.wmidx < DEFWMIMAX {
            state.wmileft = state.wmileft - (width - pos);
        }
    } else {
        assert(writer@ + Seq::<bool>::empty() =~= writer@);
    }
}

/// The samples of one row, red, green and blue.
fn split_row(pixels: &[u8], width: u32, y: u32, height: Ghost<int>) -> (row: Vec<Vec<u8>>)
    requires
        pixels@.len() == 4 * (width * height@),
        y < height@,
        pixels@.len() <= u32::MAX,
    ensures
        decode::plane_views(row@) == row_of(pixels@, width as int, y as int),
        row_ok(row@, 3, width as int),
{
    let mut r: Vec<u8> = Vec::new();
    let mut g: Vec<u8> = Vec::new();
    let mut b: Vec<u8> = Vec::new();
    let mut x: u32 = 0;
    let ghost goal = row_of(pixels@, width as int, y as int);
    while x < width
        invariant
            x <= width,
            pixels@.len() == 4 * (width * height@),
            y < height@,
            pixels@.len() <= u32::MAX,
            goal == row_of(pixels@, width as int, y as int),
            r@.len() == x,
            g@.len() == x,
            b@.len() == x,
            forall|i: int| 0 <= i < x ==> #[trigger] r@[i] == goal[0][i],
            forall|i: int| 0 <= i < x ==> #[trigger] g@[i] == goal[1][i],
            forall|i: int| 0 <= i < x ==> #[trigger] b@[i] == goal[2][i],
        decreases width - x,
    {
        proof {
            assert(0 <= y * width + x < width * height@) by (nonlinear_arith)
                requires
                    0 <= y < height@,
                    0 <= x < width,
            ;
            assert(0 <= y * width) by (nonlinear_arith)
                requires
                    0 <= y,
                    0 <= width,
            ;
        }
        let at: usize = 4 * (y as usize * width as usize + x as usize);
        b.push(pixels[at]);
        g.push(pixels[at + 1]);
        r.push(pixels[at + 2]);
        assert(goal[0][x as int] == pixels@[at + 2 - 0]);
        assert(goal[1][x as int] == pixels@[at + 2 - 1]);
        assert(goal[2][x as int] == pixels@[at + 2 - 2]);
        x = x + 1;
    }
    assert(r@ =~= goal[0]);
    assert(g@ =~= goal[1]);
    assert(b@ =~= goal[2]);
    let mut row: Vec<Vec<u8>> = Vec::new();
    row.push(r);
    row.push(g);
    row.push(b);
    assert(decode::plane_views(row@) =~= goal);
    row
}

/// Compress a `width * height` BGRA buffer (top-down, alpha ignored) into a
/// complete QUIC RGB32 stream including the header.
pub fn compress_rgb32(pixels: &[u8], width: u32, height: u32) -> (r: Vec<u8>)
    requires
        0 < width,
        0 < height,
        pixels@.len() == 4 * (width * height),
        pixels@.len() <= u32::MAX,
    ensures
        is_stream_of(r@, pixels@, width, height),
{
    proof {
        lemma2_to64();
        assert(width <= width * height) by (nonlinear_arith)
            requires
                height >= 1,
                width >= 1,
        ;
    }
    let header = QuicHeader { image_type: QuicImageType::Rgb32, width, height };
    let mut out: Vec<u8> = Vec::new();
    header.encode(&mut out);
    let fam = Family::init(8);
    let mut state = CommonState::default();
    let mut chans: Vec<ChannelDecoder> = Vec::new();
    chans.push(ChannelDecoder::new(8, width as usize));
    chans.push(ChannelDecoder::new(8, width as usize));
    chans.push(ChannelDecoder::new(8, width as usize));
    let mut writer = BitWriter::new();
    let ghost rows = rows_of(pixels@, width as int, height as int);
    let ghost code = image_code(pixels@, width as int, height as int);
    proof {
        let c = decode::fresh(rgb32_mode(), 3, width as int, 0);
        assert(decode::views(chans@) =~= c.chans);
        assert(writer@ + code =~= code);
    }
    let mut y: u32 = 0;
    while y < height
        invariant
            fam.wf(),
            fam.bpc == 8,
            0 < width <= 1073741823,
            pixels@.len() == 4 * (width * height),
            pixels@.len() <= u32::MAX,
            y <= height,
            chans@.len() == 3,
            rows == rows_of(pixels@, width as int, height as int),
            code == writer@ + rows_out(
                state,
                decode::views(chans@),
                rows,
                y as int,
                width as int,
            ),
            decode::ready(chans@, 8, width as int, 0),
            decode::steady(state),
        decreases height - y,
    {
        let row = split_row(pixels, width, y, Ghost(height as int));
        assert(rows[y as int] == decode::plane_views(row@));
        let ghost written = writer@;
        let ghost d = row_out(state, decode::views(chans@), rows[y as int], 0, width as int);
        compress_row_rgb32(&mut writer, &fam, &mut state, &mut chans, &row, width);
        start_rows(&mut chans, Ghost(8u32), Ghost(width as int));
        y = y + 1;
        proof {
            let rest = rows_out(state, decode::views(chans@), rows, y as int, width as int);
            assert(written + (d.code + rest) =~= writer@ + rest);
        }
    }
    assert(writer@ =~= code);
    let body = writer.finish();
    out.extend_from_slice(body.as_slice());
    assert(out@ =~= header.wire() + body@);
    assert(out@.take(QUIC_HEADER_SIZE as int) =~= header.wire());
    assert(out@.skip(QUIC_HEADER_SIZE as int) =~= body@);
    out
}

} // verus!
