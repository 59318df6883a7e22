//! Images out of the bit stream.

use vstd::prelude::*;

use crate::quic::bits;
use crate::quic::bits::{bppmask, BitReader};
use crate::quic::error::{QuicError, Result};
use crate::quic::family;
use crate::quic::family::Family;
use crate::quic::melcode;
use crate::quic::melcode::{decode_state_run, tabrand, CommonState, DEFWMIMAX, DEFWMINEXT};
use crate::quic::model::{Chan, ChannelDecoder};

verus! {

/// What is fixed for all of an image: the bits per channel, and whether runs
/// are coded.
pub struct Mode {
    pub bpc: u32,
    pub runs: bool,
}

/// A coder's state, its channels, and its position in the bit stream.
pub struct Coder {
    pub st: CommonState,
    pub chans: Seq<Chan>,
    pub p: int,
}

/// Reading one sample for each channel from the `k`-th on.
pub open spec fn pixel_in(body: Seq<u8>, bpc: u32, chans: Seq<Chan>, k: int, p: int) -> Result<
    (Seq<Chan>, int),
>
    decreases chans.len() - k,
{
    if k < 0 || k >= chans.len() {
        Ok((chans, p))
    } else {
        match chans[k].sample_in(body, bpc, p) {
            Err(e) => Err(e),
            Ok((c, q)) => pixel_in(body, bpc, chans.update(k, c), k + 1, q),
        }
    }
}

/// All channels after they have learnt from their residuals at `i`.
pub open spec fn learn_all(bpc: u32, trigger: u32, chans: Seq<Chan>, i: int) -> Seq<Chan> {
    Seq::new(chans.len(), |k: int| chans[k].learn(bpc, trigger, i))
}

/// All channels with their last samples repeated.
pub open spec fn repeat_all(chans: Seq<Chan>, n: int) -> Seq<Chan> {
    Seq::new(chans.len(), |k: int| chans[k].repeat(n))
}

/// All channels at the start of the next row.
pub open spec fn next_rows(chans: Seq<Chan>) -> Seq<Chan> {
    Seq::new(chans.len(), |k: int| chans[k].next_row())
}

/// A run is coded at position `j`: past the first row and the first pixels,
/// not where one just was, and where the last two pixels of this row are the
/// same and so are the two above.
pub open spec fn run_here(runs: bool, chans: Seq<Chan>, j: int, run_at: int) -> bool {
    &&& runs
    &&& j > 2
    &&& run_at != j
    &&& forall|k: int| 0 <= k < chans.len() ==> (#[trigger] chans[k]).settled(j)
}

/// The next pseudo-random wait, and the state after it.
pub open spec fn drawn(st: CommonState) -> (CommonState, u32) {
    let (seed, r) = melcode::tabrand_next(st.tabrand_seed);
    (CommonState { tabrand_seed: seed, ..st }, r & bits::mask(st.wmidx))
}

/// Reading the pixels from `j` up to `end`. The channels learn at `stop`; the
/// last run was at `run_at`.
pub open spec fn seg_in(
    body: Seq<u8>,
    mode: Mode,
    c: Coder,
    j: int,
    stop: int,
    run_at: int,
    end: int,
) -> Result<Coder>
    decreases
            end - j,
            if run_at == j {
                0int
            } else {
                1int
            },
{
    if j >= end {
        Ok(Coder { st: CommonState { waitcnt: (stop - end) as u32, ..c.st }, ..c })
    } else if run_here(mode.runs, c.chans, j, run_at) {
        let run = melcode::run_at(body, c.p, c.st.melcstate as int);
        match melcode::run_result(body, run) {
            Err(e) => Err(e),
            Ok(n) => {
                let st = CommonState { waitcnt: (stop - j) as u32, ..c.st }.at_melc(
                    melcode::step_down(run.top),
                );
                let after = Coder { st, chans: repeat_all(c.chans, n as int), p: run.end };
                if j + n > end {
                    Err(QuicError::Short { need: (j + n - end) as usize, have: 0 })
                } else if j + n == end {
                    Ok(after)
                } else {
                    seg_in(body, mode, after, j + n, j + n + st.waitcnt, j, end)
                }
            },
        }
    } else {
        match pixel_in(body, mode.bpc, c.chans, 0, c.p) {
            Err(e) => Err(e),
            Ok((chans, q)) => if j == stop {
                let (st, wait) = drawn(c.st);
                let after = Coder {
                    st,
                    chans: learn_all(mode.bpc, c.st.wm_trigger, chans, j),
                    p: q,
                };
                seg_in(body, mode, after, j + 1, j + 1 + wait, run_at, end)
            } else {
                seg_in(body, mode, Coder { chans, p: q, ..c }, j + 1, stop, run_at, end)
            },
        }
    }
}

/// Reading a segment of a row, the pixels from `start` up to `end`.
pub open spec fn segment_in(body: Seq<u8>, mode: Mode, c: Coder, start: int, end: int) -> Result<
    Coder,
> {
    if start == 0 {
        match pixel_in(body, mode.bpc, c.chans, 0, c.p) {
            Err(e) => Err(e),
            Ok((chans, q)) => {
                let after = if c.st.waitcnt > 0 {
                    Coder {
                        st: CommonState { waitcnt: (c.st.waitcnt - 1) as u32, ..c.st },
                        chans,
                        p: q,
                    }
                } else {
                    let (st, wait) = drawn(c.st);
                    Coder {
                        st: CommonState { waitcnt: wait, ..st },
                        chans: learn_all(mode.bpc, c.st.wm_trigger, chans, 0),
                        p: q,
                    }
                };
                seg_in(body, mode, after, 1, 1 + after.st.waitcnt, -1, end)
            },
        }
    } else {
        seg_in(body, mode, c, start, start + c.st.waitcnt, -1, end)
    }
}

/// The state at the start of the waitmask `wmidx`.
pub open spec fn at_waitmask(st: CommonState, wmidx: int) -> CommonState {
    CommonState {
        wmidx: wmidx as u32,
        wm_trigger: melcode::trigger(wmidx as u32),
        wmileft: DEFWMINEXT,
        ..st
    }
}

/// Reading a row from `pos` up to `width`: a segment for each waitmask that
/// it takes.
pub open spec fn row_in(body: Seq<u8>, mode: Mode, c: Coder, pos: int, width: int) -> Result<Coder>
    decreases DEFWMIMAX - c.st.wmidx,
{
    if c.st.wmidx < DEFWMIMAX && c.st.wmileft <= width - pos {
        let end = pos + c.st.wmileft;
        match segment_in(body, mode, c, pos, end) {
            Err(e) => Err(e),
            Ok(d) => row_in(
                body,
                mode,
                Coder { st: at_waitmask(d.st, c.st.wmidx + 1), ..d },
                end,
                width,
            ),
        }
    } else if pos < width {
        match segment_in(body, mode, c, pos, width) {
            Err(e) => Err(e),
            Ok(d) => Ok(
                if d.st.wmidx < DEFWMIMAX {
                    Coder {
                        st: CommonState { wmileft: (d.st.wmileft - (width - pos)) as u32, ..d.st },
                        ..d
                    }
                } else {
                    d
                },
            ),
        }
    } else {
        Ok(c)
    }
}

/// The planes with one more row each.
pub open spec fn with_row(planes: Seq<Seq<u8>>, chans: Seq<Chan>) -> Seq<Seq<u8>> {
    Seq::new(planes.len(), |k: int| planes[k] + chans[k].line)
}

/// Reading `rows` more rows of an image.
pub open spec fn rows_in(
    body: Seq<u8>,
    mode: Mode,
    c: Coder,
    width: int,
    rows: nat,
    planes: Seq<Seq<u8>>,
) -> Result<(Seq<Seq<u8>>, int)>
    decreases rows,
{
    if rows == 0 {
        Ok((planes, c.p))
    } else {
        match row_in(body, mode, c, 0, width) {
            Err(e) => Err(e),
            Ok(d) => rows_in(
                body,
                mode,
                Coder { chans: next_rows(d.chans), ..d },
                width,
                (rows - 1) as nat,
                with_row(planes, d.chans),
            ),
        }
    }
}

/// A coder before the first row.
pub open spec fn fresh(mode: Mode, channels: nat, width: int, p: int) -> Coder {
    Coder {
        st: CommonState::initial(),
        chans: Seq::new(channels, |k: int| Chan::fresh(mode.bpc, width)),
        p,
    }
}

/// Reading the planes of an image from position `p` on.
pub open spec fn planes_in(
    body: Seq<u8>,
    mode: Mode,
    channels: nat,
    width: int,
    height: int,
    p: int,
) -> Result<(Seq<Seq<u8>>, int)> {
    rows_in(
        body,
        mode,
        fresh(mode, channels, width, p),
        width,
        height as nat,
        Seq::new(channels, |k: int| Seq::empty()),
    )
}

/// What a list of channels holds.
pub open spec fn views(v: Seq<ChannelDecoder>) -> Seq<Chan> {
    Seq::new(v.len(), |k: int| v[k]@)
}

/// All channels are well formed, and have come to position `j`.
pub open spec fn ready(v: Seq<ChannelDecoder>, bpc: u32, width: int, j: int) -> bool {
    &&& 1 <= bpc <= 8
    &&& forall|k: int| 0 <= k < v.len() ==> (#[trigger] v[k]).wf(bpc, width)
    &&& forall|k: int| 0 <= k < v.len() ==> (#[trigger] v[k])@.line.len() == j
}

/// The residuals before position `i` are residuals of the family.
pub open spec fn known(v: Seq<ChannelDecoder>, bpc: u32, i: int) -> bool {
    forall|k: int| 0 <= k < v.len() ==> (#[trigger] v[k])@.context(i) < family::levels(bpc)
}

/// The state's counters are in range.
pub open spec fn steady(st: CommonState) -> bool {
    &&& st.wf()
    &&& st.wmidx <= DEFWMIMAX
    &&& st.waitcnt <= 63
    &&& 0 < st.wmileft <= DEFWMINEXT
}

fn decode_pixel(
    reader: &mut BitReader<'_>,
    fam: &Family,
    chans: &mut Vec<ChannelDecoder>,
    width: Ghost<int>,
    j: Ghost<int>,
) -> (r: Result<()>)
    requires
        fam.wf(),
        ready(old(chans)@, fam.bpc, width@, j@),
        0 <= j@ < width@,
    ensures
        final(reader).body() == old(reader).body(),
        final(chans)@.len() == old(chans)@.len(),
        match pixel_in(old(reader).body(), fam.bpc, views(old(chans)@), 0, old(reader).at()) {
            Ok((c, q)) => {
                &&& r is Ok
                &&& views(final(chans)@) == c
                &&& final(reader).at() == q
                &&& ready(final(chans)@, fam.bpc, width@, j@ + 1)
                &&& known(final(chans)@, fam.bpc, j@)
            },
            Err(e) => r == Err::<(), QuicError>(e),
        },
{
    let ghost body = reader.body();
    let ghost total = pixel_in(body, fam.bpc, views(chans@), 0, reader.at());
    let n: usize = chans.len();
    let mut k: usize = 0;
    while k < n
        invariant
            fam.wf(),
            1 <= fam.bpc <= 8,
            reader.body() == body,
            body == old(reader).body(),
            k <= n == chans@.len() == old(chans)@.len(),
            0 <= j@ < width@,
            total == pixel_in(body, fam.bpc, views(old(chans)@), 0, old(reader).at()),
            total == pixel_in(body, fam.bpc, views(chans@), k as int, reader.at()),
            forall|i: int| 0 <= i < n ==> (#[trigger] chans@[i]).wf(fam.bpc, width@),
            forall|i: int| 0 <= i < k ==> (#[trigger] chans@[i])@.line.len() == j@ + 1,
            forall|i: int| k <= i < n ==> (#[trigger] chans@[i])@.line.len() == j@,
            forall|i: int|
                0 <= i < k ==> (#[trigger] chans@[i])@.context(j@) < family::levels(fam.bpc),
        decreases n - k,
    {
        let ghost before = chans@;
        proof {
            before[k as int].lemma_wf(fam.bpc, width@);
        }
        chans[k].decode_sample(reader, fam, width)?;
        assert(views(chans@) =~= views(before).update(k as int, chans@[k as int]@));
        k = k + 1;
    }
    Ok(())
}

pub(crate) fn learn_channels(
    fam: &Family,
    wm_trigger: u32,
    chans: &mut Vec<ChannelDecoder>,
    i: usize,
    width: Ghost<int>,
    j: Ghost<int>,
)
    requires
        fam.wf(),
        ready(old(chans)@, fam.bpc, width@, j@),
        known(old(chans)@, fam.bpc, i as int),
        i < width@,
    ensures
        ready(final(chans)@, fam.bpc, width@, j@),
        final(chans)@.len() == old(chans)@.len(),
        views(final(chans)@) == learn_all(fam.bpc, wm_trigger, views(old(chans)@), i as int),
{
    let ghost goal = learn_all(fam.bpc, wm_trigger, views(chans@), i as int);
    let n: usize = chans.len();
    let mut k: usize = 0;
    while k < n
        invariant
            fam.wf(),
            i < width@,
            k <= n == chans@.len() == old(chans)@.len(),
            ready(chans@, fam.bpc, width@, j@),
            goal == learn_all(fam.bpc, wm_trigger, views(old(chans)@), i as int),
            forall|x: int| 0 <= x < k ==> (#[trigger] chans@[x])@ == goal[x],
            forall|x: int| k <= x < n ==> #[trigger] chans@[x] == old(chans)@[x],
            known(old(chans)@, fam.bpc, i as int),
        decreases n - k,
    {
        assert(chans@[k as int] == old(chans)@[k as int]);
        chans[k].learn(fam, wm_trigger, i, width);
        k = k + 1;
    }
    assert(views(chans@) =~= goal);
}

pub(crate) fn repeat_channels(
    chans: &mut Vec<ChannelDecoder>,
    n: u32,
    bpc: Ghost<u32>,
    width: Ghost<int>,
    j: Ghost<int>,
)
    requires
        ready(old(chans)@, bpc@, width@, j@),
        0 < j@,
        j@ + n <= width@,
    ensures
        ready(final(chans)@, bpc@, width@, j@ + n),
        final(chans)@.len() == old(chans)@.len(),
        views(final(chans)@) == repeat_all(views(old(chans)@), n as int),
{
    let ghost goal = repeat_all(views(chans@), n as int);
    let count: usize = chans.len();
    let mut k: usize = 0;
    while k < count
        invariant
            1 <= bpc@ <= 8,
            0 < j@,
            j@ + n <= width@,
            k <= count == chans@.len() == old(chans)@.len(),
            goal == repeat_all(views(old(chans)@), n as int),
            forall|x: int| 0 <= x < count ==> (#[trigger] chans@[x]).wf(bpc@, width@),
            forall|x: int| 0 <= x < count ==> (#[trigger] old(chans)@[x])@.line.len() == j@,
            forall|x: int| 0 <= x < k ==> (#[trigger] chans@[x])@ == goal[x],
            forall|x: int| k <= x < count ==> #[trigger] chans@[x] == old(chans)@[x],
        decreases count - k,
    {
        assert(chans@[k as int] == old(chans)@[k as int]);
        assert(old(chans)@[k as int]@.line.len() == j@);
        chans[k].repeat(n, bpc, width);
        k = k + 1;
    }
    assert(views(chans@) =~= goal);
    assert forall|x: int| 0 <= x < count implies (#[trigger] chans@[x])@.line.len() == j@ + n by {
        assert(chans@[x]@ == goal[x]);
        assert(old(chans)@[x]@.line.len() == j@);
    }
}

pub(crate) fn run_starts(
    runs: bool,
    chans: &Vec<ChannelDecoder>,
    j: u32,
    run_at: i64,
    bpc: Ghost<u32>,
    width: Ghost<int>,
) -> (b: bool)
    requires
        ready(chans@, bpc@, width@, j as int),
        j < width@,
    ensures
        b == run_here(runs, views(chans@), j as int, run_at as int),
{
    if !runs || j <= 2 || run_at == j as i64 {
        return false;
    }
    let n: usize = chans.len();
    let mut k: usize = 0;
    while k < n
        invariant
            k <= n == chans@.len(),
            2 < j < width@,
            ready(chans@, bpc@, width@, j as int),
            forall|x: int| 0 <= x < k ==> (#[trigger] chans@[x])@.settled(j as int),
        decreases n - k,
    {
        assert(views(chans@)[k as int] == chans@[k as int]@);
        if !chans[k].settled(j as usize, bpc, width) {
            return false;
        }
        k = k + 1;
    }
    assert forall|x: int| 0 <= x < views(chans@).len() implies (#[trigger] views(
        chans@,
    )[x]).settled(j as int) by {
        assert(chans@[x]@.settled(j as int));
    }
    true
}

/// Draw the next wait.
pub(crate) fn draw(state: &mut CommonState) -> (wait: u32)
    requires
        old(state).wmidx <= DEFWMIMAX,
    ensures
        (*final(state), wait) == drawn(*old(state)),
        wait <= 63,
{
    let r: u32 = tabrand(&mut state.tabrand_seed);
    let m: u32 = bppmask(state.wmidx);
    proof {
        lemma_mask_bound(state.wmidx, r);
    }
    r & m
}

proof fn lemma_mask_bound(wmidx: u32, r: u32)
    requires
        wmidx <= DEFWMIMAX,
    ensures
        r & bits::mask(wmidx) <= 63,
{
    vstd::arithmetic::power2::lemma2_to64();
    bits::lemma_pow2_below(wmidx as nat, 6);
    vstd::arithmetic::power2::lemma_pow2_pos(wmidx as nat);
    let m = bits::mask(wmidx);
    assert(r & m <= m) by (bit_vector);
}

/// Decode the pixels from `start` up to `end`.
fn decompress_seg(
    reader: &mut BitReader<'_>,
    fam: &Family,
    state: &mut CommonState,
    chans: &mut Vec<ChannelDecoder>,
    runs: bool,
    start: u32,
    end: u32,
    width: Ghost<int>,
) -> (r: Result<()>)
    requires
        fam.wf(),
        ready(old(chans)@, fam.bpc, width@, start as int),
        start < end <= width@ <= 16384,
        steady(*old(state)),
    ensures
        final(reader).body() == old(reader).body(),
        final(chans)@.len() == old(chans)@.len(),
        match segment_in(
            old(reader).body(),
            Mode { bpc: fam.bpc, runs },
            Coder { st: *old(state), chans: views(old(chans)@), p: old(reader).at() },
            start as int,
            end as int,
        ) {
            Ok(c) => {
                &&& r is Ok
                &&& c == (Coder {
                    st: *final(state),
                    chans: views(final(chans)@),
                    p: final(reader).at(),
                })
                &&& ready(final(chans)@, fam.bpc, width@, end as int)
                &&& steady(*final(state))
                &&& final(state).wmidx == old(state).wmidx
                &&& final(state).wmileft == old(state).wmileft
            },
            Err(e) => r == Err::<(), QuicError>(e),
        },
{
    let ghost body = reader.body();
    let ghost mode = Mode { bpc: fam.bpc, runs };
    let ghost total = segment_in(
        body,
        mode,
        Coder { st: *state, chans: views(chans@), p: reader.at() },
        start as int,
        end as int,
    );
    let mut j: u32 = start;
    let mut run_at: i64 = -1;
    if j == 0 {
        decode_pixel(reader, fam, chans, width, Ghost(0int))?;
        if state.waitcnt > 0 {
            state.waitcnt = state.waitcnt - 1;
        } else {
            let trigger: u32 = state.wm_trigger;
            let wait: u32 = draw(state);
            state.waitcnt = wait;
            learn_channels(fam, trigger, chans, 0, width, Ghost(1int));
        }
        j = 1;
    }
    let mut stop: u32 = j + state.waitcnt;
    while j < end
        invariant
            fam.wf(),
            mode == (Mode { bpc: fam.bpc, runs }),
            reader.body() == body,
            body == old(reader).body(),
            chans@.len() == old(chans)@.len(),
            total == segment_in(
                old(reader).body(),
                mode,
                Coder { st: *old(state), chans: views(old(chans)@), p: old(reader).at() },
                start as int,
                end as int,
            ),
            total == seg_in(
                body,
                mode,
                Coder { st: *state, chans: views(chans@), p: reader.at() },
                j as int,
                stop as int,
                run_at as int,
                end as int,
            ),
            ready(chans@, fam.bpc, width@, j as int),
            0 < j <= end <= width@ <= 16384,
            j <= stop <= j + 63,
            steady(*state),
            state.wmidx == old(state).wmidx,
            state.wmileft == old(state).wmileft,
        decreases
                end - j,
                if run_at == j {
                    0int
                } else {
                    1int
                },
    {
        if run_starts(runs, &*chans, j, run_at, Ghost(fam.bpc), width) {
            state.waitcnt = stop - j;
            let n: u32 = decode_state_run(reader, state)?;
            let run_end: u64 = j as u64 + n as u64;
            if run_end > end as u64 {
                return Err(QuicError::Short { need: (run_end - end as u64) as usize, have: 0 });
            }
            repeat_channels(chans, n, Ghost(fam.bpc), width, Ghost(j as int));
            run_at = j as i64;
            j = j + n;
            if j == end {
                return Ok(());
            }
            stop = j + state.waitcnt;
        } else {
            decode_pixel(reader, fam, chans, width, Ghost(j as int))?;
            if j == stop {
                let trigger: u32 = state.wm_trigger;
                learn_channels(fam, trigger, chans, j as usize, width, Ghost(j + 1));
                let wait: u32 = draw(state);
                stop = j + 1 + wait;
            }
            j = j + 1;
        }
    }
    state.waitcnt = stop - end;
    Ok(())
}

/// Decode one row.
fn decompress_row(
    reader: &mut BitReader<'_>,
    fam: &Family,
    state: &mut CommonState,
    chans: &mut Vec<ChannelDecoder>,
    runs: bool,
    width: u32,
) -> (r: Result<()>)
    requires
        fam.wf(),
        ready(old(chans)@, fam.bpc, width as int, 0),
        0 < width <= 16384,
        steady(*old(state)),
    ensures
        final(reader).body() == old(reader).body(),
        final(chans)@.len() == old(chans)@.len(),
        match row_in(
            old(reader).body(),
            Mode { bpc: fam.bpc, runs },
            Coder { st: *old(state), chans: views(old(chans)@), p: old(reader).at() },
            0,
            width as int,
        ) {
            Ok(c) => {
                &&& r is Ok
                &&& c == (Coder {
                    st: *final(state),
                    chans: views(final(chans)@),
                    p: final(reader).at(),
                })
                &&& ready(final(chans)@, fam.bpc, width as int, width as int)
                &&& steady(*final(state))
            },
            Err(e) => r == Err::<(), QuicError>(e),
        },
{
    let ghost body = reader.body();
    let ghost mode = Mode { bpc: fam.bpc, runs };
    let ghost total = row_in(
        body,
        mode,
        Coder { st: *state, chans: views(chans@), p: reader.at() },
        0,
        width as int,
    );
    let mut pos: u32 = 0;
    while state.wmidx < DEFWMIMAX && state.wmileft <= width - pos
        invariant
            fam.wf(),
            mode == (Mode { bpc: fam.bpc, runs }),
            reader.body() == body,
            body == old(reader).body(),
            chans@.len() == old(chans)@.len(),
            total == row_in(
                old(reader).body(),
                mode,
                Coder { st: *old(state), chans: views(old(chans)@), p: old(reader).at() },
                0,
                width as int,
            ),
            total == row_in(
                body,
                mode,
                Coder { st: *state, chans: views(chans@), p: reader.at() },
                pos as int,
                width as int,
            ),
            ready(chans@, fam.bpc, width as int, pos as int),
            pos <= width <= 16384,
            steady(*state),
        decreases DEFWMIMAX - state.wmidx,
    {
        let end: u32 = pos + state.wmileft;
        decompress_seg(reader, fam, state, chans, runs, pos, end, Ghost(width as int))?;
        pos = end;
        state.wmidx = state.wmidx + 1;
        state.set_wm_trigger();
        state.wmileft = DEFWMINEXT;
    }
    if pos < width {
        decompress_seg(reader, fam, state, chans, runs, pos, width, Ghost(width as int))?;
        if state.wmidx < DEFWMIMAX {
            state.wmileft = state.wmileft - (width - pos);
        }
    }
    Ok(())
}

/// What a list of planes holds.
pub open spec fn plane_views(v: Seq<Vec<u8>>) -> Seq<Seq<u8>> {
    Seq::new(v.len(), |k: int| v[k]@)
}

/// Go on to the next row on all channels.
pub(crate) fn start_rows(chans: &mut Vec<ChannelDecoder>, bpc: Ghost<u32>, width: Ghost<int>)
    requires
        ready(old(chans)@, bpc@, width@, width@),
        0 < width@,
    ensures
        ready(final(chans)@, bpc@, width@, 0),
        views(final(chans)@) == next_rows(views(old(chans)@)),
        final(chans)@.len() == old(chans)@.len(),
{
    let ghost goal = next_rows(views(chans@));
    let count: usize = chans.len();
    let mut k: usize = 0;
    while k < count
        invariant
            1 <= bpc@ <= 8,
            0 < width@,
            k <= count == chans@.len() == old(chans)@.len(),
            goal == next_rows(views(old(chans)@)),
            forall|x: int| 0 <= x < count ==> (#[trigger] chans@[x]).wf(bpc@, width@),
            forall|x: int| 0 <= x < count ==> (#[trigger] old(chans)@[x])@.line.len() == width@,
            forall|x: int| 0 <= x < k ==> (#[trigger] chans@[x])@ == goal[x],
            forall|x: int| k <= x < count ==> #[trigger] chans@[x] == old(chans)@[x],
        decreases count - k,
    {
        assert(chans@[k as int] == old(chans)@[k as int]);
        assert(old(chans)@[k as int]@.line.len() == width@);
        chans[k].next_row(bpc, width);
        k = k + 1;
    }
    assert(views(chans@) =~= goal);
    assert forall|x: int| 0 <= x < count implies (#[trigger] chans@[x])@.line.len() == 0 by {
        assert(chans@[x]@ == goal[x]);
    }
}

/// Add the samples of a finished row to the planes.
fn collect_row(chans: &Vec<ChannelDecoder>, planes: &mut Vec<Vec<u8>>)
    requires
        old(planes)@.len() == chans@.len(),
    ensures
        plane_views(final(planes)@) == with_row(plane_views(old(planes)@), views(chans@)),
        final(planes)@.len() == old(planes)@.len(),
{
    let ghost image = with_row(plane_views(planes@), views(chans@));
    let count: usize = chans.len();
    let mut k: usize = 0;
    while k < count
        invariant
            k <= count == chans@.len() == planes@.len(),
            planes@.len() == old(planes)@.len(),
            image == with_row(plane_views(old(planes)@), views(chans@)),
            forall|x: int| 0 <= x < k ==> (#[trigger] planes@[x])@ == image[x],
            forall|x: int| k <= x < count ==> #[trigger] planes@[x] == old(planes)@[x],
        decreases count - k,
    {
        assert(planes@[k as int] == old(planes)@[k as int]);
        planes[k].extend_from_slice(chans[k].samples().as_slice());
        assert(planes@[k as int]@ =~= image[k as int]);
        k = k + 1;
    }
    assert(plane_views(planes@) =~= image);
}

/// Decode the planes of an image.
pub(crate) fn decompress_planes(
    reader: &mut BitReader<'_>,
    fam: &Family,
    channels: usize,
    runs: bool,
    width: u32,
    height: u32,
) -> (r: Result<Vec<Vec<u8>>>)
    requires
        fam.wf(),
        1 <= fam.bpc,
        0 < width <= 16384,
        0 < height <= 16384,
    ensures
        final(reader).body() == old(reader).body(),
        match planes_in(
            old(reader).body(),
            Mode { bpc: fam.bpc, runs },
            channels as nat,
            width as int,
            height as int,
            old(reader).at(),
        ) {
            Ok((image, q)) => {
                &&& r matches Ok(v)
                &&& v@.len() == channels
                &&& plane_views(v@) == image
                &&& forall|k: int| 0 <= k < channels ==> (#[trigger] image[k]).len() == width * height
                &&& final(reader).at() == q
            },
            Err(e) => r == Err::<Vec<Vec<u8>>, QuicError>(e),
        },
{
    let ghost body = reader.body();
    let ghost mode = Mode { bpc: fam.bpc, runs };
    let mut chans: Vec<ChannelDecoder> = Vec::new();
    let mut planes: Vec<Vec<u8>> = Vec::new();
    let mut k: usize = 0;
    while k < channels
        invariant
            1 <= fam.bpc <= 8,
            k <= channels,
            chans@.len() == k,
            planes@.len() == k,
            forall|x: int|
                0 <= x < k ==> (#[trigger] chans@[x]).wf(fam.bpc, width as int) && chans@[x]@
                    == Chan::fresh(fam.bpc, width as int),
            forall|x: int| 0 <= x < k ==> (#[trigger] planes@[x])@ == Seq::<u8>::empty(),
        decreases channels - k,
    {
        chans.push(ChannelDecoder::new(fam.bpc, width as usize));
        planes.push(Vec::new());
        k = k + 1;
    }
    let mut state = CommonState::default();
    proof {
        let c = fresh(mode, channels as nat, width as int, reader.at());
        assert(views(chans@) =~= c.chans);
        assert(plane_views(planes@) =~= Seq::new(channels as nat, |i: int| Seq::<u8>::empty()));
        assert(0 * width == 0);
    }
    let ghost total = planes_in(
        body,
        mode,
        channels as nat,
        width as int,
        height as int,
        reader.at(),
    );
    let mut row: u32 = 0;
    while row < height
        invariant
            fam.wf(),
            mode == (Mode { bpc: fam.bpc, runs }),
            reader.body() == body,
            body == old(reader).body(),
            0 < width <= 16384,
            row <= height,
            chans@.len() == channels,
            planes@.len() == channels,
            total == planes_in(
                old(reader).body(),
                mode,
                channels as nat,
                width as int,
                height as int,
                old(reader).at(),
            ),
            total == rows_in(
                body,
                mode,
                Coder { st: state, chans: views(chans@), p: reader.at() },
                width as int,
                (height - row) as nat,
                plane_views(planes@),
            ),
            ready(chans@, fam.bpc, width as int, 0),
            steady(state),
            forall|x: int| 0 <= x < channels ==> (#[trigger] planes@[x])@.len() == row * width,
        decreases height - row,
    {
        decompress_row(reader, fam, &mut state, &mut chans, runs, width)?;
        let ghost done = planes@;
        let ghost before = views(chans@);
        collect_row(&chans, &mut planes);
        start_rows(&mut chans, Ghost(fam.bpc), Ghost(width as int));
        proof {
            assert((row + 1) * width == row * width + width) by (nonlinear_arith);
            assert forall|x: int| 0 <= x < channels implies (#[trigger] planes@[x])@.len() == (row
                + 1) * width by {
                assert(plane_views(planes@)[x] == with_row(plane_views(done), before)[x]);
                assert(done[x]@.len() == row * width);
            }
        }
        row = row + 1;
    }
    assert(height * width == width * height) by (nonlinear_arith);
    Ok(planes)
}

} // verus!
