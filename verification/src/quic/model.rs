//! One channel of an image as it is coded: its prediction, its adaptive
//! choice of code, and its samples in and out of the bit stream.

use vstd::arithmetic::power2::*;
use vstd::bits::*;
use vstd::prelude::*;

use crate::quic::bits;
use crate::quic::bits::{bppmask, BitReader, BitWriter};
use crate::quic::error::{QuicError, Result};
use crate::quic::family;
use crate::quic::family::{Family, MAXNUMCODES};

verus! {

/// What an adaptive coding bucket has learnt: the accumulated code length of
/// each candidate code, and the code in use.
pub struct BucketModel {
    pub counters: Seq<u32>,
    pub best: int,
}

/// A channel as it is coded, up to some position of some row.
pub struct Chan {
    pub buckets: Seq<BucketModel>,
    /// The residuals of this row so far; further on, those of earlier rows.
    pub res: Seq<u8>,
    /// The first residual of the row above.
    pub left: u8,
    /// The samples of the row above.
    pub above: Option<Seq<u8>>,
    /// The samples of this row so far.
    pub line: Seq<u8>,
}

/// The exponent of the largest power of two that is at most `n`.
pub open spec fn log2_floor(n: nat) -> nat
    decreases n,
{
    if n <= 1 {
        0
    } else {
        1 + log2_floor(n / 2)
    }
}

/// The bucket of a residual: the buckets hold 1, 2, 4, ... residuals, and the
/// last one all the rest.
pub open spec fn bucket_of(bpc: u32, v: int) -> int {
    if v + 1 >= pow2((bpc - 1) as nat) {
        bpc - 1
    } else {
        log2_floor((v + 1) as nat) as int
    }
}

/// The code with the smallest counter among those from `l` on; of equal ones
/// the last.
pub open spec fn best_code(bpc: u32, counters: Seq<u32>, l: int) -> int
    decreases bpc - l,
{
    if l >= bpc - 1 {
        bpc - 1
    } else {
        let b = best_code(bpc, counters, l + 1);
        if counters[l] < counters[b] {
            l
        } else {
            b
        }
    }
}

/// The counters after the symbol `v`.
pub open spec fn counted(bpc: u32, counters: Seq<u32>, v: u8) -> Seq<u32> {
    Seq::new(
        counters.len(),
        |l: int|
            if l < bpc {
                ((counters[l] + family::code_len(bpc, l, v as int)) % 4294967296) as u32
            } else {
                counters[l]
            },
    )
}

/// The counters halved.
pub open spec fn halved(bpc: u32, counters: Seq<u32>) -> Seq<u32> {
    Seq::new(
        counters.len(),
        |l: int|
            if l < bpc {
                counters[l] / 2
            } else {
                counters[l]
            },
    )
}

impl BucketModel {
    pub open spec fn ok(self, bpc: u32) -> bool {
        &&& self.counters.len() == MAXNUMCODES
        &&& 0 <= self.best < bpc
    }

    /// The bucket after the symbol `v`.
    pub open spec fn learn(self, bpc: u32, trigger: u32, v: u8) -> BucketModel {
        let c = counted(bpc, self.counters, v);
        let best = best_code(bpc, c, 0);
        BucketModel {
            counters: if c[best] > trigger {
                halved(bpc, c)
            } else {
                c
            },
            best,
        }
    }
}

impl Chan {
    /// The sizes of a channel of `bpc` bits and `width` samples per row.
    pub open spec fn ok(self, bpc: u32, width: int) -> bool {
        &&& self.buckets.len() == bpc
        &&& forall|k: int| 0 <= k < bpc ==> (#[trigger] self.buckets[k]).ok(bpc)
        &&& self.res.len() == width
        &&& self.line.len() <= width
        &&& self.above matches Some(a) ==> a.len() == width
    }

    /// The residual before position `i`.
    pub open spec fn context(self, i: int) -> u8 {
        if i == 0 {
            self.left
        } else {
            self.res[i - 1]
        }
    }

    /// What the next sample is predicted to be.
    pub open spec fn predicted(self) -> int {
        let i = self.line.len() as int;
        match self.above {
            None => if i == 0 {
                0
            } else {
                self.line[i - 1] as int
            },
            Some(a) => if i == 0 {
                a[0] as int
            } else {
                (self.line[i - 1] + a[i]) / 2
            },
        }
    }

    /// The code in use for the next sample.
    pub open spec fn code(self, bpc: u32) -> int {
        self.buckets[bucket_of(bpc, self.context(self.line.len() as int) as int)].best
    }

    /// The channel with one more sample, of residual `r`.
    pub open spec fn with_sample(self, r: u8, sample: u8) -> Chan {
        Chan {
            res: self.res.update(self.line.len() as int, r),
            line: self.line.push(sample),
            ..self
        }
    }

    /// Reading the next sample at position `p`.
    pub open spec fn sample_in(self, body: Seq<u8>, bpc: u32, p: int) -> Result<(Chan, int)> {
        let context = self.context(self.line.len() as int);
        let (r, n) = family::golomb_symbol(bpc, self.code(bpc), bits::window(body, p));
        if context >= family::levels(bpc) {
            Err(QuicError::BadResidual(context as u32))
        } else if r >= 256 {
            Err(QuicError::BadResidual(r as u32))
        } else {
            match bits::eaten(body, p + n) {
                Err(e) => Err(e),
                Ok(_) => Ok(
                    (
                        self.with_sample(
                            r as u8,
                            ((family::l2u(bpc, r) + self.predicted()) % family::levels(bpc)) as u8,
                        ),
                        p + n,
                    ),
                ),
            }
        }
    }

    /// The residual of the next sample if it is `v`.
    pub open spec fn residual(self, bpc: u32, v: u8) -> int {
        family::u2l(bpc, (v - self.predicted()) % family::levels(bpc))
    }

    /// The code of the next sample if it is `v`.
    pub open spec fn sample_code(self, bpc: u32, v: u8) -> Seq<bool> {
        let (cw, len) = family::golomb_code(bpc, self.code(bpc), self.residual(bpc, v));
        bits::spell(cw as nat, len as nat)
    }

    /// The channel after the next sample was `v`.
    pub open spec fn sample_out(self, bpc: u32, v: u8) -> Chan {
        self.with_sample(self.residual(bpc, v) as u8, v)
    }

    /// The channel after it has learnt from the residual at `i`.
    pub open spec fn learn(self, bpc: u32, trigger: u32, i: int) -> Chan {
        let b = bucket_of(bpc, self.context(i) as int);
        Chan {
            buckets: self.buckets.update(b, self.buckets[b].learn(bpc, trigger, self.res[i])),
            ..self
        }
    }

    /// The channel with its last sample repeated `n` times.
    pub open spec fn repeat(self, n: int) -> Chan {
        Chan { line: self.line + Seq::new(n as nat, |k: int| self.line.last()), ..self }
    }

    /// The channel at the start of the next row.
    pub open spec fn next_row(self) -> Chan {
        Chan { left: self.res[0], above: Some(self.line), line: Seq::empty(), ..self }
    }

    /// A channel before its first row.
    pub open spec fn fresh(bpc: u32, width: int) -> Chan {
        Chan {
            buckets: Seq::new(
                bpc as nat,
                |k: int|
                    BucketModel {
                        counters: Seq::new(MAXNUMCODES as nat, |l: int| 0u32),
                        best: bpc - 1,
                    },
            ),
            res: Seq::new(width as nat, |k: int| 0u8),
            left: 0,
            above: None,
            line: Seq::empty(),
        }
    }
}

pub proof fn lemma_log2_floor(n: nat, k: nat)
    requires
        pow2(k) <= n < pow2(k + 1),
    ensures
        log2_floor(n) == k,
    decreases k,
{
    lemma2_to64();
    lemma_pow2_unfold(k + 1);
    if k == 0 {
        assert(n == 1);
    } else {
        lemma_pow2_unfold(k);
        lemma_pow2_pos((k - 1) as nat);
        lemma_log2_floor(n / 2, (k - 1) as nat);
    }
}

/// A bucket is one of the `bpc` that there are.
pub proof fn lemma_bucket(bpc: u32, v: int)
    requires
        1 <= bpc <= 8,
        0 <= v,
    ensures
        0 <= bucket_of(bpc, v) < bpc,
{
    if v + 1 < pow2((bpc - 1) as nat) {
        lemma_log2_floor_below((v + 1) as nat, (bpc - 1) as nat);
    }
}

proof fn lemma_log2_floor_below(n: nat, k: nat)
    requires
        1 <= n < pow2(k),
    ensures
        log2_floor(n) < k,
    decreases k,
{
    lemma2_to64();
    if k == 0 {
    } else if n > 1 {
        lemma_pow2_unfold(k);
        lemma_log2_floor_below(n / 2, (k - 1) as nat);
    }
}

pub proof fn lemma_best_code(bpc: u32, c: Seq<u32>, l: int)
    requires
        1 <= bpc,
        0 <= l,
    ensures
        0 <= best_code(bpc, c, l) < bpc,
    decreases bpc - l,
{
    if l < bpc - 1 {
        lemma_best_code(bpc, c, l + 1);
    }
}

/// Learning keeps the sizes.
pub proof fn lemma_learn_ok(c: Chan, bpc: u32, width: int, trigger: u32, i: int)
    requires
        c.ok(bpc, width),
        1 <= bpc <= 8,
    ensures
        c.learn(bpc, trigger, i).ok(bpc, width),
{
    let b = bucket_of(bpc, c.context(i) as int);
    lemma_bucket(bpc, c.context(i) as int);
    lemma_best_code(bpc, counted(bpc, c.buckets[b].counters, c.res[i]), 0);
}

/// One adaptive coding bucket: counters for each candidate code plus the
/// current best selection.
#[derive(Debug)]
struct Bucket {
    counters: [u32; MAXNUMCODES],
    bestcode: u8,
}

impl View for Bucket {
    type V = BucketModel;

    closed spec fn view(&self) -> BucketModel {
        BucketModel { counters: self.counters@, best: self.bestcode as int }
    }
}

/// Adaptive update of `bucket.bestcode` after observing residual `curval`.
fn update_model(fam: &Family, wm_trigger: u32, bucket: &mut Bucket, curval: u8)
    requires
        fam.wf(),
        1 <= fam.bpc,
    ensures
        final(bucket)@ == old(bucket)@.learn(fam.bpc, wm_trigger, curval),
{
    let ghost bpc = fam.bpc;
    let ghost before = bucket.counters@;
    let ghost c = counted(bpc, before, curval);
    let mut i: u32 = 0;
    while i < fam.bpc
        invariant
            fam.wf(),
            bpc == fam.bpc,
            i <= bpc <= 8,
            before.len() == 8,
            c == counted(bpc, before, curval),
            forall|k: int| 0 <= k < i ==> bucket.counters@[k] == #[trigger] c[k],
            forall|k: int| i <= k < 8 ==> bucket.counters@[k] == #[trigger] before[k],
        decreases fam.bpc - i,
    {
        let len: u32 = fam.golomb_code_len(curval, i);
        let old_count: u32 = bucket.counters[i as usize];
        assert(old_count == before[i as int]);
        bucket.counters[i as usize] = old_count.wrapping_add(len);
        assert(bucket.counters@[i as int] == c[i as int]);
        i = i + 1;
    }
    assert(bucket.counters@ =~= c);
    let mut best: u32 = fam.bpc - 1;
    let mut l: u32 = fam.bpc - 1;
    while l > 0
        invariant
            bpc == fam.bpc,
            1 <= bpc <= 8,
            l <= bpc - 1,
            bucket.counters@ == c,
            best == best_code(bpc, c, l as int),
            best < bpc,
        decreases l,
    {
        l = l - 1;
        if bucket.counters[l as usize] < bucket.counters[best as usize] {
            best = l;
        }
    }
    bucket.bestcode = best as u8;
    if bucket.counters[best as usize] > wm_trigger {
        let mut h: u32 = 0;
        while h < fam.bpc
            invariant
                bpc == fam.bpc,
                h <= bpc <= 8,
                c.len() == 8,
                best < bpc,
                bucket.bestcode == best,
                forall|k: int| 0 <= k < h ==> bucket.counters@[k] == #[trigger] c[k] / 2,
                forall|k: int| h <= k < 8 ==> bucket.counters@[k] == #[trigger] c[k],
            decreases fam.bpc - h,
        {
            let count: u32 = bucket.counters[h as usize];
            bucket.counters[h as usize] = count / 2;
            assert(c[h as int] == count);
            h = h + 1;
        }
        assert(bucket.counters@ =~= halved(bpc, c));
    }
}

/// The bucket of each residual.
fn bucket_table(bpc: u32) -> (t: Vec<u8>)
    requires
        1 <= bpc <= 8,
    ensures
        t@.len() == family::levels(bpc),
        forall|v: int| 0 <= v < t@.len() ==> #[trigger] t@[v] == bucket_of(bpc, v),
{
    proof {
        family::lemma_levels(bpc);
        lemma2_to64();
    }
    let mut t: Vec<u8> = Vec::new();
    let levels: u32 = bppmask(bpc) + 1;
    let mut k: u32 = 0;
    // The first residual of the next bucket.
    let mut next: u32 = 1;
    let mut v: u32 = 0;
    while v < levels
        invariant
            1 <= bpc <= 8,
            levels == family::levels(bpc),
            1 <= levels <= 256,
            v <= levels,
            k < bpc,
            next == pow2((k + 1) as nat) - 1,
            next <= 255,
            pow2(k as nat) <= v + 1,
            k + 1 < bpc ==> v <= next,
            t@.len() == v,
            forall|u: int| 0 <= u < t@.len() ==> #[trigger] t@[u] == bucket_of(bpc, u),
        decreases levels - v,
    {
        if v == next && k + 1 < bpc {
            k = k + 1;
            proof {
                lemma_pow2_unfold((k + 1) as nat);
                bits::lemma_pow2_below((k + 1) as nat, 8);
                lemma2_to64();
            }
            next = 2 * next + 1;
        }
        proof {
            if k < bpc - 1 {
                bits::lemma_pow2_below((k + 1) as nat, (bpc - 1) as nat);
                lemma_log2_floor((v + 1) as nat, k as nat);
            } else {
                lemma_pow2_unfold(bpc as nat);
            }
        }
        t.push(k as u8);
        v = v + 1;
    }
    t
}

/// Per-channel coder state: the bucket model, the residuals and the samples.
#[derive(Debug)]
pub struct ChannelDecoder {
    buckets: Vec<Bucket>,
    /// The bucket of each residual.
    bucket_ptrs: Vec<u8>,
    /// Residual row buffer.
    correlate_row: Vec<u8>,
    /// The residual that stands before the first one of the row.
    prev_minus1: u8,
    first_row: bool,
    above: Vec<u8>,
    line: Vec<u8>,
}

impl View for ChannelDecoder {
    type V = Chan;

    closed spec fn view(&self) -> Chan {
        Chan {
            buckets: Seq::new(self.buckets@.len(), |k: int| self.buckets@[k]@),
            res: self.correlate_row@,
            left: self.prev_minus1,
            above: if self.first_row {
                None
            } else {
                Some(self.above@)
            },
            line: self.line@,
        }
    }
}

impl ChannelDecoder {
    /// A channel of `bpc` bits and `width` samples per row.
    pub closed spec fn wf(self, bpc: u32, width: int) -> bool {
        &&& 1 <= bpc <= 8
        &&& self@.ok(bpc, width)
        &&& self.bucket_ptrs@.len() == family::levels(bpc)
        &&& forall|v: int|
            0 <= v < self.bucket_ptrs@.len() ==> #[trigger] self.bucket_ptrs@[v] == bucket_of(
                bpc,
                v,
            )
    }

    pub proof fn lemma_wf(self, bpc: u32, width: int)
        requires
            self.wf(bpc, width),
        ensures
            1 <= bpc <= 8,
            self@.ok(bpc, width),
    {
    }

    pub(crate) fn new(bpc: u32, width: usize) -> (c: Self)
        requires
            1 <= bpc <= 8,
        ensures
            c.wf(bpc, width as int),
            c@ == Chan::fresh(bpc, width as int),
    {
        let mut buckets: Vec<Bucket> = Vec::new();
        let mut k: u32 = 0;
        while k < bpc
            invariant
                1 <= bpc <= 8,
                k <= bpc,
                buckets@.len() == k,
                forall|b: int|
                    0 <= b < k ==> (#[trigger] buckets@[b])@ == Chan::fresh(
                        bpc,
                        width as int,
                    ).buckets[b],
            decreases bpc - k,
        {
            let bucket = Bucket { counters: [0; MAXNUMCODES], bestcode: (bpc - 1) as u8 };
            assert(bucket.counters@ =~= Seq::new(MAXNUMCODES as nat, |l: int| 0u32));
            buckets.push(bucket);
            k = k + 1;
        }
        let c = Self {
            buckets,
            bucket_ptrs: bucket_table(bpc),
            correlate_row: vec![0u8; width],
            prev_minus1: 0,
            first_row: true,
            above: Vec::new(),
            line: Vec::new(),
        };
        assert(c@.buckets =~= Chan::fresh(bpc, width as int).buckets);
        assert(c@.res =~= Chan::fresh(bpc, width as int).res);
        assert(c@.line =~= Chan::fresh(bpc, width as int).line);
        c
    }

    /// The samples of this row so far.
    pub(crate) fn samples(&self) -> (s: &Vec<u8>)
        ensures
            s@ == self@.line,
    {
        &self.line
    }

    fn next_context(&self, width: Ghost<int>, bpc: Ghost<u32>) -> (v: u8)
        requires
            self.wf(bpc@, width@),
            self@.line.len() < width@,
        ensures
            v == self@.context(self@.line.len() as int),
    {
        let i: usize = self.line.len();
        if i == 0 {
            self.prev_minus1
        } else {
            self.correlate_row[i - 1]
        }
    }

    fn predict(&self, width: Ghost<int>, bpc: Ghost<u32>) -> (v: u32)
        requires
            self.wf(bpc@, width@),
            self@.line.len() < width@,
        ensures
            v == self@.predicted(),
            v <= 255,
    {
        let i: usize = self.line.len();
        if self.first_row {
            if i == 0 {
                0
            } else {
                self.line[i - 1] as u32
            }
        } else {
            if i == 0 {
                self.above[0] as u32
            } else {
                (self.line[i - 1] as u32 + self.above[i] as u32) / 2
            }
        }
    }

    fn add_sample(&mut self, r: u8, sample: u8, width: Ghost<int>, bpc: Ghost<u32>)
        requires
            old(self).wf(bpc@, width@),
            old(self)@.line.len() < width@,
        ensures
            final(self).wf(bpc@, width@),
            final(self)@ == old(self)@.with_sample(r, sample),
    {
        let i: usize = self.line.len();
        self.correlate_row.set(i, r);
        self.line.push(sample);
        assert(self@.buckets =~= old(self)@.buckets);
    }

    /// Read the next sample.
    pub(crate) fn decode_sample(
        &mut self,
        reader: &mut BitReader<'_>,
        fam: &Family,
        width: Ghost<int>,
    ) -> (r: Result<()>)
        requires
            fam.wf(),
            old(self).wf(fam.bpc, width@),
            old(self)@.line.len() < width@,
        ensures
            final(reader).body() == old(reader).body(),
            match old(self)@.sample_in(old(reader).body(), fam.bpc, old(reader).at()) {
                Ok((c, q)) => {
                    &&& r is Ok
                    &&& final(self).wf(fam.bpc, width@)
                    &&& final(self)@ == c
                    &&& final(reader).at() == q
                },
                Err(e) => r == Err::<(), QuicError>(e),
            },
    {
        let ghost bpc = fam.bpc;
        proof {
            family::lemma_levels(bpc);
        }
        let levels: u32 = bppmask(fam.bpc) + 1;
        let context: u8 = self.next_context(width, Ghost(bpc));
        if context as u32 >= levels {
            return Err(QuicError::BadResidual(context as u32));
        }
        proof {
            lemma_bucket(bpc, context as int);
            assert(self@.buckets[bucket_of(bpc, context as int)].ok(bpc));
        }
        let b: usize = self.bucket_ptrs[context as usize] as usize;
        let l: u32 = self.buckets[b].bestcode as u32;
        let (residual, cwlen): (u32, u32) = fam.golomb_decode(l, reader.peek32());
        if residual >= 256 {
            return Err(QuicError::BadResidual(residual));
        }
        let pred: u32 = self.predict(width, Ghost(bpc));
        let plain: u32 = fam.xlat_l2u[residual as usize];
        assert(plain == family::l2u(bpc, residual as int));
        let sample: u8 = ((plain + pred) % levels) as u8;
        reader.eat(cwlen)?;
        self.add_sample(residual as u8, sample, width, Ghost(bpc));
        Ok(())
    }

    /// Write the next sample.
    pub(crate) fn encode_sample(
        &mut self,
        writer: &mut BitWriter,
        fam: &Family,
        v: u8,
        width: Ghost<int>,
    )
        requires
            fam.wf(),
            fam.bpc == 8,
            old(self).wf(8, width@),
            old(self)@.line.len() < width@,
        ensures
            final(self).wf(8, width@),
            final(self)@ == old(self)@.sample_out(8, v),
            final(writer)@ == old(writer)@ + old(self)@.sample_code(8, v),
    {
        proof {
            lemma2_to64();
        }
        let context: u8 = self.next_context(width, Ghost(8u32));
        proof {
            lemma_bucket(8, context as int);
            assert(self@.buckets[bucket_of(8, context as int)].ok(8));
        }
        let b: usize = self.bucket_ptrs[context as usize] as usize;
        let l: u32 = self.buckets[b].bestcode as u32;
        let pred: u32 = self.predict(width, Ghost(8u32));
        let diff: u32 = (v as u32 + 256 - pred) % 256;
        assert(diff == (v - self@.predicted()) % 256);
        proof {
            family::xlat_inverse(8, diff as int);
        }
        let residual: u8 = fam.xlat_u2l[diff as usize];
        assert(residual == family::u2l(8, diff as int));
        let (codeword, len): (u32, u32) = fam.golomb_encode(residual, l);
        writer.write(codeword, len);
        self.add_sample(residual, v, width, Ghost(8u32));
    }

    /// Learn from the residual at position `i`.
    pub(crate) fn learn(&mut self, fam: &Family, wm_trigger: u32, i: usize, width: Ghost<int>)
        requires
            fam.wf(),
            old(self).wf(fam.bpc, width@),
            i < width@,
            old(self)@.context(i as int) < family::levels(fam.bpc),
        ensures
            final(self).wf(fam.bpc, width@),
            final(self)@ == old(self)@.learn(fam.bpc, wm_trigger, i as int),
    {
        let ghost bpc = fam.bpc;
        let context: u8 = if i == 0 {
            self.prev_minus1
        } else {
            self.correlate_row[i - 1]
        };
        let curval: u8 = self.correlate_row[i];
        proof {
            lemma_bucket(bpc, context as int);
            lemma_learn_ok(self@, bpc, width@, wm_trigger, i as int);
        }
        let b: usize = self.bucket_ptrs[context as usize] as usize;
        update_model(fam, wm_trigger, &mut self.buckets[b], curval);
        assert(self@.buckets =~= old(self)@.learn(bpc, wm_trigger, i as int).buckets);
    }

    /// Repeat the last sample `n` times.
    pub(crate) fn repeat(&mut self, n: u32, bpc: Ghost<u32>, width: Ghost<int>)
        requires
            old(self).wf(bpc@, width@),
            0 < old(self)@.line.len(),
            old(self)@.line.len() + n <= width@,
        ensures
            final(self).wf(bpc@, width@),
            final(self)@ == old(self)@.repeat(n as int),
    {
        let last: u8 = self.line[self.line.len() - 1];
        let mut k: u32 = 0;
        while k < n
            invariant
                k <= n,
                last == old(self)@.line.last(),
                self.line@ == old(self)@.line + Seq::new(k as nat, |i: int| last),
                self.buckets@ == old(self).buckets@,
                self.bucket_ptrs@ == old(self).bucket_ptrs@,
                self.correlate_row@ == old(self).correlate_row@,
                self.prev_minus1 == old(self).prev_minus1,
                self.first_row == old(self).first_row,
                self.above@ == old(self).above@,
            decreases n - k,
        {
            self.line.push(last);
            k = k + 1;
            assert(self.line@ =~= old(self)@.line + Seq::new(k as nat, |i: int| last));
        }
        assert(self@.line =~= old(self)@.repeat(n as int).line);
        assert(self@.buckets =~= old(self)@.buckets);
    }

    /// Go on to the next row.
    pub(crate) fn next_row(&mut self, bpc: Ghost<u32>, width: Ghost<int>)
        requires
            old(self).wf(bpc@, width@),
            0 < width@,
            old(self)@.line.len() == width@,
        ensures
            final(self).wf(bpc@, width@),
            final(self)@ == old(self)@.next_row(),
    {
        self.prev_minus1 = self.correlate_row[0];
        let mut line: Vec<u8> = Vec::new();
        std::mem::swap(&mut line, &mut self.line);
        self.above = line;
        self.first_row = false;
        assert(self@.buckets =~= old(self)@.buckets);
        assert(self@.line =~= Seq::empty());
    }

    /// Whether the row above repeats its sample at `j` and this row its last
    /// one.
    pub(crate) fn settled(&self, j: usize, bpc: Ghost<u32>, width: Ghost<int>) -> (b: bool)
        requires
            self.wf(bpc@, width@),
            2 < j < width@,
            j == self@.line.len(),
        ensures
            b == self@.settled(j as int),
    {
        !self.first_row && self.above[j - 1] == self.above[j] && self.line[j - 1] == self.line[j - 2]
    }
}

impl Chan {
    /// The row above repeats its sample at `j`, and this row its last one.
    pub open spec fn settled(self, j: int) -> bool {
        &&& self.above is Some
        &&& self.above->Some_0[j - 1] == self.above->Some_0[j]
        &&& self.line[j - 1] == self.line[j - 2]
    }
}

} // verus!
