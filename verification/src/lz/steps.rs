//! What an LZ stream says, apart from how it is read: a stream is a row of
//! steps, each of them some pixels given by their bytes or some pixels that
//! stood before.

use vstd::prelude::*;

use crate::lz::codec::{
    alpha_pass, bgr_pass, copied, grown, pass, reference, rgb32_image, rgba_image,
};
use crate::lz::dims::MAX_IMAGE_BYTES;
use crate::lz::error::{LzError, Result};

verus! {

/// A step of a stream.
pub enum Step {
    /// Pixels given by their bytes.
    Given(Seq<u8>),
    /// `len` pixels, each the one that stands `dist` pixels before it.
    Again { len: int, dist: int },
}

/// A length in bytes: as many 255 as go into it, and what is left.
pub open spec fn in_bytes(v: int) -> Seq<u8>
    decreases v,
{
    if v < 255 {
        seq![v as u8]
    } else {
        seq![255u8] + in_bytes(v - 255)
    }
}

impl Step {
    /// How many pixels of `unit` bytes it gives.
    pub open spec fn pixels(self, unit: int) -> int {
        match self {
            Step::Given(bytes) => bytes.len() as int / unit,
            Step::Again { len, .. } => len,
        }
    }

    /// It may stand where `op` pixels have been given. A literal run has up to
    /// 32 pixels; a reference goes back up to 73727 pixels, and not before the
    /// first.
    pub open spec fn fits(self, unit: int, bias: int, op: int) -> bool {
        match self {
            Step::Given(bytes) => {
                &&& 1 <= bytes.len() as int / unit <= 32
                &&& bytes.len() == unit * (bytes.len() as int / unit)
            },
            Step::Again { len, dist } => {
                &&& bias <= len < 4294967296
                &&& 1 <= dist <= 73727
                &&& dist <= op
            },
        }
    }

    /// Its bytes. A literal run is its length less one, and its pixels. A
    /// reference is a byte with the length, less `bias` and plus one, in its
    /// upper three bits; the rest of a length from six on; and the distance
    /// less one: up to 8190 in the lower five bits of the first byte and in
    /// the last byte, and from 8191 on after a mark of all ones, in two bytes.
    pub open spec fn coded(self, unit: int, bias: int) -> Seq<u8> {
        match self {
            Step::Given(bytes) => seq![(bytes.len() as int / unit - 1) as u8] + bytes,
            Step::Again { len, dist } => {
                let length = len - bias;
                let high = if length < 6 {
                    length + 1
                } else {
                    7
                };
                let rest = if length < 6 {
                    Seq::empty()
                } else {
                    in_bytes(length - 6)
                };
                let back = dist - 1;
                if back < 8191 {
                    seq![(32 * high + back / 256) as u8] + rest + seq![(back % 256) as u8]
                } else {
                    seq![(32 * high + 31) as u8] + rest + seq![
                        255u8,
                        ((back - 8191) / 256) as u8,
                        ((back - 8191) % 256) as u8,
                    ]
                }
            },
        }
    }

    /// What it says of the pixels that follow the first `op`, in the bytes of
    /// all pixels.
    pub open spec fn says(self, unit: int, op: int, all: Seq<u8>) -> bool {
        match self {
            Step::Given(bytes) => forall|j: int|
                0 <= j < bytes.len() ==> #[trigger] bytes[j] == all[unit * op + j],
            Step::Again { len, dist } => forall|j: int|
                unit * op <= j < unit * (op + len) ==> #[trigger] all[j] == all[j - unit * dist],
        }
    }
}

/// The bytes of a row of steps.
pub open spec fn stream_of(steps: Seq<Step>, unit: int, bias: int) -> Seq<u8>
    decreases steps.len(),
{
    if steps.len() == 0 {
        Seq::empty()
    } else {
        steps[0].coded(unit, bias) + stream_of(steps.skip(1), unit, bias)
    }
}

/// From `op` pixels on, the steps lead to `n` pixels, and what they say holds
/// of the bytes of all pixels.
pub open spec fn lead_to(
    steps: Seq<Step>,
    unit: int,
    bias: int,
    op: int,
    n: int,
    all: Seq<u8>,
) -> bool
    decreases steps.len(),
{
    if steps.len() == 0 {
        op == n && all.len() == unit * n
    } else {
        &&& steps[0].fits(unit, bias, op)
        &&& op + steps[0].pixels(unit) <= n
        &&& steps[0].says(unit, op, all)
        &&& lead_to(steps.skip(1), unit, bias, op + steps[0].pixels(unit), n, all)
    }
}

pub(crate) proof fn lemma_copied(all: Seq<u8>, m: int, d: int, k: nat)
    requires
        0 < d <= m,
        m + k <= all.len(),
        forall|j: int| m <= j < m + k ==> #[trigger] all[j] == all[j - d],
    ensures
        copied(all.take(m), d, k) == all.take(m + k),
    decreases k,
{
    if k > 0 {
        let out = all.take(m);
        assert(all[m] == all[m - d]);
        assert(out.push(out[out.len() - d]) =~= all.take(m + 1));
        lemma_copied(all, m + 1, d, (k - 1) as nat);
    }
}

proof fn lemma_in_bytes(input: Seq<u8>, ip: int, v: int, acc: int)
    requires
        0 <= ip,
        0 <= v,
        0 <= acc,
        acc + v < 4294967296,
        ip + in_bytes(v).len() <= input.len(),
        input.subrange(ip, ip + in_bytes(v).len()) == in_bytes(v),
    ensures
        grown(input, ip, acc) == Some((acc + v, (ip + in_bytes(v).len()) as int)),
    decreases v,
{
    let bytes = in_bytes(v);
    assert(input[ip] == bytes[0]);
    if v >= 255 {
        let less = in_bytes(v - 255);
        assert(bytes.len() == 1 + less.len());
        assert(input.subrange(ip + 1, ip + 1 + less.len()) =~= less) by {
            assert forall|k: int| 0 <= k < less.len() implies input.subrange(
                ip + 1,
                ip + 1 + less.len(),
            )[k] == less[k] by {
                assert(bytes[k + 1] == less[k]);
                assert(input.subrange(ip, ip + bytes.len())[k + 1] == bytes[k + 1]);
            }
        }
        lemma_in_bytes(input, ip + 1, v - 255, acc + 255);
    }
}

proof fn lemma_reference(input: Seq<u8>, ip: int, len: int, dist: int, unit: int, bias: int)
    requires
        0 <= bias <= 3,
        bias <= len < 4294967296,
        1 <= dist <= 73727,
        0 <= ip,
        ip + (Step::Again { len, dist }).coded(unit, bias).len() <= input.len(),
        input.subrange(ip, ip + (Step::Again { len, dist }).coded(unit, bias).len()) == (
        Step::Again { len, dist }).coded(unit, bias),
    ensures
        input[ip] >= 32,
        reference(input, input[ip] as int, ip + 1, bias) matches Some(r) && r.len == len && r.dist
            == dist && r.next == ip + (Step::Again { len, dist }).coded(unit, bias).len(),
{
    let code = (Step::Again { len, dist }).coded(unit, bias);
    let length = len - bias;
    let back = dist - 1;
    let rest = if length < 6 {
        Seq::empty()
    } else {
        in_bytes(length - 6)
    };
    let at = ip + 1 + rest.len();
    assert forall|k: int| 0 <= k < code.len() implies input[ip + k] == #[trigger] code[k] by {
        assert(input.subrange(ip, ip + code.len())[k] == code[k]);
    }
    assert(input[ip] == code[0]);
    if length >= 6 {
        assert(input.subrange(ip + 1, at) =~= rest) by {
            assert forall|k: int| 0 <= k < rest.len() implies input.subrange(ip + 1, at)[k]
                == rest[k] by {
                assert(code[k + 1] == rest[k]);
            }
        }
        lemma_in_bytes(input, ip + 1, length - 6, 6);
    }
    if back < 8191 {
        assert(code[1 + rest.len() as int] == (back % 256) as u8);
        assert(input[at] == code[1 + rest.len() as int]);
    } else {
        assert(code[1 + rest.len() as int] == 255);
        assert(input[at] == code[1 + rest.len() as int]);
        assert(input[at + 1] == code[2 + rest.len() as int]);
        assert(input[at + 2] == code[3 + rest.len() as int]);
    }
}

/// What is read from `ip` on, where `op` pixels have been given.
#[verifier::opaque]
spec fn from_here(
    input: Seq<u8>,
    n: int,
    unit: int,
    bias: int,
    ip: int,
    op: int,
    out: Seq<u8>,
) -> Result<(Seq<u8>, int)> {
    pass(input, n, unit, bias, ip, op, out)
}

proof fn lemma_step(
    input: Seq<u8>,
    step: Step,
    unit: int,
    bias: int,
    ip: int,
    op: int,
    n: int,
    all: Seq<u8>,
)
    requires
        1 <= unit <= 4,
        1 <= bias <= 3,
        0 <= op,
        0 <= ip,
        step.fits(unit, bias, op),
        step.says(unit, op, all),
        op + step.pixels(unit) <= n,
        unit * (op + step.pixels(unit)) <= all.len(),
        ip + step.coded(unit, bias).len() <= input.len(),
        input.subrange(ip, ip + step.coded(unit, bias).len()) == step.coded(unit, bias),
    ensures
        from_here(input, n, unit, bias, ip, op, all.take(unit * op)) == from_here(
            input,
            n,
            unit,
            bias,
            ip + step.coded(unit, bias).len(),
            op + step.pixels(unit),
            all.take(unit * (op + step.pixels(unit))),
        ),
{
    reveal(from_here);
    let more = op + step.pixels(unit);
    let code = step.coded(unit, bias);
    assert(unit * more == unit * op + unit * step.pixels(unit)) by (nonlinear_arith)
        requires
            more == op + step.pixels(unit),
    ;
    assert(0 <= unit * op) by (nonlinear_arith)
        requires
            0 <= op,
            1 <= unit,
    ;
    match step {
        Step::Given(bytes) => {
            assert(input.subrange(ip, ip + code.len())[0] == code[0]);
            assert(all.take(unit * op) + input.subrange(ip + 1, ip + code.len()) =~= all.take(
                unit * more,
            )) by {
                assert forall|q: int| unit * op <= q < unit * more implies #[trigger] all[q]
                    == input[ip + 1 + q - unit * op] by {
                    let j = q - unit * op;
                    assert(bytes[j] == all[unit * op + j]);
                    assert(code[1 + j] == bytes[j]);
                    assert(input.subrange(ip, ip + code.len())[1 + j] == code[1 + j]);
                }
            }
        },
        Step::Again { len, dist } => {
            lemma_reference(input, ip, len, dist, unit, bias);
            assert(0 < unit * dist <= unit * op) by (nonlinear_arith)
                requires
                    1 <= dist <= op,
                    1 <= unit,
            ;
            assert(0 <= unit * len) by (nonlinear_arith)
                requires
                    0 <= len,
                    1 <= unit,
            ;
            assert(unit * (op + len) == unit * op + unit * len) by (nonlinear_arith);
            lemma_copied(all, unit * op, unit * dist, (unit * len) as nat);
        },
    }
}

proof fn lemma_reach(
    head: Seq<u8>,
    steps: Seq<Step>,
    tail: Seq<u8>,
    unit: int,
    bias: int,
    op: int,
    m: int,
    n: int,
    all: Seq<u8>,
)
    requires
        1 <= unit <= 4,
        1 <= bias <= 3,
        0 <= op,
        m <= n,
        lead_to(steps, unit, bias, op, m, all),
    ensures
        op <= m,
        all.len() == unit * m,
        from_here(
            head + stream_of(steps, unit, bias) + tail,
            n,
            unit,
            bias,
            head.len() as int,
            op,
            all.take(unit * op),
        ) == from_here(
            head + stream_of(steps, unit, bias) + tail,
            n,
            unit,
            bias,
            (head + stream_of(steps, unit, bias)).len() as int,
            m,
            all,
        ),
    decreases steps.len(),
{
    let input = head + stream_of(steps, unit, bias) + tail;
    let ip = head.len() as int;
    if steps.len() == 0 {
        assert(all.take(unit * op) =~= all);
        assert(head + stream_of(steps, unit, bias) =~= head);
    } else {
        let step = steps[0];
        let more = op + step.pixels(unit);
        let code = step.coded(unit, bias);
        let rest = stream_of(steps.skip(1), unit, bias);
        lemma_reach(head + code, steps.skip(1), tail, unit, bias, more, m, n, all);
        assert(head + code + rest + tail =~= input);
        assert(head + code + rest =~= head + stream_of(steps, unit, bias));
        assert(input.subrange(ip, ip + code.len()) =~= code);
        assert(unit * more <= unit * m) by (nonlinear_arith)
            requires
                more <= m,
                1 <= unit,
        ;
        lemma_step(input, step, unit, bias, ip, op, n, all);
    }
}

proof fn lemma_pass(
    head: Seq<u8>,
    steps: Seq<Step>,
    tail: Seq<u8>,
    unit: int,
    bias: int,
    op: int,
    n: int,
    all: Seq<u8>,
)
    requires
        1 <= unit <= 4,
        1 <= bias <= 3,
        0 <= op,
        lead_to(steps, unit, bias, op, n, all),
    ensures
        op <= n,
        all.len() == unit * n,
        pass(
            head + stream_of(steps, unit, bias) + tail,
            n,
            unit,
            bias,
            head.len() as int,
            op,
            all.take(unit * op),
        ) == Ok::<_, LzError>((all, (head + stream_of(steps, unit, bias)).len() as int)),
{
    lemma_reach(head, steps, tail, unit, bias, op, n, n, all);
    reveal(from_here);
}

/// The stream of a row of steps gives the picture of which the steps speak:
/// runs stand as they were given, and each pixel of a reference is the one
/// that stands the reference's distance before it. Alpha is nought.
pub proof fn rgb32_steps_tell_the_pixels(
    steps: Seq<Step>,
    n: usize,
    bgr: Seq<u8>,
    tail: Seq<u8>,
)
    requires
        0 < 4 * n <= MAX_IMAGE_BYTES,
        4 * n <= usize::MAX,
        lead_to(steps, 3, 1, 0, n as int, bgr),
    ensures
        rgb32_image(stream_of(steps, 3, 1) + tail, n) matches Ok(image) && {
            &&& image.len() == 4 * n
            &&& forall|p: int, c: int|
                0 <= p < n && 0 <= c < 3 ==> #[trigger] image[4 * p + c] == bgr[3 * p + c]
            &&& forall|p: int| 0 <= p < n ==> #[trigger] image[4 * p + 3] == 0
        },
{
    lemma_pass(Seq::empty(), steps, tail, 3, 1, 0, n as int, bgr);
    let stream = stream_of(steps, 3, 1) + tail;
    assert(Seq::<u8>::empty() + stream_of(steps, 3, 1) + tail =~= stream);
    assert(bgr.take(3int * 0) =~= Seq::<u8>::empty());
    assert(bgr_pass(stream, n as int) is Ok);
}

/// With alpha, a second row of steps tells the alpha bytes, and its references
/// have at least three pixels.
pub proof fn rgba_steps_tell_the_pixels(
    steps: Seq<Step>,
    alphas: Seq<Step>,
    n: usize,
    bgr: Seq<u8>,
    alpha: Seq<u8>,
    tail: Seq<u8>,
)
    requires
        0 < 4 * n <= MAX_IMAGE_BYTES,
        4 * n <= usize::MAX,
        lead_to(steps, 3, 1, 0, n as int, bgr),
        lead_to(alphas, 1, 3, 0, n as int, alpha),
    ensures
        rgba_image(stream_of(steps, 3, 1) + stream_of(alphas, 1, 3) + tail, n) matches Ok(image)
            && {
            &&& image.len() == 4 * n
            &&& forall|p: int, c: int|
                0 <= p < n && 0 <= c < 3 ==> #[trigger] image[4 * p + c] == bgr[3 * p + c]
            &&& forall|p: int| 0 <= p < n ==> #[trigger] image[4 * p + 3] == alpha[p]
        },
{
    let colours = stream_of(steps, 3, 1);
    let second = stream_of(alphas, 1, 3) + tail;
    let stream = colours + stream_of(alphas, 1, 3) + tail;
    lemma_pass(Seq::empty(), steps, second, 3, 1, 0, n as int, bgr);
    assert(Seq::<u8>::empty() + colours + second =~= stream);
    assert(Seq::<u8>::empty() + colours =~= colours);
    assert(bgr.take(3int * 0) =~= Seq::<u8>::empty());
    assert(bgr_pass(stream, n as int) == Ok::<_, LzError>((bgr, colours.len() as int)));
    assert(stream.skip(colours.len() as int) =~= second);
    lemma_pass(Seq::empty(), alphas, tail, 1, 3, 0, n as int, alpha);
    assert(Seq::<u8>::empty() + stream_of(alphas, 1, 3) + tail =~= second);
    assert(alpha.take(1int * 0) =~= Seq::<u8>::empty());
    assert(alpha_pass(second, n as int) is Ok);
}

/// A stream that ends before the picture is full is refused.
pub proof fn short_streams_are_refused(steps: Seq<Step>, n: usize, m: int, bgr: Seq<u8>)
    requires
        0 < 4 * n <= MAX_IMAGE_BYTES,
        4 * n <= usize::MAX,
        m < n,
        lead_to(steps, 3, 1, 0, m, bgr),
    ensures
        rgb32_image(stream_of(steps, 3, 1), n) is Err,
{
    let stream = stream_of(steps, 3, 1);
    let none = Seq::<u8>::empty();
    lemma_reach(none, steps, none, 3, 1, 0, m, n as int, bgr);
    reveal(from_here);
    assert(none + stream + none =~= stream);
    assert(none + stream =~= stream);
    assert(bgr.take(3int * 0) =~= none);
}

/// A reference that goes back before the first pixel is refused, and so is one
/// that goes on after the last.
pub proof fn references_stay_in_the_picture(
    steps: Seq<Step>,
    n: usize,
    m: int,
    bgr: Seq<u8>,
    len: int,
    dist: int,
    tail: Seq<u8>,
)
    requires
        0 < 4 * n <= MAX_IMAGE_BYTES,
        4 * n <= usize::MAX,
        m < n,
        lead_to(steps, 3, 1, 0, m, bgr),
        1 <= len < 4294967296,
        1 <= dist <= 73727,
        dist > m || m + len > n,
    ensures
        rgb32_image(
            stream_of(steps, 3, 1) + (Step::Again { len, dist }).coded(3, 1) + tail,
            n,
        ) is Err,
{
    let none = Seq::<u8>::empty();
    let before = stream_of(steps, 3, 1);
    let code = (Step::Again { len, dist }).coded(3, 1);
    let stream = before + code + tail;
    lemma_reach(none, steps, code + tail, 3, 1, 0, m, n as int, bgr);
    reveal(from_here);
    assert(none + before + (code + tail) =~= stream);
    assert(none + before =~= before);
    assert(bgr.take(3int * 0) =~= none);
    let ip = before.len() as int;
    assert(stream.subrange(ip, ip + code.len()) =~= code);
    lemma_reference(stream, ip, len, dist, 3, 1);
}

} // verus!
