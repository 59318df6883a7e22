//! Pixels out of an LZ stream, and into one made of literals alone.

use vstd::prelude::*;

use crate::lz::dims::MAX_IMAGE_BYTES;
use crate::lz::error::{LzError, Result};

verus! {

/// Control bytes below this announce literals.
pub const MAX_COPY: u32 = 32;

/// The distance from which the far form counts.
pub const MAX_DISTANCE: u32 = 8191;

/// The bytes `out` and `n` more, each the one that stands `dist` before it.
pub open spec fn copied(out: Seq<u8>, dist: int, n: nat) -> Seq<u8>
    decreases n,
{
    if n == 0 {
        out
    } else {
        copied(out.push(out[out.len() - dist]), dist, (n - 1) as nat)
    }
}

/// The length `acc` grown by the bytes from `ip` on, up to and with the first
/// that is not 255; and where that is. Lengths wrap at 32 bits.
pub open spec fn grown(input: Seq<u8>, ip: int, acc: int) -> Option<(int, int)>
    decreases input.len() - ip,
{
    if ip >= input.len() {
        None
    } else if input[ip] != 255 {
        Some(((acc + input[ip]) % 4294967296, ip + 1))
    } else {
        grown(input, ip + 1, (acc + 255) % 4294967296)
    }
}

/// A back-reference: how many pixels, how far back, and where its code ends.
pub struct Reference {
    pub len: int,
    pub dist: int,
    pub next: int,
}

/// The back-reference whose control byte is before `ip`; `bias` is added to
/// its length. `None` where the input ends in it.
pub open spec fn reference(input: Seq<u8>, ctrl: int, ip: int, bias: int) -> Option<Reference> {
    let short = ctrl / 32 - 1;
    let length = if short == 6 {
        grown(input, ip, 6)
    } else {
        Some((short, ip))
    };
    match length {
        None => None,
        Some((len, at)) => if at >= input.len() {
            None
        } else if input[at] == 255 && ctrl % 32 == 31 {
            if at + 3 > input.len() {
                None
            } else {
                Some(
                    Reference {
                        len: (len + bias) % 4294967296,
                        dist: input[at + 1] * 256 + input[at + 2] + MAX_DISTANCE + 1,
                        next: at + 3,
                    },
                )
            }
        } else {
            Some(
                Reference {
                    len: (len + bias) % 4294967296,
                    dist: ctrl % 32 * 256 + input[at] + 1,
                    next: at + 1,
                },
            )
        },
    }
}

/// The input ends where a byte is wanted.
pub open spec fn ended() -> LzError {
    LzError::Short { need: 1, have: 0 }
}

/// Reading pixels of `unit` bytes from `ip` on, until there are `n`: they
/// follow the `op` pixels in `out`. Gives the bytes of all pixels, and where
/// the input is not read any further.
pub open spec fn pass(
    input: Seq<u8>,
    n: int,
    unit: int,
    bias: int,
    ip: int,
    op: int,
    out: Seq<u8>,
) -> Result<(Seq<u8>, int)>
    decreases input.len() - ip,
{
    if op >= n {
        Ok((out, ip))
    } else if ip >= input.len() {
        Err(ended())
    } else if input[ip] >= MAX_COPY {
        match reference(input, input[ip] as int, ip + 1, bias) {
            None => Err(ended()),
            Some(r) => if r.dist > op || op + r.len > n || r.next <= ip {
                Err(LzError::Short { need: r.len as usize, have: 0 })
            } else {
                pass(
                    input,
                    n,
                    unit,
                    bias,
                    r.next,
                    op + r.len,
                    copied(out, unit * r.dist, (unit * r.len) as nat),
                )
            },
        }
    } else {
        let count = input[ip] + 1;
        let next = ip + 1 + unit * count;
        if op + count > n {
            Err(LzError::Short { need: count as usize, have: 0 })
        } else if next > input.len() || next <= ip {
            Err(ended())
        } else {
            pass(
                input,
                n,
                unit,
                bias,
                next,
                op + count,
                out + input.subrange(ip + 1, next),
            )
        }
    }
}

/// The blue, green and red bytes of `n` pixels.
pub open spec fn bgr_pass(stream: Seq<u8>, n: int) -> Result<(Seq<u8>, int)> {
    pass(stream, n, 3, 1, 0, 0, Seq::empty())
}

/// The alpha bytes of `n` pixels.
pub open spec fn alpha_pass(stream: Seq<u8>, n: int) -> Result<(Seq<u8>, int)> {
    pass(stream, n, 1, 3, 0, 0, Seq::empty())
}

/// Three bytes of colour and one of alpha for each pixel.
pub open spec fn with_alpha(bgr: Seq<u8>, alpha: Seq<u8>) -> Seq<u8> {
    Seq::new(
        4 * alpha.len(),
        |i: int|
            if i % 4 == 3 {
                alpha[i / 4]
            } else {
                bgr[3 * (i / 4) + i % 4]
            },
    )
}

/// No alpha for `n` pixels.
pub open spec fn no_alpha(n: int) -> Seq<u8> {
    Seq::new(n as nat, |i: int| 0u8)
}

/// Why an image of this many pixels is not decoded.
pub open spec fn pixels_refused(n: usize) -> Option<LzError> {
    if n == 0 || 4 * n > usize::MAX {
        Some(LzError::TooLarge { width: 0, height: 0 })
    } else if 4 * n > MAX_IMAGE_BYTES {
        Some(
            LzError::TooLarge {
                width: if n > u32::MAX {
                    u32::MAX
                } else {
                    n as u32
                },
                height: 0,
            },
        )
    } else {
        None
    }
}

/// The image of an RGB32 stream.
pub open spec fn rgb32_image(stream: Seq<u8>, n: usize) -> Result<Seq<u8>> {
    match pixels_refused(n) {
        Some(e) => Err(e),
        None => match bgr_pass(stream, n as int) {
            Err(e) => Err(e),
            Ok((bgr, _)) => Ok(with_alpha(bgr, no_alpha(n as int))),
        },
    }
}

/// The image of an RGBA stream: the colours, and the alpha bytes after them.
pub open spec fn rgba_image(stream: Seq<u8>, n: usize) -> Result<Seq<u8>> {
    match pixels_refused(n) {
        Some(e) => Err(e),
        None => match bgr_pass(stream, n as int) {
            Err(e) => Err(e),
            Ok((bgr, consumed)) => match alpha_pass(stream.skip(consumed), n as int) {
                Err(e) => Err(e),
                Ok((alpha, _)) => Ok(with_alpha(bgr, alpha)),
            },
        },
    }
}

/// A result is the expected one.
pub open spec fn yields(r: Result<Vec<u8>>, expected: Result<Seq<u8>>) -> bool {
    match expected {
        Ok(s) => r matches Ok(v) && v@ == s,
        Err(e) => r == Err::<Vec<u8>, LzError>(e),
    }
}

/// Append `n` bytes, each the one that stands `dist` before it.
pub(crate) fn copy_back(out: &mut Vec<u8>, dist: usize, n: usize)
    requires
        0 < dist <= old(out)@.len(),
    ensures
        final(out)@ == copied(old(out)@, dist as int, n as nat),
        final(out)@.len() == old(out)@.len() + n,
{
    let mut k: usize = 0;
    while k < n
        invariant
            k <= n,
            0 < dist <= out@.len(),
            out@.len() == old(out)@.len() + k,
            copied(out@, dist as int, (n - k) as nat) == copied(old(out)@, dist as int, n as nat),
        decreases n - k,
    {
        let b: u8 = out[out.len() - dist];
        out.push(b);
        k = k + 1;
    }
}

/// Read the extension bytes of a length.
fn grow_length(input: &[u8], ip: usize, acc: u32) -> (r: Option<(u32, usize)>)
    requires
        ip <= input@.len(),
    ensures
        match grown(input@, ip as int, acc as int) {
            None => r is None,
            Some((len, next)) => {
                &&& r == Some((len as u32, next as usize))
                &&& 0 <= len < 4294967296
                &&& ip < next <= input@.len()
            },
        },
{
    let mut at: usize = ip;
    let mut len: u32 = acc;
    while at < input.len()
        invariant
            ip <= at <= input@.len(),
            grown(input@, at as int, len as int) == grown(input@, ip as int, acc as int),
        decreases input@.len() - at,
    {
        let code: u8 = input[at];
        at = at + 1;
        len = len.wrapping_add(code as u32);
        if code != 255 {
            return Some((len, at));
        }
    }
    None
}

/// Read a back-reference: its length, its distance, and where it ends.
fn read_reference(input: &[u8], ctrl: u32, ip: usize, bias: u32) -> (r: Option<(u32, u32, usize)>)
    requires
        32 <= ctrl <= 255,
        ip <= input@.len(),
        bias <= 3,
    ensures
        match reference(input@, ctrl as int, ip as int, bias as int) {
            None => r is None,
            Some(x) => {
                &&& r == Some((x.len as u32, x.dist as u32, x.next as usize))
                &&& 0 <= x.len < 4294967296
                &&& 1 <= x.dist <= 73727
                &&& ip < x.next <= input@.len()
            },
        },
{
    let short: u32 = ctrl / 32 - 1;
    let (len, at): (u32, usize) = if short == 6 {
        match grow_length(input, ip, 6) {
            None => {
                return None;
            },
            Some(x) => x,
        }
    } else {
        (short, ip)
    };
    let have: usize = input.len();
    if at >= have {
        return None;
    }
    let code: u32 = input[at] as u32;
    let full: u32 = len.wrapping_add(bias);
    if code == 255 && ctrl % 32 == 31 {
        if have - at < 3 {
            return None;
        }
        let hi: u32 = input[at + 1] as u32;
        let lo: u32 = input[at + 2] as u32;
        Some((full, hi * 256 + lo + MAX_DISTANCE + 1, at + 3))
    } else {
        Some((full, ctrl % 32 * 256 + code + 1, at + 1))
    }
}

/// Run a decompression pass over `input`, for `num_pixels` pixels of `unit`
/// bytes. Returns their bytes, and the number of input bytes consumed.
fn decompress_pass(input: &[u8], num_pixels: usize, unit: usize, bias: u32) -> (r: Result<
    (Vec<u8>, usize),
>)
    requires
        num_pixels <= 16777216,
        unit == 1 || unit == 3,
        bias <= 3,
    ensures
        match pass(input@, num_pixels as int, unit as int, bias as int, 0, 0, Seq::empty()) {
            Err(e) => r == Err::<(Vec<u8>, usize), LzError>(e),
            Ok((bytes, consumed)) => {
                &&& r matches Ok(x)
                &&& x.0@ == bytes
                &&& x.1 == consumed
                &&& consumed <= input@.len()
                &&& bytes.len() == unit * num_pixels
            },
        },
{
    let have: usize = input.len();
    let mut out: Vec<u8> = Vec::new();
    let mut ip: usize = 0;
    let mut op: usize = 0;
    assert(out@ =~= Seq::<u8>::empty());
    while op < num_pixels
        invariant
            have == input@.len(),
            num_pixels <= 16777216,
            unit == 1 || unit == 3,
            bias <= 3,
            ip <= have,
            op <= num_pixels,
            out@.len() == unit * op,
            pass(input@, num_pixels as int, unit as int, bias as int, 0, 0, Seq::empty()) == pass(
                input@,
                num_pixels as int,
                unit as int,
                bias as int,
                ip as int,
                op as int,
                out@,
            ),
        decreases have - ip,
    {
        if ip >= have {
            return Err(LzError::Short { need: 1, have: 0 });
        }
        let ctrl: u32 = input[ip] as u32;
        if ctrl >= MAX_COPY {
            let (len, dist, next): (u32, u32, usize) = match read_reference(
                input,
                ctrl,
                ip + 1,
                bias,
            ) {
                None => {
                    return Err(LzError::Short { need: 1, have: 0 });
                },
                Some(x) => x,
            };
            if dist as usize > op || op as u64 + len as u64 > num_pixels as u64 {
                return Err(LzError::Short { need: len as usize, have: 0 });
            }
            proof {
                lemma_unit(unit as int, dist as int, len as int, op as int);
            }
            copy_back(&mut out, unit * dist as usize, unit * len as usize);
            op = op + len as usize;
            ip = next;
        } else {
            let count: usize = ctrl as usize + 1;
            if op + count > num_pixels {
                return Err(LzError::Short { need: count, have: 0 });
            }
            let bytes: usize = unit * count;
            if have - ip - 1 < bytes {
                return Err(LzError::Short { need: 1, have: 0 });
            }
            let run = vstd::slice::slice_subrange(input, ip + 1, ip + 1 + bytes);
            let ghost before = out@;
            out.extend_from_slice(run);
            assert(out@ =~= before + input@.subrange(ip + 1, ip + 1 + bytes));
            assert(unit * (op + count) == unit * op + unit * count) by (nonlinear_arith);
            ip = ip + 1 + bytes;
            op = op + count;
        }
    }
    Ok((out, ip))
}

proof fn lemma_unit(unit: int, dist: int, len: int, op: int)
    requires
        unit == 1 || unit == 3,
        1 <= dist <= op,
        0 <= len,
    ensures
        0 < unit * dist <= unit * op,
        unit * (op + len) == unit * op + unit * len,
        0 <= unit * len <= 3 * len,
{
    if unit == 1 {
    } else {
    }
}

/// Put colours and alpha together.
fn join(bgr: &Vec<u8>, alpha: &Vec<u8>) -> (out: Vec<u8>)
    requires
        bgr@.len() == 3 * alpha@.len(),
    ensures
        out@ == with_alpha(bgr@, alpha@),
{
    let n: usize = alpha.len();
    let _m: usize = bgr.len();
    let mut out: Vec<u8> = Vec::new();
    let mut i: usize = 0;
    while i < n
        invariant
            i <= n == alpha@.len(),
            bgr@.len() == 3 * n <= usize::MAX,
            out@.len() == 4 * i,
            forall|k: int| 0 <= k < 4 * i ==> #[trigger] out@[k] == with_alpha(bgr@, alpha@)[k],
        decreases n - i,
    {
        out.push(bgr[3 * i]);
        out.push(bgr[3 * i + 1]);
        out.push(bgr[3 * i + 2]);
        out.push(alpha[i]);
        i = i + 1;
    }
    assert(out@ =~= with_alpha(bgr@, alpha@));
    out
}

/// Validate that `num_pixels * 4` is within `MAX_IMAGE_BYTES` and does not
/// overflow `usize` on the way there.
fn bounded_pixels(num_pixels: usize) -> (r: Result<()>)
    ensures
        match pixels_refused(num_pixels) {
            Some(e) => r == Err::<(), LzError>(e),
            None => r is Ok && num_pixels <= 16777216,
        },
{
    if num_pixels == 0 || num_pixels > usize::MAX / 4 {
        return Err(LzError::TooLarge { width: 0, height: 0 });
    }
    if num_pixels * 4 > MAX_IMAGE_BYTES {
        let width: u32 = if num_pixels as u64 > u32::MAX as u64 {
            u32::MAX
        } else {
            num_pixels as u32
        };
        return Err(LzError::TooLarge { width, height: 0 });
    }
    Ok(())
}

/// Decompress an LZ_RGB32 stream into a new BGRA buffer (alpha 0).
pub fn decompress_rgb32(stream: &[u8], num_pixels: usize) -> (r: Result<Vec<u8>>)
    ensures
        yields(r, rgb32_image(stream@, num_pixels)),
        r matches Ok(v) ==> v@.len() == 4 * num_pixels && v@.len() <= MAX_IMAGE_BYTES,
{
    bounded_pixels(num_pixels)?;
    let (bgr, _consumed): (Vec<u8>, usize) = decompress_pass(stream, num_pixels, 3, 1)?;
    let alpha: Vec<u8> = vec![0u8; num_pixels];
    assert(alpha@ =~= no_alpha(num_pixels as int));
    Ok(join(&bgr, &alpha))
}

/// Decompress an LZ_RGBA stream: the colour pass first, then the alpha pass.
pub fn decompress_rgba(stream: &[u8], num_pixels: usize) -> (r: Result<Vec<u8>>)
    ensures
        yields(r, rgba_image(stream@, num_pixels)),
        r matches Ok(v) ==> v@.len() == 4 * num_pixels && v@.len() <= MAX_IMAGE_BYTES,
{
    bounded_pixels(num_pixels)?;
    let (bgr, consumed): (Vec<u8>, usize) = decompress_pass(stream, num_pixels, 3, 1)?;
    let rest = vstd::slice::slice_subrange(stream, consumed, stream.len());
    let (alpha, _consumed): (Vec<u8>, usize) = decompress_pass(rest, num_pixels, 1, 3)?;
    Ok(join(&bgr, &alpha))
}

/// Runs of up to 32 literal pixels, from the `i`-th of `n` on.
pub open spec fn literals(bytes: Seq<u8>, unit: int, n: int, i: int) -> Seq<u8>
    decreases n - i,
{
    if i >= n {
        Seq::empty()
    } else {
        let run = if n - i < 32 {
            n - i
        } else {
            32
        };
        seq![(run - 1) as u8] + bytes.subrange(unit * i, unit * (i + run)) + literals(
            bytes,
            unit,
            n,
            i + run,
        )
    }
}

/// The colour bytes of a BGRA image.
pub open spec fn bgr_of(pixels: Seq<u8>) -> Seq<u8> {
    Seq::new(3 * (pixels.len() / 4), |i: int| pixels[4 * (i / 3) + i % 3])
}

/// The alpha bytes of a BGRA image.
pub open spec fn alpha_of(pixels: Seq<u8>) -> Seq<u8> {
    Seq::new(pixels.len() / 4, |i: int| pixels[4 * i + 3])
}

/// Encode pixels of `unit` bytes as literal runs.
pub(crate) fn literal_runs(bytes: &Vec<u8>, unit: usize, n: usize) -> (out: Vec<u8>)
    requires
        unit == 1 || unit == 3,
        bytes@.len() == unit * n,
    ensures
        out@ == literals(bytes@, unit as int, n as int, 0),
{
    let _len: usize = bytes.len();
    let mut out: Vec<u8> = Vec::new();
    let mut i: usize = 0;
    assert(out@ + literals(bytes@, unit as int, n as int, 0) =~= literals(
        bytes@,
        unit as int,
        n as int,
        0,
    ));
    while i < n
        invariant
            unit == 1 || unit == 3,
            bytes@.len() == unit * n <= usize::MAX,
            i <= n,
            out@ + literals(bytes@, unit as int, n as int, i as int) == literals(
                bytes@,
                unit as int,
                n as int,
                0,
            ),
        decreases n - i,
    {
        let run: usize = if n - i < 32 {
            n - i
        } else {
            32
        };
        let ghost before = out@;
        out.push((run - 1) as u8);
        proof {
            lemma_span(unit as int, i as int, run as int, n as int);
        }
        let part = vstd::slice::slice_subrange(bytes.as_slice(), unit * i, unit * (i + run));
        out.extend_from_slice(part);
        proof {
            let head = seq![(run - 1) as u8] + bytes@.subrange(unit * i, unit * (i + run));
            let rest = literals(bytes@, unit as int, n as int, i + run);
            assert(out@ =~= before + head);
            assert(before + (head + rest) =~= out@ + rest);
        }
        i = i + run;
    }
    assert(out@ + Seq::<u8>::empty() =~= out@);
    out
}

proof fn lemma_span(unit: int, i: int, run: int, n: int)
    requires
        unit == 1 || unit == 3,
        0 <= i,
        0 <= run,
        i + run <= n,
    ensures
        0 <= unit * i <= unit * (i + run) <= unit * n,
        unit * (i + run) == unit * i + unit * run,
        n <= unit * n,
{
    if unit == 1 {
    } else {
    }
}

fn colours(pixels: &[u8]) -> (out: Vec<u8>)
    requires
        pixels@.len() % 4 == 0,
    ensures
        out@ == bgr_of(pixels@),
{
    let n: usize = pixels.len() / 4;
    let mut out: Vec<u8> = Vec::new();
    let mut i: usize = 0;
    while i < n
        invariant
            i <= n,
            n == pixels@.len() / 4,
            4 * n <= usize::MAX,
            out@.len() == 3 * i,
            forall|k: int| 0 <= k < 3 * i ==> #[trigger] out@[k] == bgr_of(pixels@)[k],
        decreases n - i,
    {
        out.push(pixels[4 * i]);
        out.push(pixels[4 * i + 1]);
        out.push(pixels[4 * i + 2]);
        i = i + 1;
    }
    assert(out@ =~= bgr_of(pixels@));
    out
}

fn alphas(pixels: &[u8]) -> (out: Vec<u8>)
    requires
        pixels@.len() % 4 == 0,
    ensures
        out@ == alpha_of(pixels@),
{
    let n: usize = pixels.len() / 4;
    let mut out: Vec<u8> = Vec::new();
    let mut i: usize = 0;
    while i < n
        invariant
            i <= n,
            n == pixels@.len() / 4,
            4 * n <= usize::MAX,
            out@.len() == i,
            forall|k: int| 0 <= k < i ==> #[trigger] out@[k] == alpha_of(pixels@)[k],
        decreases n - i,
    {
        out.push(pixels[4 * i + 3]);
        i = i + 1;
    }
    assert(out@ =~= alpha_of(pixels@));
    out
}

/// Encode a sequence of BGRA pixels as LZ_RGB32 using literal runs only.
pub fn compress_rgb32_literal(pixels: &[u8]) -> (out: Vec<u8>)
    requires
        pixels@.len() % 4 == 0,
    ensures
        out@ == literals(bgr_of(pixels@), 3, pixels@.len() as int / 4, 0),
{
    let bytes = colours(pixels);
    literal_runs(&bytes, 3, pixels.len() / 4)
}

/// Encode the alpha channel of a BGRA pixel buffer as a literal-run LZ alpha
/// stream.
pub fn compress_alpha_literal(pixels: &[u8]) -> (out: Vec<u8>)
    requires
        pixels@.len() % 4 == 0,
    ensures
        out@ == literals(alpha_of(pixels@), 1, pixels@.len() as int / 4, 0),
{
    let bytes = alphas(pixels);
    literal_runs(&bytes, 1, pixels.len() / 4)
}

/// Reading literal runs gives their bytes back, wherever they stand.
proof fn lemma_literals(
    input: Seq<u8>,
    bytes: Seq<u8>,
    unit: int,
    bias: int,
    n: int,
    i: int,
    ip: int,
)
    requires
        unit == 1 || unit == 3,
        bytes.len() == unit * n,
        0 <= i <= n,
        0 <= ip,
        ip + literals(bytes, unit, n, i).len() <= input.len(),
        input.subrange(ip, ip + literals(bytes, unit, n, i).len()) == literals(bytes, unit, n, i),
    ensures
        pass(input, n, unit, bias, ip, i, bytes.take(unit * i)) == Ok::<(Seq<u8>, int), LzError>(
            (bytes, ip + literals(bytes, unit, n, i).len()),
        ),
    decreases n - i,
{
    let all = literals(bytes, unit, n, i);
    if i < n {
        let run = if n - i < 32 {
            n - i
        } else {
            32
        };
        lemma_span(unit, i, run, n);
        let part = bytes.subrange(unit * i, unit * (i + run));
        let rest = literals(bytes, unit, n, i + run);
        let here = input.subrange(ip, ip + all.len());
        assert(all.len() == 1 + unit * run + rest.len());
        assert(here[0] == input[ip]);
        assert(all[0] == (run - 1) as u8);
        let next = ip + 1 + unit * run;
        assert(input.subrange(ip + 1, next) =~= part) by {
            assert forall|k: int| 0 <= k < unit * run implies input.subrange(ip + 1, next)[k]
                == part[k] by {
                assert(here[1 + k] == all[1 + k]);
            }
        }
        assert(input.subrange(next, next + rest.len()) =~= rest) by {
            assert forall|k: int| 0 <= k < rest.len() implies input.subrange(
                next,
                next + rest.len(),
            )[k] == rest[k] by {
                assert(here[1 + unit * run + k] == all[1 + unit * run + k]);
            }
        }
        assert(bytes.take(unit * i) + part =~= bytes.take(unit * (i + run)));
        lemma_literals(input, bytes, unit, bias, n, i + run, next);
    } else {
        assert(bytes.take(unit * i) =~= bytes);
    }
}

/// Decoding the literal-only code of an image gives its colours back, with no
/// alpha, whatever follows the code.
pub proof fn rgb32_literal_round_trip(pixels: Seq<u8>, n: usize, tail: Seq<u8>)
    requires
        pixels.len() == 4 * n,
        pixels_refused(n) is None,
    ensures
        rgb32_image(literals(bgr_of(pixels), 3, n as int, 0) + tail, n) == Ok::<Seq<u8>, LzError>(
            with_alpha(bgr_of(pixels), no_alpha(n as int)),
        ),
{
    let code = literals(bgr_of(pixels), 3, n as int, 0);
    let s = code + tail;
    assert(s.subrange(0, code.len() as int) =~= code);
    assert(bgr_of(pixels).take(0) =~= Seq::<u8>::empty());
    lemma_literals(s, bgr_of(pixels), 3, 1, n as int, 0, 0);
}

/// Decoding the literal-only colour and alpha codes of an image gives the
/// image back.
pub proof fn rgba_literal_round_trip(pixels: Seq<u8>, n: usize, tail: Seq<u8>)
    requires
        pixels.len() == 4 * n,
        pixels_refused(n) is None,
    ensures
        rgba_image(
            literals(bgr_of(pixels), 3, n as int, 0) + literals(alpha_of(pixels), 1, n as int, 0)
                + tail,
            n,
        ) == Ok::<Seq<u8>, LzError>(pixels),
{
    let code = literals(bgr_of(pixels), 3, n as int, 0);
    let alpha = literals(alpha_of(pixels), 1, n as int, 0);
    let s = code + alpha + tail;
    assert(s.subrange(0, code.len() as int) =~= code);
    assert(bgr_of(pixels).take(0) =~= Seq::<u8>::empty());
    lemma_literals(s, bgr_of(pixels), 3, 1, n as int, 0, 0);
    let rest = s.skip(code.len() as int);
    assert(rest.subrange(0, alpha.len() as int) =~= alpha);
    assert(alpha_of(pixels).take(0) =~= Seq::<u8>::empty());
    lemma_literals(rest, alpha_of(pixels), 1, 3, n as int, 0, 0);
    assert(with_alpha(bgr_of(pixels), alpha_of(pixels)) =~= pixels);
}

} // verus!
