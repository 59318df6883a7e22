//! Pixels out of a GLZ stream, and into one made of literals alone.

use vstd::prelude::*;

use crate::glz::error::{GlzError, Result};
use crate::glz::header::{GlzHeader, GLZ_HEADER_SIZE};
use crate::glz::window::{GlzWindow, Image};
use crate::lz::codec;
use crate::lz::codec::{copy_back, MAX_COPY};
use crate::lz::dims;
use crate::lz::{validate_dims, LzError, LzImageType, MAX_IMAGE_DIM};

verus! {

/// The length `acc` extended by the bytes from `ip` on, up to and with the
/// first that is not 255; and where that is.
pub open spec fn extended(body: Seq<u8>, ip: int, acc: int) -> Option<(int, int)>
    decreases body.len() - ip,
{
    if ip >= body.len() {
        None
    } else if body[ip] != 255 {
        Some((acc + body[ip], ip + 1))
    } else {
        extended(body, ip + 1, acc + 255)
    }
}

/// The `n` bytes at `at` as a number, least significant first.
pub open spec fn little(body: Seq<u8>, at: int, n: int) -> int
    decreases n,
{
    if n <= 0 {
        0
    } else {
        body[at] + 256 * little(body, at + 1, n - 1)
    }
}

/// A back-reference: how many pixels, from where, how many images back, and
/// where its code ends.
pub struct Reference {
    pub len: int,
    pub ofs: int,
    pub dist: int,
    pub next: int,
}

/// The back-reference whose control byte is before `ip`. `None` where the
/// body ends in it.
pub open spec fn reference(body: Seq<u8>, ctrl: int, ip: int) -> Option<Reference> {
    let length = if ctrl / 32 == 7 {
        extended(body, ip, 7)
    } else {
        Some((ctrl / 32, ip))
    };
    match length {
        None => None,
        Some((len, at)) => if at + 2 > body.len() {
            None
        } else {
            let near = ctrl % 16 + 16 * body[at];
            let code = body[at + 1] as int;
            let extra = code / 64;
            if ctrl / 16 % 2 == 0 {
                let next = at + 2 + extra;
                if next > body.len() {
                    None
                } else {
                    let dist = code % 64 + 64 * little(body, at + 2, extra);
                    Some(
                        Reference {
                            len,
                            ofs: near + if dist == 0 {
                                1int
                            } else {
                                0int
                            },
                            dist,
                            next,
                        },
                    )
                }
            } else {
                let far = code / 32 % 2;
                let next = at + 2 + extra + far;
                if next > body.len() {
                    None
                } else {
                    let dist = little(body, at + 2, extra);
                    let ofs = near + 4096 * (code % 32) + if far == 1 {
                        131072 * body[at + 2 + extra]
                    } else {
                        0
                    };
                    Some(
                        Reference {
                            len,
                            ofs: ofs + if dist == 0 {
                                1int
                            } else {
                                0int
                            },
                            dist,
                            next,
                        },
                    )
                }
            }
        },
    }
}

/// The body ends where a byte is wanted.
pub open spec fn ended() -> GlzError {
    GlzError::Short { need: 1, have: 0 }
}

/// The id that is `dist` before `id`.
pub open spec fn earlier(id: u64, dist: int) -> u64 {
    if id >= dist {
        (id - dist) as u64
    } else {
        (id - dist + 18446744073709551616) as u64
    }
}

/// `len` pixels of an image hold their three colour bytes each, from `ofs` on.
pub open spec fn reaches(image: Image, ofs: int, len: int) -> bool {
    &&& (ofs + len) * image.bpp <= image.pixels.len()
    &&& (ofs + len - 1) * image.bpp + 3 <= image.pixels.len()
}

/// The colour bytes of `len` pixels of an image, from `ofs` on.
pub open spec fn gathered(image: Image, ofs: int, len: int) -> Seq<u8> {
    Seq::new((3 * len) as nat, |i: int| image.pixels[(ofs + i / 3) * image.bpp + i % 3])
}

/// The dictionary that references go to, if there is one.
pub type Dictionary = Option<Map<u64, Image>>;

/// Reading pixels from `ip` on, until there are `n`: they follow the `op`
/// pixels whose colour bytes are in `out`.
pub open spec fn pass(
    body: Seq<u8>,
    n: int,
    dict: Dictionary,
    id: u64,
    ip: int,
    op: int,
    out: Seq<u8>,
) -> Result<Seq<u8>>
    decreases body.len() - ip,
{
    if op >= n {
        Ok(out)
    } else if ip >= body.len() {
        Err(ended())
    } else if body[ip] >= MAX_COPY {
        match reference(body, body[ip] as int, ip + 1) {
            None => Err(ended()),
            Some(r) => if op + r.len > n || r.next <= ip {
                Err(GlzError::BadReference)
            } else if r.dist == 0 {
                if r.ofs > op {
                    Err(GlzError::BadReference)
                } else {
                    pass(
                        body,
                        n,
                        dict,
                        id,
                        r.next,
                        op + r.len,
                        codec::copied(out, 3 * r.ofs, (3 * r.len) as nat),
                    )
                }
            } else {
                let target = earlier(id, r.dist);
                match dict {
                    None => Err(GlzError::CrossImage { dist: r.dist as u32 }),
                    Some(images) => if !images.dom().contains(target) {
                        Err(GlzError::CrossImage { dist: r.dist as u32 })
                    } else if !reaches(images[target], r.ofs, r.len) {
                        Err(GlzError::BadReference)
                    } else {
                        pass(
                            body,
                            n,
                            dict,
                            id,
                            r.next,
                            op + r.len,
                            out + gathered(images[target], r.ofs, r.len),
                        )
                    },
                }
            },
        }
    } else {
        let count = body[ip] + 1;
        let next = ip + 1 + 3 * count;
        if op + count > n {
            Err(GlzError::BadReference)
        } else if next > body.len() {
            Err(ended())
        } else {
            pass(body, n, dict, id, next, op + count, out + body.subrange(ip + 1, next))
        }
    }
}

/// An image of these dimensions may be decoded. One without pixels may too: it
/// takes no memory.
pub open spec fn size_ok(width: u32, height: u32) -> bool {
    if width == 0 || height == 0 {
        width <= MAX_IMAGE_DIM && height <= MAX_IMAGE_DIM
    } else {
        dims::dims_ok(width, height, 4)
    }
}

/// The number of pixels of an image that may be decoded.
fn pixel_count(width: u32, height: u32) -> (r: Result<usize>)
    ensures
        match r {
            Ok(n) => size_ok(width, height) && n == width * height && n <= 16777216,
            Err(e) => !size_ok(width, height) && e == GlzError::Lz(
                LzError::TooLarge { width, height },
            ),
        },
{
    if width == 0 || height == 0 {
        assert(width * height == 0) by (nonlinear_arith)
            requires
                width == 0 || height == 0,
        ;
        if width > MAX_IMAGE_DIM || height > MAX_IMAGE_DIM {
            return Err(GlzError::Lz(LzError::TooLarge { width, height }));
        }
        return Ok(0);
    }
    match validate_dims(width, height, 4) {
        Ok(bytes) => Ok(bytes / 4),
        Err(e) => Err(GlzError::Lz(e)),
    }
}

/// The image of a stream: the colours of its pixels, and no alpha.
pub open spec fn rgb32_image(stream: Seq<u8>, header: GlzHeader, dict: Dictionary) -> Result<
    Seq<u8>,
> {
    if header.image_type != LzImageType::Rgb32 {
        Err(GlzError::UnsupportedType(header.image_type))
    } else if !size_ok(header.width, header.height) {
        Err(GlzError::Lz(LzError::TooLarge { width: header.width, height: header.height }))
    } else {
        let n = header.width * header.height;
        match pass(
            stream.skip(GLZ_HEADER_SIZE as int),
            n,
            dict,
            header.id,
            0,
            0,
            Seq::empty(),
        ) {
            Err(e) => Err(e),
            Ok(bgr) => Ok(codec::with_alpha(bgr, codec::no_alpha(n))),
        }
    }
}

/// A result is the expected one.
pub open spec fn yields(r: Result<Vec<u8>>, expected: Result<Seq<u8>>) -> bool {
    match expected {
        Ok(s) => r matches Ok(v) && v@ == s,
        Err(e) => r == Err::<Vec<u8>, GlzError>(e),
    }
}

/// What a window offers to references.
pub open spec fn dictionary(window: Option<&GlzWindow>) -> Dictionary {
    match window {
        None => None,
        Some(w) => Some(w@.images),
    }
}

fn extend_length(body: &[u8], ip: usize) -> (r: Option<(u128, usize)>)
    requires
        ip <= body@.len(),
    ensures
        match extended(body@, ip as int, 7) {
            None => r is None,
            Some((len, next)) => {
                &&& r matches Some(x)
                &&& x.0 == len
                &&& x.1 == next
                &&& 7 <= len
                &&& ip < next <= body@.len()
            },
        },
{
    let mut at: usize = ip;
    let mut len: u128 = 7;
    while at < body.len()
        invariant
            ip <= at <= body@.len(),
            at <= usize::MAX,
            7 <= len <= 7 + 255 * at,
            extended(body@, at as int, len as int) == extended(body@, ip as int, 7),
        decreases body@.len() - at,
    {
        let code: u8 = body[at];
        at = at + 1;
        len = len + code as u128;
        if code != 255 {
            return Some((len, at));
        }
    }
    None
}

fn little_number(body: &[u8], at: usize, n: u32) -> (v: u32)
    requires
        n <= 3,
        at + n <= body@.len(),
    ensures
        v == little(body@, at as int, n as int),
        v < 16777216,
{
    proof {
        reveal_with_fuel(little, 4);
    }
    if n == 0 {
        0
    } else if n == 1 {
        body[at] as u32
    } else if n == 2 {
        body[at] as u32 + 256 * body[at + 1] as u32
    } else {
        body[at] as u32 + 256 * body[at + 1] as u32 + 65536 * body[at + 2] as u32
    }
}

/// Read a back-reference: length, offset, image distance, and where it ends.
fn read_reference(body: &[u8], ctrl: u32, ip: usize) -> (r: Option<(u128, u32, u32, usize)>)
    requires
        32 <= ctrl <= 255,
        ip <= body@.len(),
    ensures
        match reference(body@, ctrl as int, ip as int) {
            None => r is None,
            Some(x) => {
                &&& r matches Some(y)
                &&& y.0 == x.len
                &&& y.1 == x.ofs
                &&& y.2 == x.dist
                &&& y.3 == x.next
                &&& 1 <= x.len
                &&& 0 <= x.ofs < 67108864
                &&& x.dist == 0 ==> 1 <= x.ofs
                &&& 0 <= x.dist < 2147483648
                &&& ip < x.next <= body@.len()
            },
        },
{
    let (len, at): (u128, usize) = if ctrl / 32 == 7 {
        match extend_length(body, ip) {
            None => {
                return None;
            },
            Some(x) => x,
        }
    } else {
        ((ctrl / 32) as u128, ip)
    };
    let have: usize = body.len();
    if have - at < 2 {
        return None;
    }
    let near: u32 = ctrl % 16 + 16 * body[at] as u32;
    let code: u32 = body[at + 1] as u32;
    let extra: u32 = code / 64;
    if ctrl / 16 % 2 == 0 {
        if have - at - 2 < extra as usize {
            return None;
        }
        let dist: u32 = code % 64 + 64 * little_number(body, at + 2, extra);
        let ofs: u32 = if dist == 0 {
            near + 1
        } else {
            near
        };
        Some((len, ofs, dist, at + 2 + extra as usize))
    } else {
        let far: u32 = code / 32 % 2;
        if have - at - 2 < (extra + far) as usize {
            return None;
        }
        let dist: u32 = little_number(body, at + 2, extra);
        let mut ofs: u32 = near + 4096 * (code % 32);
        if far == 1 {
            ofs = ofs + 131072 * body[at + 2 + extra as usize] as u32;
        }
        if dist == 0 {
            ofs = ofs + 1;
        }
        Some((len, ofs, dist, at + 2 + (extra + far) as usize))
    }
}

/// Append the colours of `len` pixels of an earlier image; `false` where it
/// does not hold them.
fn gather(out: &mut Vec<u8>, pixels: &Vec<u8>, bpp: u32, ofs: u32, len: u32) -> (ok: bool)
    requires
        ofs < 67108864,
        1 <= len <= 16777216,
    ensures
        ok == reaches(Image { pixels: pixels@, bpp }, ofs as int, len as int),
        ok ==> final(out)@ == old(out)@ + gathered(
            Image { pixels: pixels@, bpp },
            ofs as int,
            len as int,
        ),
{
    let ghost image = Image { pixels: pixels@, bpp };
    let have: u64 = pixels.len() as u64;
    let end: u64 = ofs as u64 + len as u64;
    proof {
        assert(0 <= end * bpp <= 83886080 * 4294967295) by (nonlinear_arith)
            requires
                0 <= end <= 83886080,
                0 <= bpp <= 4294967295,
        ;
        assert(0 <= (end - 1) * bpp <= end * bpp) by (nonlinear_arith)
            requires
                1 <= end,
                0 <= bpp,
        ;
    }
    if end * bpp as u64 > have || (end - 1) * bpp as u64 + 3 > have {
        return false;
    }
    let mut k: u32 = 0;
    let ghost added = gathered(image, ofs as int, len as int);
    assert(out@ =~= old(out)@ + added.take(0));
    while k < len
        invariant
            k <= len <= 16777216,
            ofs < 67108864,
            end == ofs + len,
            have == pixels@.len() <= usize::MAX,
            image == (Image { pixels: pixels@, bpp }),
            (end - 1) * bpp + 3 <= have,
            added == gathered(image, ofs as int, len as int),
            out@ == old(out)@ + added.take(3 * k),
        decreases len - k,
    {
        proof {
            assert(0 <= (ofs + k) * bpp <= (end - 1) * bpp) by (nonlinear_arith)
                requires
                    0 <= ofs + k <= end - 1,
                    0 <= bpp,
            ;
        }
        let s: usize = ((ofs as u64 + k as u64) * bpp as u64) as usize;
        out.push(pixels[s]);
        out.push(pixels[s + 1]);
        out.push(pixels[s + 2]);
        proof {
            assert((3 * k) / 3 == k && (3 * k + 1) / 3 == k && (3 * k + 2) / 3 == k);
            assert(added[3 * k] == pixels@[s as int]);
            assert(added[3 * k + 1] == pixels@[s + 1]);
            assert(added[3 * k + 2] == pixels@[s + 2]);
        }
        k = k + 1;
        assert(out@ =~= old(out)@ + added.take(3 * k));
    }
    assert(added.take(3 * len) =~= added);
    true
}

/// Append no alpha to each pixel.
fn with_no_alpha(bgr: &Vec<u8>, n: usize) -> (out: Vec<u8>)
    requires
        bgr@.len() == 3 * n,
    ensures
        out@ == codec::with_alpha(bgr@, codec::no_alpha(n as int)),
{
    let _m: usize = bgr.len();
    let ghost goal = codec::with_alpha(bgr@, codec::no_alpha(n as int));
    let mut out: Vec<u8> = Vec::new();
    let mut i: usize = 0;
    while i < n
        invariant
            i <= n,
            bgr@.len() == 3 * n <= usize::MAX,
            goal == codec::with_alpha(bgr@, codec::no_alpha(n as int)),
            out@.len() == 4 * i,
            forall|k: int| 0 <= k < 4 * i ==> #[trigger] out@[k] == goal[k],
        decreases n - i,
    {
        out.push(bgr[3 * i]);
        out.push(bgr[3 * i + 1]);
        out.push(bgr[3 * i + 2]);
        out.push(0);
        i = i + 1;
    }
    assert(out@ =~= goal);
    out
}

fn decompress_rgb32_inner(stream: &[u8], header: &GlzHeader, window: Option<&GlzWindow>) -> (r:
    Result<Vec<u8>>)
    requires
        stream@.len() >= GLZ_HEADER_SIZE,
    ensures
        yields(r, rgb32_image(stream@, *header, dictionary(window))),
{
    if header.image_type != LzImageType::Rgb32 {
        return Err(GlzError::UnsupportedType(header.image_type));
    }
    let n_pixels: usize = pixel_count(header.width, header.height)?;
    let body = vstd::slice::slice_subrange(stream, GLZ_HEADER_SIZE, stream.len());
    assert(body@ =~= stream@.skip(GLZ_HEADER_SIZE as int));
    let have: usize = body.len();
    let ghost dict = dictionary(window);
    let id: u64 = header.id;
    let mut out: Vec<u8> = Vec::new();
    let mut ip: usize = 0;
    let mut op: usize = 0;
    assert(out@ =~= Seq::<u8>::empty());
    let ghost total = pass(body@, n_pixels as int, dict, id, 0, 0, Seq::empty());
    while op < n_pixels
        invariant
            have == body@.len(),
            n_pixels <= 16777216,
            n_pixels == header.width * header.height,
            header.image_type == LzImageType::Rgb32,
            size_ok(header.width, header.height),
            body@ == stream@.skip(GLZ_HEADER_SIZE as int),
            dict == dictionary(window),
            id == header.id,
            ip <= have,
            op <= n_pixels,
            out@.len() == 3 * op,
            total == pass(body@, n_pixels as int, dict, id, 0, 0, Seq::empty()),
            total == pass(body@, n_pixels as int, dict, id, ip as int, op as int, out@),
        decreases have - ip,
    {
        if ip >= have {
            return Err(GlzError::Short { need: 1, have: 0 });
        }
        let ctrl: u32 = body[ip] as u32;
        if ctrl >= MAX_COPY {
            let (len, ofs, dist, next): (u128, u32, u32, usize) = match read_reference(
                body,
                ctrl,
                ip + 1,
            ) {
                None => {
                    return Err(GlzError::Short { need: 1, have: 0 });
                },
                Some(x) => x,
            };
            if len > (n_pixels - op) as u128 {
                return Err(GlzError::BadReference);
            }
            let len: usize = len as usize;
            if dist == 0 {
                // Inside this image.
                let back: usize = ofs as usize;
                if back > op {
                    return Err(GlzError::BadReference);
                }
                copy_back(&mut out, 3 * back, 3 * len);
            } else {
                // In the image `dist` ids back.
                let dictionary = match window {
                    None => {
                        return Err(GlzError::CrossImage { dist });
                    },
                    Some(w) => w,
                };
                let target: u64 = id.wrapping_sub(dist as u64);
                let entry = match dictionary.get(target) {
                    None => {
                        return Err(GlzError::CrossImage { dist });
                    },
                    Some(e) => e,
                };
                if !gather(&mut out, &entry.pixels, entry.bpp, ofs, len as u32) {
                    return Err(GlzError::BadReference);
                }
            }
            op = op + len;
            ip = next;
        } else {
            let count: usize = ctrl as usize + 1;
            if op + count > n_pixels {
                return Err(GlzError::BadReference);
            }
            if have - ip - 1 < 3 * count {
                return Err(GlzError::Short { need: 1, have: 0 });
            }
            let run = vstd::slice::slice_subrange(body, ip + 1, ip + 1 + 3 * count);
            let ghost before = out@;
            out.extend_from_slice(run);
            assert(out@ =~= before + body@.subrange(ip + 1, ip + 1 + 3 * count));
            ip = ip + 1 + 3 * count;
            op = op + count;
        }
    }
    Ok(with_no_alpha(&out, n_pixels))
}

/// Decode an RGB32 GLZ stream that contains no cross-image references. Output
/// is `width * height * 4` bytes of BGRA (alpha 0). The first reference into
/// the dictionary is an error; use [`decompress_rgb32`] with a populated
/// [`GlzWindow`] to handle those.
pub fn decompress_rgb32_intra(stream: &[u8], header: &GlzHeader) -> (r: Result<Vec<u8>>)
    requires
        stream@.len() >= GLZ_HEADER_SIZE,
    ensures
        yields(r, rgb32_image(stream@, *header, None)),
        r matches Ok(v) ==> size_ok(header.width, header.height) && v@.len() == 4 * (header.width
            * header.height),
{
    decompress_rgb32_inner(stream, header, None)
}

/// Decode an RGB32 GLZ stream, resolving cross-image back-references through
/// `window`. The caller is responsible for inserting the returned image into
/// `window` if subsequent images may reference it.
pub fn decompress_rgb32(stream: &[u8], header: &GlzHeader, window: &GlzWindow) -> (r: Result<
    Vec<u8>,
>)
    requires
        stream@.len() >= GLZ_HEADER_SIZE,
    ensures
        yields(r, rgb32_image(stream@, *header, Some(window@.images))),
        r matches Ok(v) ==> size_ok(header.width, header.height) && v@.len() == 4 * (header.width
            * header.height),
{
    decompress_rgb32_inner(stream, header, Some(window))
}

/// Encode a sequence of BGRA pixels as a literal-only GLZ_RGB32 body.
pub fn compress_rgb32_literal(pixels: &[u8]) -> (out: Vec<u8>)
    requires
        pixels@.len() % 4 == 0,
    ensures
        out@ == codec::literals(codec::bgr_of(pixels@), 3, pixels@.len() as int / 4, 0),
{
    crate::lz::compress_rgb32_literal(pixels)
}

proof fn lemma_literals(
    body: Seq<u8>,
    bytes: Seq<u8>,
    dict: Dictionary,
    id: u64,
    n: int,
    i: int,
    ip: int,
)
    requires
        bytes.len() == 3 * n,
        0 <= i <= n,
        0 <= ip,
        ip + codec::literals(bytes, 3, n, i).len() <= body.len(),
        body.subrange(ip, ip + codec::literals(bytes, 3, n, i).len()) == codec::literals(
            bytes,
            3,
            n,
            i,
        ),
    ensures
        pass(body, n, dict, id, ip, i, bytes.take(3 * i)) == Ok::<Seq<u8>, GlzError>(bytes),
    decreases n - i,
{
    let all = codec::literals(bytes, 3, n, i);
    if i < n {
        let run = if n - i < 32 {
            n - i
        } else {
            32
        };
        let part = bytes.subrange(3 * i, 3 * (i + run));
        let rest = codec::literals(bytes, 3, n, i + run);
        let here = body.subrange(ip, ip + all.len());
        assert(all.len() == 1 + 3 * run + rest.len());
        assert(here[0] == body[ip]);
        assert(all[0] == (run - 1) as u8);
        let next = ip + 1 + 3 * run;
        assert(body.subrange(ip + 1, next) =~= part) by {
            assert forall|k: int| 0 <= k < 3 * run implies body.subrange(ip + 1, next)[k]
                == part[k] by {
                assert(here[1 + k] == all[1 + k]);
            }
        }
        assert(body.subrange(next, next + rest.len()) =~= rest) by {
            assert forall|k: int| 0 <= k < rest.len() implies body.subrange(
                next,
                next + rest.len(),
            )[k] == rest[k] by {
                assert(here[1 + 3 * run + k] == all[1 + 3 * run + k]);
            }
        }
        assert(bytes.take(3 * i) + part =~= bytes.take(3 * (i + run)));
        lemma_literals(body, bytes, dict, id, n, i + run, next);
    } else {
        assert(bytes.take(3 * i) =~= bytes);
    }
}

/// Decoding a header and the literal-only body of an image gives its colours
/// back, with no alpha, whatever the dictionary holds and whatever follows.
pub proof fn rgb32_literal_round_trip(
    header: GlzHeader,
    pixels: Seq<u8>,
    tail: Seq<u8>,
    dict: Dictionary,
)
    requires
        header.image_type == LzImageType::Rgb32,
        size_ok(header.width, header.height),
        pixels.len() == 4 * (header.width * header.height),
    ensures
        ({
            let n = header.width * header.height;
            let body = codec::literals(codec::bgr_of(pixels), 3, n, 0);
            rgb32_image(header.wire() + body + tail, header, dict) == Ok::<Seq<u8>, GlzError>(
                codec::with_alpha(codec::bgr_of(pixels), codec::no_alpha(n)),
            )
        }),
{
    let n = header.width * header.height;
    let code = codec::literals(codec::bgr_of(pixels), 3, n, 0);
    let stream = header.wire() + code + tail;
    let body = stream.skip(GLZ_HEADER_SIZE as int);
    assert(body =~= code + tail);
    assert(body.subrange(0, code.len() as int) =~= code);
    assert(codec::bgr_of(pixels).take(0) =~= Seq::<u8>::empty());
    lemma_literals(body, codec::bgr_of(pixels), dict, header.id, n, 0, 0);
}

} // verus!
