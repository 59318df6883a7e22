//! Whole images out of a QUIC stream.

use vstd::prelude::*;

use crate::lz::dims;
use crate::lz::validate_dims;
use crate::quic::bits::{BitReader, QUIC_HEADER_SIZE};
use crate::quic::decode;
use crate::quic::decode::{decompress_planes, Mode};
use crate::quic::error::{QuicError, Result};
use crate::quic::family::Family;

verus! {

/// Four planes pixel by pixel: blue, green, red, alpha.
pub open spec fn bgra(b: Seq<u8>, g: Seq<u8>, r: Seq<u8>, a: Seq<u8>) -> Seq<u8> {
    Seq::new(
        4 * b.len(),
        |i: int|
            if i % 4 == 0 {
                b[i / 4]
            } else if i % 4 == 1 {
                g[i / 4]
            } else if i % 4 == 2 {
                r[i / 4]
            } else {
                a[i / 4]
            },
    )
}

/// A plane that is the same all over.
pub open spec fn flat(n: nat, v: u8) -> Seq<u8> {
    Seq::new(n, |i: int| v)
}

/// A five-bit sample on the eight-bit scale.
pub open spec fn wide(v: u8) -> u8 {
    (8 * (v % 32) + v % 32 / 4) as u8
}

/// A plane of five-bit samples on the eight-bit scale.
pub open spec fn widen(s: Seq<u8>) -> Seq<u8> {
    Seq::new(s.len(), |i: int| wide(s[i]))
}

/// Why a stream is not decoded at all.
pub open spec fn refused(stream: Seq<u8>, width: u32, height: u32) -> Option<QuicError> {
    if stream.len() < QUIC_HEADER_SIZE {
        Some(QuicError::Short { need: QUIC_HEADER_SIZE, have: stream.len() as usize })
    } else if !dims::dims_ok(width, height, 4) {
        Some(QuicError::TooLarge { width, height })
    } else {
        None
    }
}

/// The planes of a stream, from its first body bit on.
pub open spec fn stream_planes(
    stream: Seq<u8>,
    mode: Mode,
    channels: nat,
    width: u32,
    height: u32,
) -> Result<(Seq<Seq<u8>>, int)> {
    match refused(stream, width, height) {
        Some(e) => Err(e),
        None => decode::planes_in(
            stream.skip(QUIC_HEADER_SIZE as int),
            mode,
            channels,
            width as int,
            height as int,
            0,
        ),
    }
}

/// The image of an RGB32 stream: red, green and blue planes, and no alpha.
pub open spec fn rgb32_image(stream: Seq<u8>, width: u32, height: u32) -> Result<Seq<u8>> {
    match stream_planes(stream, Mode { bpc: 8, runs: true }, 3, width, height) {
        Err(e) => Err(e),
        Ok((image, _)) => Ok(
            bgra(image[2], image[1], image[0], flat((width * height) as nat, 0)),
        ),
    }
}

/// The image of an RGBA stream: an RGB32 stream, and an alpha plane after it.
pub open spec fn rgba_image(stream: Seq<u8>, width: u32, height: u32) -> Result<Seq<u8>> {
    match stream_planes(stream, Mode { bpc: 8, runs: true }, 3, width, height) {
        Err(e) => Err(e),
        Ok((image, p)) => match decode::planes_in(
            stream.skip(QUIC_HEADER_SIZE as int),
            Mode { bpc: 8, runs: false },
            1,
            width as int,
            height as int,
            p,
        ) {
            Err(e) => Err(e),
            Ok((alpha, _)) => Ok(bgra(image[2], image[1], image[0], alpha[0])),
        },
    }
}

/// The image of a gray stream: one plane for all three colours, opaque.
pub open spec fn gray_image(stream: Seq<u8>, width: u32, height: u32) -> Result<Seq<u8>> {
    match stream_planes(stream, Mode { bpc: 8, runs: false }, 1, width, height) {
        Err(e) => Err(e),
        Ok((image, _)) => Ok(
            bgra(image[0], image[0], image[0], flat((width * height) as nat, 255)),
        ),
    }
}

/// The image of a 16-bit stream: five-bit planes widened to eight, opaque.
pub open spec fn rgb16_image(stream: Seq<u8>, width: u32, height: u32) -> Result<Seq<u8>> {
    match stream_planes(stream, Mode { bpc: 5, runs: false }, 3, width, height) {
        Err(e) => Err(e),
        Ok((image, _)) => Ok(
            bgra(
                widen(image[2]),
                widen(image[1]),
                widen(image[0]),
                flat((width * height) as nat, 255),
            ),
        ),
    }
}

/// A result is the expected one.
pub open spec fn yields(r: Result<Vec<u8>>, expected: Result<Seq<u8>>) -> bool {
    match expected {
        Ok(s) => r matches Ok(v) && v@ == s,
        Err(e) => r == Err::<Vec<u8>, QuicError>(e),
    }
}

fn check_dims(width: u32, height: u32) -> (r: Result<usize>)
    ensures
        match r {
            Ok(n) => dims::dims_ok(width, height, 4) && n == width * height,
            Err(e) => !dims::dims_ok(width, height, 4) && e == (QuicError::TooLarge {
                width,
                height,
            }),
        },
{
    match validate_dims(width, height, 4) {
        Ok(n) => Ok(n / 4),
        Err(_) => Err(QuicError::TooLarge { width, height }),
    }
}

/// Interleave four planes.
fn interleave(b: &Vec<u8>, g: &Vec<u8>, r: &Vec<u8>, a: &Vec<u8>) -> (out: Vec<u8>)
    requires
        b@.len() == g@.len() == r@.len() == a@.len(),
    ensures
        out@ == bgra(b@, g@, r@, a@),
{
    let n: usize = b.len();
    let mut out: Vec<u8> = Vec::new();
    let mut i: usize = 0;
    while i < n
        invariant
            i <= n,
            n == b@.len() == g@.len() == r@.len() == a@.len(),
            out@.len() == 4 * i,
            forall|k: int| 0 <= k < 4 * i ==> #[trigger] out@[k] == bgra(b@, g@, r@, a@)[k],
        decreases n - i,
    {
        out.push(b[i]);
        out.push(g[i]);
        out.push(r[i]);
        out.push(a[i]);
        i = i + 1;
    }
    assert(out@ =~= bgra(b@, g@, r@, a@));
    out
}

fn widen_plane(s: &Vec<u8>) -> (out: Vec<u8>)
    ensures
        out@ == widen(s@),
{
    let n: usize = s.len();
    let mut out: Vec<u8> = Vec::new();
    let mut i: usize = 0;
    while i < n
        invariant
            i <= n == s@.len(),
            out@.len() == i,
            forall|k: int| 0 <= k < i ==> #[trigger] out@[k] == wide(s@[k]),
        decreases n - i,
    {
        let v: u32 = s[i] as u32 % 32;
        out.push((8 * v + v / 4) as u8);
        i = i + 1;
    }
    assert(out@ =~= widen(s@));
    out
}

fn flat_plane(n: usize, v: u8) -> (out: Vec<u8>)
    ensures
        out@ == flat(n as nat, v),
{
    let out: Vec<u8> = vec![v; n];
    assert(out@ =~= flat(n as nat, v));
    out
}

/// Decode an RGB32 QUIC stream into a BGRA buffer (top-down, `width * 4`
/// bytes per row, alpha always 0).
pub fn decompress_rgb32(stream: &[u8], width: u32, height: u32) -> (r: Result<Vec<u8>>)
    ensures
        yields(r, rgb32_image(stream@, width, height)),
        r matches Ok(v) ==> dims::dims_ok(width, height, 4) && v@.len() == 4 * (width * height),
{
    let mut reader = BitReader::new_after_header(stream)?;
    let n: usize = check_dims(width, height)?;
    let fam = Family::init(8);
    let planes = decompress_planes(&mut reader, &fam, 3, true, width, height)?;
    let alpha = flat_plane(n, 0);
    proof {
        lemma_planes(planes@, width, height);
    }
    Ok(interleave(&planes[2], &planes[1], &planes[0], &alpha))
}

proof fn lemma_planes(v: Seq<Vec<u8>>, width: u32, height: u32)
    requires
        forall|k: int|
            0 <= k < v.len() ==> (#[trigger] decode::plane_views(v)[k]).len() == width * height,
    ensures
        forall|k: int| 0 <= k < v.len() ==> (#[trigger] v[k])@.len() == width * height,
        forall|k: int| 0 <= k < v.len() ==> (#[trigger] v[k])@ == decode::plane_views(v)[k],
{
    assert forall|k: int| 0 <= k < v.len() implies (#[trigger] v[k])@.len() == width * height by {
        assert(decode::plane_views(v)[k] == v[k]@);
    }
}

/// Decode a QUIC RGBA stream into BGRA (top-down). It holds two streams: an
/// RGB32 one, then an alpha plane with an adaptive coder of its own.
pub fn decompress_rgba(stream: &[u8], width: u32, height: u32) -> (r: Result<Vec<u8>>)
    ensures
        yields(r, rgba_image(stream@, width, height)),
        r matches Ok(v) ==> dims::dims_ok(width, height, 4) && v@.len() == 4 * (width * height),
{
    let mut reader = BitReader::new_after_header(stream)?;
    let _n: usize = check_dims(width, height)?;
    let fam = Family::init(8);
    let planes = decompress_planes(&mut reader, &fam, 3, true, width, height)?;
    let alpha = decompress_planes(&mut reader, &fam, 1, false, width, height)?;
    proof {
        lemma_planes(planes@, width, height);
        lemma_planes(alpha@, width, height);
    }
    Ok(interleave(&planes[2], &planes[1], &planes[0], &alpha[0]))
}

/// Decode a QUIC gray stream into BGRA (R = G = B = gray, A = 0xFF).
pub fn decompress_gray(stream: &[u8], width: u32, height: u32) -> (r: Result<Vec<u8>>)
    ensures
        yields(r, gray_image(stream@, width, height)),
        r matches Ok(v) ==> dims::dims_ok(width, height, 4) && v@.len() == 4 * (width * height),
{
    let mut reader = BitReader::new_after_header(stream)?;
    let n: usize = check_dims(width, height)?;
    let fam = Family::init(8);
    let planes = decompress_planes(&mut reader, &fam, 1, false, width, height)?;
    let alpha = flat_plane(n, 255);
    proof {
        lemma_planes(planes@, width, height);
    }
    Ok(interleave(&planes[0], &planes[0], &planes[0], &alpha))
}

/// Decode a QUIC RGB16 stream into BGRA (top-down). Each 5-bit channel is
/// expanded to 8 bits by mirroring its high bits into the low ones.
pub fn decompress_rgb16(stream: &[u8], width: u32, height: u32) -> (r: Result<Vec<u8>>)
    ensures
        yields(r, rgb16_image(stream@, width, height)),
        r matches Ok(v) ==> dims::dims_ok(width, height, 4) && v@.len() == 4 * (width * height),
{
    let mut reader = BitReader::new_after_header(stream)?;
    let n: usize = check_dims(width, height)?;
    let fam = Family::init(5);
    let planes = decompress_planes(&mut reader, &fam, 3, false, width, height)?;
    proof {
        lemma_planes(planes@, width, height);
    }
    let b = widen_plane(&planes[2]);
    let g = widen_plane(&planes[1]);
    let r = widen_plane(&planes[0]);
    let alpha = flat_plane(n, 255);
    Ok(interleave(&b, &g, &r, &alpha))
}

} // verus!
