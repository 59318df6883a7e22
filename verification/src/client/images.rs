//! The source images of drawing commands: what a `DRAW_COPY` paints, and what
//! of it goes into the GLZ dictionary.

use vstd::prelude::*;
use vstd::slice::{slice_subrange, slice_to_vec};

use crate::glz::codec as glz_codec;
use crate::glz::error as glz_error;
use crate::glz::header::GlzHeader;
use crate::glz::window::{GlzWindow, Image};
use crate::lz::codec as lz_codec;
use crate::lz::dims;
use crate::lz::dims::MAX_IMAGE_BYTES;
use crate::lz::error as lz_error;
use crate::lz::header::{LzHeader, LzImageType, LZ_HEADER_SIZE};
use crate::proto::image as image_proto;
use crate::proto::image::image_type;
use crate::proto::image::{bitmap_bytes_per_pixel, read_chunks, Bitmap, ImageDescriptor};
use crate::proto::types::Reader;
use crate::proto::wire;
use crate::quic::error as quic_error;
use crate::quic::header::{QuicHeader, QuicImageType};
use crate::quic::image as quic_image;

verus! {

/// Rows of pixels, and the byte pitch between them.
pub struct Painted {
    pub pixels: Seq<u8>,
    pub stride: u32,
}

/// What a source image comes to: what to paint, if it is understood, and what
/// to keep in the dictionary under which id.
pub struct Decoded {
    pub region: Option<Painted>,
    pub keep: Option<(u64, Seq<u8>)>,
}

/// An image that is not understood.
pub open spec fn nothing() -> Decoded {
    Decoded { region: None, keep: None }
}

/// An image that is painted, and kept as it is painted.
pub open spec fn shown(id: u64, pixels: Seq<u8>, stride: u32) -> Decoded {
    Decoded { region: Some(Painted { pixels, stride }), keep: Some((id, pixels)) }
}

/// Pixels and the byte pitch between rows.
pub struct Raster {
    pub pixels: Vec<u8>,
    pub stride: u32,
}

/// Pixels for the dictionary.
pub struct Kept {
    pub id: u64,
    pub pixels: Vec<u8>,
}

/// What a source image comes to.
pub struct DecodedImage {
    pub region: Option<Raster>,
    pub keep: Option<Kept>,
}

impl View for DecodedImage {
    type V = Decoded;

    open spec fn view(&self) -> Decoded {
        Decoded {
            region: match self.region {
                Some(r) => Some(Painted { pixels: r.pixels@, stride: r.stride }),
                None => None,
            },
            keep: match self.keep {
                Some(k) => Some((k.id, k.pixels@)),
                None => None,
            },
        }
    }
}

impl DecodedImage {
    /// What is kept is no larger than an image may be.
    pub open spec fn bounded(self) -> bool {
        self.keep matches Some(k) ==> k.pixels@.len() <= MAX_IMAGE_BYTES
    }

    fn nothing() -> (d: Self)
        ensures
            d@ == nothing(),
            d.bounded(),
    {
        DecodedImage { region: None, keep: None }
    }

    fn shown(id: u64, pixels: Vec<u8>, stride: u32) -> (d: Self)
        requires
            pixels@.len() <= MAX_IMAGE_BYTES,
        ensures
            d@ == shown(id, pixels@, stride),
            d.bounded(),
    {
        let copy = slice_to_vec(pixels.as_slice());
        DecodedImage {
            region: Some(Raster { pixels, stride }),
            keep: Some(Kept { id, pixels: copy }),
        }
    }
}

/// The rows of an image in reverse order.
pub open spec fn flipped(rows: Seq<u8>, stride: int, height: int) -> Seq<u8> {
    Seq::new(
        (height * stride) as nat,
        |i: int| rows[(height - 1 - i / stride) * stride + i % stride],
    )
}

proof fn lemma_cell(y: int, c: int, stride: int)
    requires
        0 <= y,
        0 <= c < stride,
    ensures
        (y * stride + c) / stride == y,
        (y * stride + c) % stride == c,
{
    assert((y * stride + c) / stride == y && (y * stride + c) % stride == c) by (nonlinear_arith)
        requires
            0 <= y,
            0 <= c < stride,
    ;
}

proof fn lemma_split(i: int, stride: int, height: int)
    requires
        0 <= i < height * stride,
        0 <= stride,
        0 <= height,
    ensures
        stride > 0,
        0 <= i / stride < height,
        0 <= i % stride < stride,
        i == (i / stride) * stride + i % stride,
{
    assert(stride > 0) by (nonlinear_arith)
        requires
            0 <= i < height * stride,
            0 <= stride,
            0 <= height,
    ;
    assert(0 <= i / stride < height && 0 <= i % stride < stride && i == (i / stride) * stride + i
        % stride) by (nonlinear_arith)
        requires
            0 <= i < height * stride,
            0 < stride,
    ;
}

/// Flipping an image twice gives it back.
pub proof fn flip_is_its_own_inverse(rows: Seq<u8>, stride: int, height: int)
    requires
        0 <= stride,
        0 <= height,
        rows.len() == height * stride,
    ensures
        flipped(flipped(rows, stride, height), stride, height) == rows,
{
    let once = flipped(rows, stride, height);
    let twice = flipped(once, stride, height);
    assert forall|i: int| 0 <= i < rows.len() implies twice[i] == rows[i] by {
        lemma_split(i, stride, height);
        let y = i / stride;
        let c = i % stride;
        let z = height - 1 - y;
        lemma_cell(z, c, stride);
        lemma_cell(y, c, stride);
        assert(0 <= z * stride + c < height * stride) by (nonlinear_arith)
            requires
                0 <= z < height,
                0 <= c < stride,
        ;
        assert(once[z * stride + c] == rows[(height - 1 - z) * stride + c]);
    }
    assert(twice =~= rows);
}

/// Reverse the order of the rows.
pub fn flip_vertical(rows: &[u8], stride: usize, height: usize) -> (out: Vec<u8>)
    requires
        height * stride <= rows@.len(),
    ensures
        out@ == flipped(rows@, stride as int, height as int),
{
    let ghost s = stride as int;
    let ghost h = height as int;
    let _len: usize = rows.len();
    let mut out: Vec<u8> = Vec::new();
    let mut k: usize = 0;
    assert(0 * s == 0);
    while k < height
        invariant
            k <= height,
            s == stride,
            h == height,
            h * s <= rows@.len() <= usize::MAX,
            out@.len() == k * s,
            forall|i: int| 0 <= i < k * s ==> out@[i] == #[trigger] flipped(rows@, s, h)[i],
        decreases height - k,
    {
        let y: usize = height - 1 - k;
        assert((y + 1) * s <= h * s && y * s >= 0 && y * s + s == (y + 1) * s && (k + 1) * s == k
            * s + s) by (nonlinear_arith)
            requires
                0 <= y < h,
                0 <= s,
                0 <= k,
        ;
        let row = slice_subrange(rows, y * stride, y * stride + stride);
        let ghost before = out@;
        out.extend_from_slice(row);
        proof {
            assert(out@ =~= before + row@);
            let want = flipped(rows@, s, h);
            assert forall|i: int| 0 <= i < (k + 1) * s implies out@[i] == #[trigger] want[i] by {
                assert((k + 1) * s <= h * s) by (nonlinear_arith)
                    requires
                        k + 1 <= h,
                        0 <= s,
                ;
                if i >= k * s {
                    let c = i - k * s;
                    lemma_cell(k as int, c, s);
                    assert(out@[i] == row@[c]);
                }
            }
        }
        k = k + 1;
    }
    assert(out@ =~= flipped(rows@, s, h));
    out
}

/// The inline payload of the image at `offset`: behind the descriptor, a size
/// and that many bytes.
pub open spec fn inline_data(body: Seq<u8>, offset: u32) -> Option<Seq<u8>> {
    let start = offset + 18;
    if start + 4 > body.len() {
        None
    } else {
        let n = wire::u32_at(body, start);
        if start + 4 + n > body.len() {
            None
        } else {
            Some(body.subrange(start + 4, start + 4 + n))
        }
    }
}

/// The inline payload of the image at `offset`.
fn read_inline(body: &[u8], offset: u32) -> (r: Option<&[u8]>)
    ensures
        match inline_data(body@, offset) {
            Some(d) => r matches Some(v) && v@ == d,
            None => r is None,
        },
{
    let len: usize = body.len();
    let start: u64 = offset as u64 + 18;
    if start + 4 > len as u64 {
        return None;
    }
    let from: usize = start as usize;
    let n: u32 = body[from] as u32 + 256 * body[from + 1] as u32 + 65536 * body[from + 2] as u32
        + 16777216 * body[from + 3] as u32;
    if start + 4 + n as u64 > len as u64 {
        return None;
    }
    Some(slice_subrange(body, from + 4, from + 4 + n as usize))
}

/// The image that an LZ payload with this header comes to.
pub open spec fn lz_decoded(data: Seq<u8>, h: LzHeader, id: u64) -> Decoded {
    let n = h.width * h.height;
    if n == 0 || n > usize::MAX {
        nothing()
    } else {
        let stream = data.skip(LZ_HEADER_SIZE as int);
        let image: lz_error::Result<Seq<u8>> = match h.image_type {
            LzImageType::Rgb32 => lz_codec::rgb32_image(stream, n as usize),
            LzImageType::Rgba => lz_codec::rgba_image(stream, n as usize),
            _ => Err(lz_error::LzError::TooLarge { width: 0, height: 0 }),
        };
        match image {
            Err(_) => nothing(),
            Ok(p) => shown(
                id,
                if h.top_down {
                    p
                } else {
                    flipped(p, 4 * h.width, h.height as int)
                },
                (4 * h.width) as u32,
            ),
        }
    }
}

/// The LZ image at `offset` comes to `d`.
pub open spec fn lz_image(body: Seq<u8>, offset: u32, id: u64, d: Decoded) -> bool {
    match inline_data(body, offset) {
        None => d == nothing(),
        Some(data) => exists|h: lz_error::Result<LzHeader>| #[trigger]
            LzHeader::reads(data, h) && d == (match h {
                Err(_) => nothing(),
                Ok(h) => lz_decoded(data, h, id),
            }),
    }
}

proof fn lemma_area(w: u32, h: u32)
    ensures
        0 <= w * h <= u64::MAX,
        w * h == h * w,
        4 * (w * h) == (4 * w) * h,
        (h as int) * (4 * w) == 4 * (w * h),
        w > 0 && h > 0 ==> w <= w * h,
        w == 0 || h == 0 ==> w * h == 0,
{
    assert(0 <= w * h <= u64::MAX && w * h == h * w && 4 * (w * h) == (4 * w) * h && (h as int) * (4
        * w) == 4 * (w * h) && (w > 0 && h > 0 ==> w <= w * h) && (w == 0 || h == 0 ==> w * h
        == 0)) by (nonlinear_arith);
}

/// Decode `SpiceLZRGBData` (a size and inline bytes) with the LZ codec. LZ
/// output is always top-down internally; where the header says the image is
/// bottom-up, the rows are flipped so the embedder sees top-down.
pub fn decode_lz_rgb(body: &[u8], offset: u32, id: u64) -> (d: DecodedImage)
    ensures
        lz_image(body@, offset, id, d@),
        d.bounded(),
{
    let data = match read_inline(body, offset) {
        Some(data) => data,
        None => {
            return DecodedImage::nothing();
        },
    };
    let r = LzHeader::decode(data);
    assert(LzHeader::reads(data@, r));
    let h = match r {
        Ok(h) => h,
        Err(_) => {
            return DecodedImage::nothing();
        },
    };
    proof {
        lemma_area(h.width, h.height);
    }
    let area: u64 = h.width as u64 * h.height as u64;
    if area == 0 || area > usize::MAX as u64 {
        return DecodedImage::nothing();
    }
    let n: usize = area as usize;
    let stream = slice_subrange(data, LZ_HEADER_SIZE, data.len());
    assert(stream@ =~= data@.skip(LZ_HEADER_SIZE as int));
    let decoded = match h.image_type {
        LzImageType::Rgb32 => lz_codec::decompress_rgb32(stream, n),
        LzImageType::Rgba => lz_codec::decompress_rgba(stream, n),
        _ => {
            return DecodedImage::nothing();
        },
    };
    match decoded {
        Err(_) => DecodedImage::nothing(),
        Ok(pixels) => {
            let stride: u32 = 4 * h.width;
            if h.top_down {
                DecodedImage::shown(id, pixels, stride)
            } else {
                let turned = flip_vertical(pixels.as_slice(), stride as usize, h.height as usize);
                DecodedImage::shown(id, turned, stride)
            }
        },
    }
}

/// The pixels with every alpha byte at its highest.
pub open spec fn opaque(pixels: Seq<u8>) -> Seq<u8> {
    Seq::new(
        pixels.len(),
        |i: int|
            if i % 4 == 3 {
                255u8
            } else {
                pixels[i]
            },
    )
}

fn make_opaque(pixels: &mut Vec<u8>)
    requires
        old(pixels)@.len() % 4 == 0,
    ensures
        final(pixels)@ == opaque(old(pixels)@),
{
    let ghost before = pixels@;
    let n: usize = pixels.len() / 4;
    let mut i: usize = 0;
    while i < n
        invariant
            i <= n,
            4 * n == before.len(),
            pixels@.len() == before.len() <= usize::MAX,
            forall|k: int|
                0 <= k < before.len() ==> #[trigger] pixels@[k] == (if k % 4 == 3 && k < 4 * i {
                    255u8
                } else {
                    before[k]
                }),
        decreases n - i,
    {
        pixels[4 * i + 3] = 255;
        i = i + 1;
    }
    assert(pixels@ =~= opaque(before));
}

/// The pixels of a QUIC payload with this header. Three-byte pixels share the
/// decoder of four-byte ones, and come out opaque.
pub open spec fn quic_pixels(data: Seq<u8>, h: QuicHeader) -> quic_error::Result<Seq<u8>> {
    match h.image_type {
        QuicImageType::Rgb32 => quic_image::rgb32_image(data, h.width, h.height),
        QuicImageType::Rgb24 => match quic_image::rgb32_image(data, h.width, h.height) {
            Ok(p) => Ok(opaque(p)),
            Err(e) => Err(e),
        },
        QuicImageType::Rgba => quic_image::rgba_image(data, h.width, h.height),
        QuicImageType::Rgb16 => quic_image::rgb16_image(data, h.width, h.height),
        QuicImageType::Gray => quic_image::gray_image(data, h.width, h.height),
    }
}

/// The QUIC image at `offset` comes to `d`.
pub open spec fn quic_outcome(body: Seq<u8>, offset: u32, id: u64, d: Decoded) -> bool {
    match inline_data(body, offset) {
        None => d == nothing(),
        Some(data) => exists|h: quic_error::Result<QuicHeader>| #[trigger]
            QuicHeader::reads(data, h) && d == (match h {
                Err(_) => nothing(),
                Ok(h) => match quic_pixels(data, h) {
                    Err(_) => nothing(),
                    Ok(p) => shown(id, p, (4 * h.width) as u32),
                },
            }),
    }
}

/// QUIC image: a size and that many bytes of QUIC payload inline. Parse the
/// stream header, dispatch to the body decoder.
pub fn decode_quic(body: &[u8], offset: u32, id: u64) -> (d: DecodedImage)
    ensures
        quic_outcome(body@, offset, id, d@),
        d.bounded(),
{
    let data = match read_inline(body, offset) {
        Some(data) => data,
        None => {
            return DecodedImage::nothing();
        },
    };
    let r = QuicHeader::decode(data);
    assert(QuicHeader::reads(data@, r));
    let h = match r {
        Ok(h) => h,
        Err(_) => {
            return DecodedImage::nothing();
        },
    };
    proof {
        lemma_area(h.width, h.height);
    }
    let result = match h.image_type {
        QuicImageType::Rgb32 => quic_image::decompress_rgb32(data, h.width, h.height),
        QuicImageType::Rgb24 => match quic_image::decompress_rgb32(data, h.width, h.height) {
            Ok(pixels) => {
                let mut p = pixels;
                make_opaque(&mut p);
                Ok(p)
            },
            Err(e) => Err(e),
        },
        QuicImageType::Rgba => quic_image::decompress_rgba(data, h.width, h.height),
        QuicImageType::Rgb16 => quic_image::decompress_rgb16(data, h.width, h.height),
        QuicImageType::Gray => quic_image::decompress_gray(data, h.width, h.height),
    };
    match result {
        Ok(pixels) => DecodedImage::shown(id, pixels, 4 * h.width),
        Err(_) => DecodedImage::nothing(),
    }
}

/// Zero pixels, for an image whose geometry is sane.
pub open spec fn placeholder(width: u32, height: u32) -> Option<Seq<u8>> {
    if dims::dims_ok(width, height, 4) {
        Some(Seq::new((4 * (width * height)) as nat, |i: int| 0u8))
    } else {
        None
    }
}

/// Allocate a zero-byte placeholder for a GLZ image whose decode failed, but
/// only if the geometry is sane: a server cannot trigger large allocations
/// through repeated decode failures.
pub fn bounded_placeholder(width: u32, height: u32) -> (r: Option<Vec<u8>>)
    ensures
        match placeholder(width, height) {
            Some(z) => r matches Some(v) && v@ == z && v@.len() <= MAX_IMAGE_BYTES,
            None => r is None,
        },
{
    proof {
        lemma_area(width, height);
        assert(width * height * 4 == 4 * (width * height));
    }
    match dims::validate_dims(width, height, 4) {
        Ok(n) => {
            let zeros: Vec<u8> = vec![0u8; n];
            assert(zeros@ =~= Seq::new((4 * (width * height)) as nat, |i: int| 0u8));
            Some(zeros)
        },
        Err(_) => None,
    }
}

/// The image that a GLZ payload with this header comes to. The dictionary
/// always gets top-down pixels; the embedder gets them flipped where the
/// header asks for it. An image that cannot be decoded is kept as a
/// placeholder, so that later ones can still refer to it: the colour is wrong
/// but the chain of references stays alive.
pub open spec fn glz_decoded(data: Seq<u8>, h: GlzHeader, dict: Map<u64, Image>) -> Decoded {
    if h.image_type != LzImageType::Rgb32 {
        nothing()
    } else {
        match glz_codec::rgb32_image(data, h, Some(dict)) {
            Ok(p) => Decoded {
                region: Some(
                    Painted {
                        pixels: if h.top_down {
                            p
                        } else {
                            flipped(p, 4 * h.width, h.height as int)
                        },
                        stride: (4 * h.width) as u32,
                    },
                ),
                keep: Some((h.id, p)),
            },
            Err(_) => Decoded {
                region: None,
                keep: match placeholder(h.width, h.height) {
                    Some(z) => Some((h.id, z)),
                    None => None,
                },
            },
        }
    }
}

/// The GLZ image at `offset` comes to `d`.
pub open spec fn glz_image(body: Seq<u8>, offset: u32, dict: Map<u64, Image>, d: Decoded) -> bool {
    match inline_data(body, offset) {
        None => d == nothing(),
        Some(data) => exists|h: glz_error::Result<GlzHeader>| #[trigger]
            GlzHeader::reads(data, h) && d == (match h {
                Err(_) => nothing(),
                Ok(h) => glz_decoded(data, h, dict),
            }),
    }
}

/// GLZ image: parse the header, run the cross-image-aware decoder against the
/// session dictionary.
pub fn decode_glz(body: &[u8], offset: u32, window: &GlzWindow) -> (d: DecodedImage)
    ensures
        glz_image(body@, offset, window@.images, d@),
        d.bounded(),
{
    let data = match read_inline(body, offset) {
        Some(data) => data,
        None => {
            return DecodedImage::nothing();
        },
    };
    let r = GlzHeader::decode(data);
    assert(GlzHeader::reads(data@, r));
    let h = match r {
        Ok(h) => h,
        Err(_) => {
            return DecodedImage::nothing();
        },
    };
    if !matches!(h.image_type, LzImageType::Rgb32) {
        return DecodedImage::nothing();
    }
    proof {
        lemma_area(h.width, h.height);
    }
    match glz_codec::decompress_rgb32(data, &h, window) {
        Ok(pixels) => {
            let stride: u32 = 4 * h.width;
            let shown = if h.top_down {
                slice_to_vec(pixels.as_slice())
            } else {
                flip_vertical(pixels.as_slice(), stride as usize, h.height as usize)
            };
            DecodedImage {
                region: Some(Raster { pixels: shown, stride }),
                keep: Some(Kept { id: h.id, pixels }),
            }
        },
        Err(_) => match bounded_placeholder(h.width, h.height) {
            Some(pixels) => DecodedImage { region: None, keep: Some(Kept { id: h.id, pixels }) },
            None => DecodedImage::nothing(),
        },
    }
}

/// The plain bitmap at `offset` comes to this. Paletted bitmaps are left
/// alone, and so is one whose payload is smaller than its declared geometry.
pub open spec fn bitmap_decoded(body: Seq<u8>, offset: u32, id: u64) -> Decoded {
    match Bitmap::parse_at(body.skip(offset as int), 18) {
        Err(_) => nothing(),
        Ok((b, _)) => {
            let size = b.height * b.stride;
            if b.palette_offset != 0 {
                nothing()
            } else if !(image_proto::bytes_per_pixel(b.format) matches Some(n) && 2 <= n <= 4) {
                nothing()
            } else {
                match image_proto::chunks_of(body, b.data_offset) {
                    Err(_) => nothing(),
                    Ok(raw) => if raw.len() < size {
                        nothing()
                    } else {
                        shown(
                            id,
                            if b.flags % 2 == 1 {
                                raw.take(size)
                            } else {
                                flipped(raw.take(size), b.stride as int, b.height as int)
                            },
                            b.stride,
                        )
                    },
                }
            }
        },
    }
}

/// Plain bitmap. A bottom-up one is flipped, so the embedder can blit into a
/// top-down framebuffer without knowing about SPICE conventions.
fn decode_bitmap(body: &[u8], offset: u32, id: u64) -> (d: DecodedImage)
    requires
        offset + 18 <= body@.len(),
    ensures
        d@ == bitmap_decoded(body@, offset, id),
        d.bounded(),
{
    let len: usize = body.len();
    let image = slice_subrange(body, offset as usize, len);
    assert(image@ =~= body@.skip(offset as int));
    let mut r = Reader::new(image);
    match r.bytes(18) {
        Ok(_) => {},
        Err(_) => {
            return DecodedImage::nothing();
        },
    }
    let b = match Bitmap::decode(&mut r) {
        Ok(b) => b,
        Err(_) => {
            return DecodedImage::nothing();
        },
    };
    if b.palette_offset != 0 {
        return DecodedImage::nothing();
    }
    match bitmap_bytes_per_pixel(b.format) {
        Some(n) => if n < 2 || n > 4 {
            return DecodedImage::nothing();
        },
        None => {
            return DecodedImage::nothing();
        },
    }
    let raw = match read_chunks(body, b.data_offset) {
        Ok(raw) => raw,
        Err(_) => {
            return DecodedImage::nothing();
        },
    };
    proof {
        lemma_area(b.height, b.stride);
    }
    let size: u64 = b.height as u64 * b.stride as u64;
    if (raw.len() as u64) < size {
        return DecodedImage::nothing();
    }
    let rows = slice_subrange(raw.as_slice(), 0, size as usize);
    assert(rows@ =~= raw@.take(size as int));
    let pixels = if b.is_top_down() {
        slice_to_vec(rows)
    } else {
        flip_vertical(rows, b.stride as usize, b.height as usize)
    };
    DecodedImage::shown(id, pixels, b.stride)
}

/// The source image of a copy comes to `d`. An offset of zero, or one too
/// close to the end for a descriptor, leads nowhere.
pub open spec fn source_image(
    body: Seq<u8>,
    offset: u32,
    dict: Map<u64, Image>,
    d: Decoded,
) -> bool {
    if offset == 0 || offset + 18 > body.len() {
        d == nothing()
    } else {
        let desc = ImageDescriptor::spec_at(body.skip(offset as int), 0);
        if desc.image_type == image_type::LZ_RGB {
            lz_image(body, offset, desc.id, d)
        } else if desc.image_type == image_type::QUIC {
            quic_outcome(body, offset, desc.id, d)
        } else if desc.image_type == image_type::GLZ_RGB {
            glz_image(body, offset, dict, d)
        } else if desc.image_type == image_type::BITMAP {
            d == bitmap_decoded(body, offset, desc.id)
        } else {
            d == nothing()
        }
    }
}

/// Follow the offset of a copy's source image into the message body.
pub fn decode_source(body: &[u8], offset: u32, window: &GlzWindow) -> (d: DecodedImage)
    ensures
        source_image(body@, offset, window@.images, d@),
        d.bounded(),
{
    let len: usize = body.len();
    if offset == 0 || offset as u64 + ImageDescriptor::SIZE as u64 > len as u64 {
        return DecodedImage::nothing();
    }
    let image = slice_subrange(body, offset as usize, len);
    assert(image@ =~= body@.skip(offset as int));
    let mut r = Reader::new(image);
    proof {
        reveal_with_fuel(wire::short_from, 6);
    }
    let desc = match ImageDescriptor::decode(&mut r) {
        Ok(desc) => desc,
        Err(_) => {
            return DecodedImage::nothing();
        },
    };
    if desc.image_type == image_type::LZ_RGB {
        decode_lz_rgb(body, offset, desc.id)
    } else if desc.image_type == image_type::QUIC {
        decode_quic(body, offset, desc.id)
    } else if desc.image_type == image_type::GLZ_RGB {
        decode_glz(body, offset, window)
    } else if desc.image_type == image_type::BITMAP {
        decode_bitmap(body, offset, desc.id)
    } else {
        DecodedImage::nothing()
    }
}

} // verus!
