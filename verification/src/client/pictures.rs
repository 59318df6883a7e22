//! The pictures that come with drawing commands, byte by byte.

use vstd::prelude::*;

use crate::client::images;
use crate::client::images::{Decoded, Painted};
use crate::client::mjpeg;
use crate::client::mjpeg::{DecodedFrame, MjpegError, RawFrame};
use crate::glz::codec as glz_codec;
use crate::glz::error as glz_error;
use crate::glz::header::GlzHeader;
use crate::glz::layout as glz_layout;
use crate::glz::window::Image;
use crate::lz::codec as lz_codec;
use crate::lz::error as lz_error;
use crate::lz::header::LzHeader;
use crate::lz::layout as lz_layout;
use crate::proto::image as image_proto;
use crate::proto::image::{Bitmap, ImageDescriptor};
use crate::proto::layout::{big_value, lemma_u32, lemma_u64, records, value};
use crate::quic::error as quic_error;
use crate::quic::header::QuicHeader;
use crate::quic::image as quic_image;
use crate::quic::layout as quic_layout;

verus! {

/// A picture turned over has its last row first, and each row as it was.
pub proof fn flipping_turns_rows_over(rows: Seq<u8>, stride: int, height: int, y: int, x: int)
    requires
        0 < stride,
        0 <= y < height,
        0 <= x < stride,
    ensures
        images::flipped(rows, stride, height).len() == height * stride,
        0 <= y * stride + x < height * stride,
        images::flipped(rows, stride, height)[y * stride + x] == rows[(height - 1 - y) * stride
            + x],
{
    assert(0 <= y * stride + x < height * stride) by (nonlinear_arith)
        requires
            0 <= y < height,
            0 <= x < stride,
    ;
    vstd::arithmetic::div_mod::lemma_fundamental_div_mod_converse(y * stride + x, stride, y, x);
}

proof fn lemma_skipped(body: Seq<u8>, o: int, i: int)
    requires
        0 <= o,
        0 <= i,
        o + i + 8 <= body.len(),
    ensures
        value(body.skip(o), i, 4) == value(body, o + i, 4),
        value(body.skip(o), i, 8) == value(body, o + i, 8),
{
    let s = body.skip(o);
    lemma_u32(s, i);
    lemma_u64(s, i);
    lemma_u32(body, o + i);
    lemma_u64(body, o + i);
    assert(s[i] == body[o + i] && s[i + 1] == body[o + i + 1] && s[i + 2] == body[o + i + 2] && s[i
        + 3] == body[o + i + 3]);
    assert(s[i + 4] == body[o + i + 4] && s[i + 5] == body[o + i + 5] && s[i + 6] == body[o + i + 6]
        && s[i + 7] == body[o + i + 7]);
}

/// The data of a compressed picture come after the 18 bytes that describe it:
/// their number, and as many bytes.
pub proof fn compressed_data_follow_their_length(body: Seq<u8>, offset: u32)
    ensures
        images::inline_data(body, offset) is Some <==> {
            &&& offset + 22 <= body.len()
            &&& offset + 22 + value(body, offset + 18, 4) <= body.len()
        },
        images::inline_data(body, offset) matches Some(data) ==> {
            &&& data.len() == value(body, offset + 18, 4)
            &&& forall|i: int| 0 <= i < data.len() ==> #[trigger] data[i] == body[offset + 22 + i]
        },
{
    lemma_u32(body, offset + 18);
}

/// What is told of a picture of `w` pixels to a row: the region to paint, of
/// four bytes for each pixel, and the pixels to keep under the picture's id.
pub open spec fn told(d: Decoded, pixels: Seq<u8>, w: nat, id: nat, kept: Seq<u8>) -> bool {
    &&& d.region matches Some(p)
    &&& p.pixels == pixels
    &&& p.stride == 4 * w
    &&& d.keep == Some((id as u64, kept))
}

/// The pixels in the order in which they are shown: as they came where the
/// first row is the uppermost, else turned over.
pub open spec fn upright(pixels: Seq<u8>, top_down: bool, w: nat, h: nat) -> Seq<u8> {
    if top_down {
        pixels
    } else {
        images::flipped(pixels, (4 * w) as int, h as int)
    }
}

proof fn lemma_kind(body: Seq<u8>, offset: u32)
    requires
        0 < offset,
        offset + 22 <= body.len(),
    ensures
        ({
            let desc = ImageDescriptor::spec_at(body.skip(offset as int), 0);
            &&& desc.image_type == body[offset + 8]
            &&& desc.id == value(body, offset as int, 8)
        }),
{
    let s = body.skip(offset as int);
    lemma_skipped(body, offset as int, 0);
    lemma_u64(s, 0);
    assert(s[8] == body[offset + 8]);
}

/// A picture whose kind, the byte at 8 of its description, is 101: an LZ stream
/// behind a header of 28 bytes. Of the kinds with number 8 and 9 there are
/// pixels, the latter with alpha. It is kept as it is shown, under the id at
/// the start of its description.
pub proof fn lz_pictures_are_told_so(
    body: Seq<u8>,
    offset: u32,
    dict: Map<u64, Image>,
    d: Decoded,
    data: Seq<u8>,
)
    requires
        0 < offset,
        offset + 22 <= body.len(),
        body[offset + 8] == 101,
        images::source_image(body, offset, dict, d),
        images::inline_data(body, offset) == Some(data),
        data.len() >= 28,
        lz_layout::marked(data),
        big_value(data, 8, 4) == 8 || big_value(data, 8, 4) == 9,
        0 < big_value(data, 12, 4) * big_value(data, 16, 4) <= 0x100_0000,
    ensures
        ({
            let w = big_value(data, 12, 4);
            let h = big_value(data, 16, 4);
            let pixels = if big_value(data, 8, 4) == 8 {
                lz_codec::rgb32_image(data.skip(28), (w * h) as usize)
            } else {
                lz_codec::rgba_image(data.skip(28), (w * h) as usize)
            };
            match pixels {
                Ok(p) => {
                    let shown = upright(p, big_value(data, 24, 4) != 0, w, h);
                    w < 0x4000_0000 ==> told(d, shown, w, value(body, offset as int, 8), shown)
                },
                Err(_) => d.region is None && d.keep is None,
            }
        }),
{
    lemma_kind(body, offset);
    let r = choose|r: lz_error::Result<LzHeader>| #[trigger]
        LzHeader::reads(data, r) && d == (match r {
            Err(_) => images::nothing(),
            Ok(h) => images::lz_decoded(data, h, value(body, offset as int, 8) as u64),
        });
    lz_layout::header_layout(data, r);
}

/// A picture of kind 102: a GLZ stream behind a header of 33 bytes, of the kind
/// with number 8. It is kept under the id in that header, with its rows as they
/// came; where it cannot be read, black pixels are kept in its place.
pub proof fn glz_pictures_are_told_so(
    body: Seq<u8>,
    offset: u32,
    dict: Map<u64, Image>,
    d: Decoded,
    data: Seq<u8>,
)
    requires
        0 < offset,
        offset + 22 <= body.len(),
        body[offset + 8] == 102,
        images::source_image(body, offset, dict, d),
        images::inline_data(body, offset) == Some(data),
        data.len() >= 33,
        lz_layout::marked(data),
        data[8] % 16 == 8,
        big_value(data, 9, 4) < 0x4000_0000,
    ensures
        ({
            let w = big_value(data, 9, 4);
            let h = big_value(data, 13, 4);
            let id = big_value(data, 21, 8);
            exists|head: GlzHeader|
                {
                    &&& head.width == w
                    &&& head.height == h
                    &&& head.id == id
                    &&& match #[trigger] glz_codec::rgb32_image(data, head, Some(dict)) {
                        Ok(p) => told(d, upright(p, data[8] >= 16, w, h), w, id, p),
                        Err(_) => {
                            &&& d.region is None
                            &&& d.keep matches Some((under, black)) ==> {
                                &&& under == id
                                &&& black.len() == 4 * (w * h)
                                &&& forall|i: int| 0 <= i < black.len() ==> #[trigger] black[i] == 0
                            }
                        },
                    }
                }
        }),
{
    lemma_kind(body, offset);
    let r = choose|r: glz_error::Result<GlzHeader>| #[trigger]
        GlzHeader::reads(data, r) && d == (match r {
            Err(_) => images::nothing(),
            Ok(h) => images::glz_decoded(data, h, dict),
        });
    glz_layout::header_layout(data, r);
    let head = r->Ok_0;
    assert(glz_codec::rgb32_image(data, head, Some(dict)) is Ok || glz_codec::rgb32_image(
        data,
        head,
        Some(dict),
    ) is Err);
}

/// The pixels of a QUIC stream of this kind: gray, of 16 bits, of 24 or 32
/// bits, or with alpha.
pub open spec fn quic_of(kind: nat, data: Seq<u8>, w: u32, h: u32) -> quic_error::Result<Seq<u8>> {
    if kind == 1 {
        quic_image::gray_image(data, w, h)
    } else if kind == 2 {
        quic_image::rgb16_image(data, w, h)
    } else if kind == 5 {
        quic_image::rgba_image(data, w, h)
    } else {
        quic_image::rgb32_image(data, w, h)
    }
}

proof fn lemma_quic_pixels(kind: nat, data: Seq<u8>, h: QuicHeader)
    requires
        1 <= kind <= 5,
        h.image_type == quic_layout::kinds()[kind - 1],
    ensures
        kind != 3 ==> images::quic_pixels(data, h) == quic_of(kind, data, h.width, h.height),
        kind == 3 ==> match quic_of(3, data, h.width, h.height) {
            Ok(p) => images::quic_pixels(data, h) == Ok::<Seq<u8>, quic_error::QuicError>(
                images::opaque(p),
            ),
            Err(e) => images::quic_pixels(data, h) == Err::<Seq<u8>, quic_error::QuicError>(e),
        },
{
}

/// A picture of kind 1: a QUIC stream with its header. It is shown as it came,
/// and kept so under the id at the start of its description. Without alpha in
/// the stream, a picture of 24 bits is opaque.
pub proof fn quic_pictures_are_told_so(
    body: Seq<u8>,
    offset: u32,
    dict: Map<u64, Image>,
    d: Decoded,
    data: Seq<u8>,
)
    requires
        0 < offset,
        offset + 22 <= body.len(),
        body[offset + 8] == 1,
        images::source_image(body, offset, dict, d),
        images::inline_data(body, offset) == Some(data),
        data.len() >= 20,
        quic_layout::marked(data),
        1 <= value(data, 8, 4) <= 5,
        value(data, 12, 4) < 0x4000_0000,
    ensures
        ({
            let kind = value(data, 8, 4);
            let w = value(data, 12, 4);
            let h = value(data, 16, 4);
            let id = value(body, offset as int, 8);
            match quic_of(kind, data, w as u32, h as u32) {
                Ok(p) => {
                    &&& d.region matches Some(shown)
                    &&& shown.pixels.len() == p.len()
                    &&& forall|i: int|
                        0 <= i < p.len() ==> #[trigger] shown.pixels[i] == if kind == 3 && i % 4
                            == 3 {
                            255u8
                        } else {
                            p[i]
                        }
                    &&& shown.stride == 4 * w
                    &&& d.keep == Some((id as u64, shown.pixels))
                },
                Err(_) => d.region is None && d.keep is None,
            }
        }),
{
    lemma_kind(body, offset);
    let kind = value(data, 8, 4);
    let id = value(body, offset as int, 8) as u64;
    let r = choose|r: quic_error::Result<QuicHeader>| #[trigger]
        QuicHeader::reads(data, r) && d == (match r {
            Err(_) => images::nothing(),
            Ok(h) => match images::quic_pixels(data, h) {
                Err(_) => images::nothing(),
                Ok(p) => images::shown(id, p, (4 * h.width) as u32),
            },
        });
    quic_layout::header_layout(data, r);
    let h = r->Ok_0;
    lemma_quic_pixels(kind, data, h);
    let pixels = quic_of(kind, data, h.width, h.height);
    lemma_quic_told(kind, id, pixels, images::quic_pixels(data, h), h.width, d);
}

proof fn lemma_quic_told(
    kind: nat,
    id: u64,
    pixels: quic_error::Result<Seq<u8>>,
    out: quic_error::Result<Seq<u8>>,
    w: u32,
    d: Decoded,
)
    requires
        w < 0x4000_0000,
        kind != 3 ==> out == pixels,
        kind == 3 ==> match pixels {
            Ok(p) => out == Ok::<Seq<u8>, quic_error::QuicError>(images::opaque(p)),
            Err(e) => out == Err::<Seq<u8>, quic_error::QuicError>(e),
        },
        d == (match out {
            Err(_) => images::nothing(),
            Ok(p) => images::shown(id, p, (4 * w) as u32),
        }),
    ensures
        match pixels {
            Ok(p) => {
                &&& d.region matches Some(shown)
                &&& shown.pixels.len() == p.len()
                &&& forall|i: int|
                    0 <= i < p.len() ==> #[trigger] shown.pixels[i] == if kind == 3 && i % 4 == 3 {
                        255u8
                    } else {
                        p[i]
                    }
                &&& shown.stride == 4 * w
                &&& d.keep == Some((id, shown.pixels))
            },
            Err(_) => d.region is None && d.keep is None,
        },
{
}

/// A picture of a kind other than 0, 1, 101 and 102 is not shown, nor kept.
pub proof fn other_kinds_are_not_shown(
    body: Seq<u8>,
    offset: u32,
    dict: Map<u64, Image>,
    d: Decoded,
)
    requires
        0 < offset,
        offset + 22 <= body.len(),
        body[offset + 8] != 0,
        body[offset + 8] != 1,
        body[offset + 8] != 101,
        body[offset + 8] != 102,
        images::source_image(body, offset, dict, d),
    ensures
        d.region is None,
        d.keep is None,
{
    lemma_kind(body, offset);
}

/// How many bytes a pixel takes in each bitmap format: one in those of eight
/// bits, 5 and 10, two in 6, three in 7, and four in 8 and 9. Of the others a
/// pixel takes less than a byte, or they are no formats.
pub proof fn bitmap_pixels_take_bytes(format: u8)
    ensures
        ({
            let sizes = seq![1u32, 2u32, 3u32, 4u32, 4u32, 1u32];
            image_proto::bytes_per_pixel(format) == if 5 <= format <= 10 {
                Some(sizes[format - 5])
            } else {
                None
            }
        }),
{
}

/// A picture of kind 0 is a bitmap: behind the description its format, flags,
/// width, height, bytes of a row, palette and where its data are. Formats 6
/// to 9 are those of two to four bytes for each pixel. Without a palette it is
/// as many rows of the data as it is high, as they came where the flag of worth
/// one is set, else turned over.
pub proof fn bitmaps_are_told_so(
    body: Seq<u8>,
    offset: u32,
    dict: Map<u64, Image>,
    d: Decoded,
    raw: Seq<u8>,
)
    requires
        0 < offset,
        offset + 40 <= body.len(),
        body[offset + 8] == 0,
        images::source_image(body, offset, dict, d),
        6 <= body[offset + 18] <= 9,
        value(body, offset + 32, 4) == 0,
        image_proto::chunks_of(body, value(body, offset + 36, 4) as u32) == Ok::<
            Seq<u8>,
            crate::proto::error::ProtoError,
        >(raw),
    ensures
        ({
            let h = value(body, offset + 24, 4);
            let stride = value(body, offset + 28, 4);
            let rows = raw.take((h * stride) as int);
            if raw.len() < h * stride {
                d.region is None && d.keep is None
            } else {
                let pixels = if body[offset + 19] % 2 == 1 {
                    rows
                } else {
                    images::flipped(rows, stride as int, h as int)
                };
                &&& d.region == Some(Painted { pixels, stride: stride as u32 })
                &&& d.keep == Some((value(body, offset as int, 8) as u64, pixels))
            }
        }),
{
    lemma_kind(body, offset);
    let s = body.skip(offset as int);
    records::bitmap_layout(Bitmap::parse_at(s, 18)->Ok_0.0, s, 18);
    lemma_four(body, offset as int, 24);
    lemma_four(body, offset as int, 28);
    lemma_four(body, offset as int, 32);
    lemma_four(body, offset as int, 36);
    assert(s[18] == body[offset + 18]);
    assert(s[19] == body[offset + 19]);
}

proof fn lemma_four(body: Seq<u8>, o: int, i: int)
    requires
        0 <= o,
        0 <= i,
        o + i + 4 <= body.len(),
    ensures
        value(body.skip(o), i, 4) == value(body, o + i, 4),
{
    let s = body.skip(o);
    lemma_u32(s, i);
    lemma_u32(body, o + i);
    assert(s[i] == body[o + i] && s[i + 1] == body[o + i + 1] && s[i + 2] == body[o + i + 2] && s[i
        + 3] == body[o + i + 3]);
}

/// A frame of a stream, as it comes from the decoder and as it is shown: of
/// three bytes red comes first and is shown third, blue the other way round;
/// of one byte all three are that byte. Each pixel is opaque.
pub proof fn frames_are_shown_so(raw: RawFrame, r: Result<DecodedFrame, MjpegError>, i: int)
    requires
        raw.width <= 16384,
        raw.height <= 16384,
        mjpeg::frame_outcome(raw, r),
        0 <= i < raw.width * raw.height,
    ensures
        raw.format is Rgb24 ==> {
            &&& r matches Ok(f)
            &&& f.width == raw.width
            &&& f.height == raw.height
            &&& f.bgra@.len() == 4 * (raw.width * raw.height)
            &&& f.bgra@[4 * i] == raw.pixels@[3 * i + 2]
            &&& f.bgra@[4 * i + 1] == raw.pixels@[3 * i + 1]
            &&& f.bgra@[4 * i + 2] == raw.pixels@[3 * i]
            &&& f.bgra@[4 * i + 3] == 255
        },
        raw.format is L8 ==> {
            &&& r matches Ok(f)
            &&& f.width == raw.width
            &&& f.height == raw.height
            &&& f.bgra@.len() == 4 * (raw.width * raw.height)
            &&& f.bgra@[4 * i] == raw.pixels@[i]
            &&& f.bgra@[4 * i + 1] == raw.pixels@[i]
            &&& f.bgra@[4 * i + 2] == raw.pixels@[i]
            &&& f.bgra@[4 * i + 3] == 255
        },
        raw.format is L16 || raw.format is Cmyk32 ==> r == Err::<DecodedFrame, MjpegError>(
            MjpegError::UnsupportedPixelFormat(raw.format),
        ),
{
}

} // verus!
