//! MJPEG frame decoder. Each `STREAM_DATA` payload from a stream whose codec
//! is `MJPEG` is a complete baseline JPEG; it goes to `jpeg_decoder`, and the
//! resulting RGB or gray bytes are reordered into BGRA so the rest of the
//! client speaks one pixel format.

use vstd::prelude::*;

verus! {

/// Cap on the buffer that a frame is decoded into.
pub const MAX_JPEG_BYTES: usize = 67_108_864;

/// Cap on each axis of a frame.
pub const MAX_JPEG_DIM: u16 = 16384;

/// A frame as the rest of the client sees it.
#[derive(Debug, Clone, PartialEq, Eq)]
pub struct DecodedFrame {
    pub width: u16,
    pub height: u16,
    /// 32-bit BGRA, top-down, `width * 4` bytes per row.
    pub bgra: Vec<u8>,
}

/// How the samples of a decoded JPEG are laid out.
#[derive(Debug, Clone, Copy, PartialEq, Eq, Structural)]
pub enum JpegFormat {
    /// One byte of luminance per pixel.
    L8,
    /// Two bytes of luminance per pixel.
    L16,
    /// Red, green and blue, a byte each.
    Rgb24,
    /// Cyan, magenta, yellow and black, a byte each.
    Cmyk32,
}

impl JpegFormat {
    /// Bytes per pixel.
    pub open spec fn bytes(self) -> int {
        match self {
            JpegFormat::L8 => 1,
            JpegFormat::L16 => 2,
            JpegFormat::Rgb24 => 3,
            JpegFormat::Cmyk32 => 4,
        }
    }
}

/// A frame as it comes out of the JPEG decoder.
#[derive(Debug, Clone, PartialEq, Eq)]
pub struct RawFrame {
    pub width: u16,
    pub height: u16,
    pub format: JpegFormat,
    pub pixels: Vec<u8>,
}

impl RawFrame {
    /// The samples of all pixels are there.
    pub open spec fn complete(self) -> bool {
        self.pixels@.len() >= self.width * self.height * self.format.bytes()
    }
}

/// Why a frame was not decoded.
#[derive(Debug, Clone, PartialEq, Eq)]
pub enum MjpegError {
    /// The JPEG decoder failed, with its message.
    Jpeg(String),
    /// Only gray and RGB frames of a byte per sample are understood.
    UnsupportedPixelFormat(JpegFormat),
    /// The JPEG has no frame header.
    NoDimensions,
    /// The frame is over the cap.
    TooLarge { width: u16, height: u16 },
}

/// The frame that a JPEG describes.
#[derive(Debug, Clone, Copy, PartialEq, Eq, Structural)]
pub struct JpegShape {
    pub width: u16,
    pub height: u16,
    pub format: JpegFormat,
}

/// Width, height and bytes per pixel of the frame that a JPEG describes, as
/// `jpeg_decoder::Decoder::read_info` and `jpeg_decoder::Decoder::info` report
/// them. `None` where they refuse the JPEG.
pub uninterp spec fn jpeg_shape(jpeg: Seq<u8>) -> Option<(u16, u16, int)>;

/// `jpeg_decoder::Decoder::read_info` and `jpeg_decoder::Decoder::info`: the
/// headers of a JPEG are read up to that of its frame, and nothing is decoded.
#[verifier::external_body]
fn jpeg_info(jpeg: &[u8]) -> (r: Result<JpegShape, MjpegError>)
    ensures
        match jpeg_shape(jpeg@) {
            Some(shape) => r matches Ok(s) && shape == (s.width, s.height, s.format.bytes()),
            None => r matches Err(e) && (e is Jpeg || e is NoDimensions),
        },
{
    let mut decoder = jpeg_decoder::Decoder::new(jpeg);
    decoder.read_info().map_err(|e| MjpegError::Jpeg(e.to_string()))?;
    let info = decoder.info().ok_or(MjpegError::NoDimensions)?;
    let format = match info.pixel_format {
        jpeg_decoder::PixelFormat::L8 => JpegFormat::L8,
        jpeg_decoder::PixelFormat::L16 => JpegFormat::L16,
        jpeg_decoder::PixelFormat::RGB24 => JpegFormat::Rgb24,
        jpeg_decoder::PixelFormat::CMYK32 => JpegFormat::Cmyk32,
    };
    Ok(JpegShape { width: info.width, height: info.height, format })
}

/// The samples of a frame, one for each component of each pixel. A pixel of
/// two bytes is a single wide sample.
pub open spec fn sample_count(width: u16, height: u16, bytes: int) -> int {
    width * height * if bytes == 2 {
        1
    } else {
        bytes
    }
}

/// `jpeg_decoder::Decoder::decode`, run on this JPEG with the buffer for the
/// decoded image limited to `max_bytes`, may come to these samples, or to none.
pub uninterp spec fn jpeg_gives(
    jpeg: Seq<u8>,
    max_bytes: nat,
    samples: Option<Seq<u8>>,
) -> bool;

/// `jpeg_decoder::Decoder::decode`, with the buffer for the decoded image
/// limited to `max_bytes`. The decoder counts pixel positions in 16 bits, which
/// an axis close to 65536 overflows; a frame that large is not to be decoded.
/// On success the samples of every pixel of the frame that the JPEG describes
/// are there, and there are no more of them than the limit. Of their values it is
/// said only that they are what the decoder gave for this JPEG: the inverse cosine transform runs on the vector instructions
/// of the machine, and samples of more than eight bits come in the machine's
/// byte order. Nor is success promised: large images are decoded on threads,
/// and the machine may have none left.
#[verifier::external_body]
fn jpeg_decode(jpeg: &[u8], max_bytes: usize) -> (r: Result<Vec<u8>, MjpegError>)
    requires
        jpeg_shape(jpeg@) matches Some((width, height, _)) && width <= MAX_JPEG_DIM && height
            <= MAX_JPEG_DIM,
        max_bytes <= MAX_JPEG_BYTES,
    ensures
        match r {
            Ok(pixels) => {
                &&& jpeg_shape(jpeg@) matches Some((width, height, bytes))
                &&& pixels@.len() >= width * height * bytes
                &&& sample_count(width, height, bytes) <= max_bytes
                &&& jpeg_gives(jpeg@, max_bytes as nat, Some(pixels@))
            },
            Err(e) => e is Jpeg && jpeg_gives(jpeg@, max_bytes as nat, None),
        },
{
    let mut decoder = jpeg_decoder::Decoder::new(jpeg);
    decoder.set_max_decoding_buffer_size(max_bytes);
    decoder.decode().map_err(|e| MjpegError::Jpeg(e.to_string()))
}

/// The BGRA bytes of `n` opaque RGB pixels.
pub open spec fn bgra_of_rgb(pixels: Seq<u8>, n: int) -> Seq<u8> {
    Seq::new(
        (4 * n) as nat,
        |k: int|
            if k % 4 == 3 {
                255u8
            } else {
                pixels[3 * (k / 4) + 2 - k % 4]
            },
    )
}

/// The BGRA bytes of `n` opaque gray pixels.
pub open spec fn bgra_of_gray(pixels: Seq<u8>, n: int) -> Seq<u8> {
    Seq::new(
        (4 * n) as nat,
        |k: int|
            if k % 4 == 3 {
                255u8
            } else {
                pixels[k / 4]
            },
    )
}

/// What a decoded JPEG comes to.
pub open spec fn frame_outcome(raw: RawFrame, r: Result<DecodedFrame, MjpegError>) -> bool {
    if raw.width > MAX_JPEG_DIM || raw.height > MAX_JPEG_DIM {
        r == Err::<DecodedFrame, MjpegError>(
            MjpegError::TooLarge { width: raw.width, height: raw.height },
        )
    } else {
        match raw.format {
            JpegFormat::Rgb24 => {
                &&& r matches Ok(f)
                &&& f.width == raw.width
                &&& f.height == raw.height
                &&& f.bgra@ == bgra_of_rgb(raw.pixels@, raw.width * raw.height)
            },
            JpegFormat::L8 => {
                &&& r matches Ok(f)
                &&& f.width == raw.width
                &&& f.height == raw.height
                &&& f.bgra@ == bgra_of_gray(raw.pixels@, raw.width * raw.height)
            },
            other => r == Err::<DecodedFrame, MjpegError>(
                MjpegError::UnsupportedPixelFormat(other),
            ),
        }
    }
}

/// Reorder the samples of a decoded JPEG into BGRA.
pub fn frame_from(raw: RawFrame) -> (r: Result<DecodedFrame, MjpegError>)
    requires
        raw.complete(),
    ensures
        frame_outcome(raw, r),
{
    let width: u16 = raw.width;
    let height: u16 = raw.height;
    if width > MAX_JPEG_DIM || height > MAX_JPEG_DIM {
        return Err(MjpegError::TooLarge { width, height });
    }
    assert(width * height <= 16384 * 16384) by (nonlinear_arith)
        requires
            width <= 16384,
            height <= 16384,
    ;
    let n: usize = width as usize * height as usize;
    match raw.format {
        JpegFormat::Rgb24 => {
            let bgra = reorder_rgb(&raw.pixels, n);
            Ok(DecodedFrame { width, height, bgra })
        },
        JpegFormat::L8 => {
            let bgra = spread_gray(&raw.pixels, n);
            Ok(DecodedFrame { width, height, bgra })
        },
        other => Err(MjpegError::UnsupportedPixelFormat(other)),
    }
}

fn reorder_rgb(pixels: &Vec<u8>, n: usize) -> (out: Vec<u8>)
    requires
        pixels@.len() >= 3 * n,
        n <= 268435456,
    ensures
        out@ == bgra_of_rgb(pixels@, n as int),
{
    let mut out: Vec<u8> = Vec::with_capacity(n * 4);
    let mut i: usize = 0;
    while i < n
        invariant
            i <= n <= 268435456,
            pixels@.len() >= 3 * n,
            out@ =~= bgra_of_rgb(pixels@, i as int),
        decreases n - i,
    {
        out.push(pixels[i * 3 + 2]);
        out.push(pixels[i * 3 + 1]);
        out.push(pixels[i * 3]);
        out.push(255);
        i = i + 1;
    }
    out
}

fn spread_gray(pixels: &Vec<u8>, n: usize) -> (out: Vec<u8>)
    requires
        pixels@.len() >= n,
        n <= 268435456,
    ensures
        out@ == bgra_of_gray(pixels@, n as int),
{
    let mut out: Vec<u8> = Vec::with_capacity(n * 4);
    let mut i: usize = 0;
    while i < n
        invariant
            i <= n <= 268435456,
            pixels@.len() >= n,
            out@ =~= bgra_of_gray(pixels@, i as int),
        decreases n - i,
    {
        let g: u8 = pixels[i];
        out.push(g);
        out.push(g);
        out.push(g);
        out.push(255);
        i = i + 1;
    }
    out
}

/// What a JPEG decodes to. A frame that is over the cap on an axis is refused
/// by its header alone. Another has the size that the JPEG describes, takes no
/// more samples than the cap, and is made of those that came out of the
/// decoder for this JPEG; which these are, and whether they come, is up to the
/// decoder.
pub open spec fn decodes(jpeg: Seq<u8>, r: Result<DecodedFrame, MjpegError>) -> bool {
    match jpeg_shape(jpeg) {
        None => r matches Err(e) && (e is Jpeg || e is NoDimensions),
        Some((width, height, bytes)) => if width > MAX_JPEG_DIM || height > MAX_JPEG_DIM {
            r == Err::<DecodedFrame, MjpegError>(MjpegError::TooLarge { width, height })
        } else {
            ||| (r matches Err(MjpegError::Jpeg(_)) && jpeg_gives(
                jpeg,
                MAX_JPEG_BYTES as nat,
                None,
            ))
            ||| {
                &&& sample_count(width, height, bytes) <= MAX_JPEG_BYTES
                &&& exists|raw: RawFrame|
                    {
                        &&& raw.width == width
                        &&& raw.height == height
                        &&& raw.format.bytes() == bytes
                        &&& raw.complete()
                        &&& jpeg_gives(jpeg, MAX_JPEG_BYTES as nat, Some(raw.pixels@))
                        &&& #[trigger] frame_outcome(raw, r)
                    }
            }
        },
    }
}

/// Decode a JPEG frame.
pub fn decode(jpeg: &[u8]) -> (r: Result<DecodedFrame, MjpegError>)
    ensures
        decodes(jpeg@, r),
{
    let shape = jpeg_info(jpeg)?;
    let JpegShape { width, height, format } = shape;
    if width > MAX_JPEG_DIM || height > MAX_JPEG_DIM {
        return Err(MjpegError::TooLarge { width, height });
    }
    let pixels = jpeg_decode(jpeg, MAX_JPEG_BYTES)?;
    let raw = RawFrame { width, height, format, pixels };
    let ghost seen = raw;
    let r = frame_from(raw);
    assert(seen.complete() && frame_outcome(seen, r));
    r
}

} // verus!
