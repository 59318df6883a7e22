//! A decoder that keeps its own dictionary, for embedders that decode image by
//! image.

use vstd::prelude::*;

use crate::glz::codec;
use crate::glz::codec::decompress_rgb32;
use crate::glz::error::Result;
use crate::glz::header::GlzHeader;
use crate::glz::window::{GlzWindow, Image, Images};

verus! {

/// Per-session GLZ image dictionary. GLZ frames can reference pixels from
/// images sent earlier on the same display channel, so the embedder must keep
/// one `GlzDecoder` per SPICE session and feed every successful decode back
/// with [`GlzDecoder::insert`].
#[derive(Debug)]
pub struct GlzDecoder {
    window: GlzWindow,
}

impl View for GlzDecoder {
    type V = Images;

    closed spec fn view(&self) -> Images {
        self.window@
    }
}

impl GlzDecoder {
    /// The dictionary keeps its books.
    pub closed spec fn wf(self) -> bool {
        self.window.wf()
    }

    /// The byte budget.
    pub closed spec fn capacity(self) -> nat {
        self.window.capacity()
    }

    /// A dictionary that keeps its books lists each of its images once, and
    /// counts their bytes in a machine word.
    pub proof fn books_are_sound(self)
        requires
            self.wf(),
        ensures
            self@.ok(),
            self@.bytes() <= usize::MAX,
    {
        self.window.books_are_sound();
    }

    /// Create a decoder with `capacity_bytes` of backing dictionary storage, at
    /// least 1 KiB. SPICE's default is 64 MiB; mobile and browser embedders
    /// often tighten this to 16 to 32 MiB.
    pub fn new(capacity_bytes: usize) -> (d: Self)
        ensures
            d.wf(),
            d@.order == Seq::<u64>::empty(),
            d@.images == Map::<u64, Image>::empty(),
            d.capacity() == if capacity_bytes > 1024 {
                capacity_bytes as nat
            } else {
                1024
            },
    {
        Self { window: GlzWindow::new(capacity_bytes) }
    }

    /// Bytes currently held in the dictionary.
    pub fn bytes_used(&self) -> (n: usize)
        requires
            self.wf(),
        ensures
            n == self@.bytes(),
    {
        self.window.bytes_used()
    }

    /// Drop all dictionary entries. Call on session restart.
    pub fn clear(&mut self)
        ensures
            final(self).wf(),
            final(self)@.order == Seq::<u64>::empty(),
            final(self)@.images == Map::<u64, Image>::empty(),
            final(self).capacity() == old(self).capacity(),
    {
        self.window.clear();
    }

    /// Decode a GLZ `RGB32` image: a stream with its GLZ header.
    ///
    /// The caller must then pass the decoded bytes to [`GlzDecoder::insert`],
    /// keyed by the image id, so later frames can reference this image.
    pub fn decode_rgb32(&self, stream: &[u8]) -> (r: Result<DecodedGlz>)
        ensures
            exists|h: Result<GlzHeader>| #[trigger]
                GlzHeader::reads(stream@, h) && match h {
                    Err(e) => r == Err::<DecodedGlz, _>(e),
                    Ok(h) => match codec::rgb32_image(stream@, h, Some(self@.images)) {
                        Err(e) => r == Err::<DecodedGlz, _>(e),
                        Ok(pixels) => r matches Ok(d) && d@ == (Picture {
                            id: h.id,
                            width: h.width,
                            height: h.height,
                            pixels,
                        }),
                    },
                },
    {
        let header = GlzHeader::decode(stream)?;
        let pixels = decompress_rgb32(stream, &header, &self.window)?;
        Ok(DecodedGlz { id: header.id, width: header.width, height: header.height, pixels })
    }

    /// Insert a fully decoded image into the dictionary, keyed by its
    /// server-assigned `id`. `bpp` is in bits: 32 for RGB32/RGBA, 16 for
    /// RGB16.
    pub fn insert(&mut self, id: u64, pixels: Vec<u8>, bpp: u32)
        requires
            old(self).wf(),
        ensures
            final(self).wf(),
            final(self)@ == old(self)@.with(id, (Image { pixels: pixels@, bpp: bpp / 8 })).evicted(
                old(self).capacity(),
            ),
            final(self).capacity() == old(self).capacity(),
            final(self)@.bytes() <= old(self).capacity() || final(self)@.order == seq![id],
    {
        self.window.insert(id, pixels, bpp / 8);
    }
}

/// What a [`DecodedGlz`] holds.
pub struct Picture {
    pub id: u64,
    pub width: u32,
    pub height: u32,
    pub pixels: Seq<u8>,
}

/// Result of a GLZ decode: the image id and dimensions, and the decoded BGRA
/// bytes.
#[derive(Debug)]
pub struct DecodedGlz {
    id: u64,
    width: u32,
    height: u32,
    pixels: Vec<u8>,
}

impl View for DecodedGlz {
    type V = Picture;

    closed spec fn view(&self) -> Picture {
        Picture { id: self.id, width: self.width, height: self.height, pixels: self.pixels@ }
    }
}

impl DecodedGlz {
    pub fn id(&self) -> (id: u64)
        ensures
            id == self@.id,
    {
        self.id
    }

    pub fn width(&self) -> (w: u32)
        ensures
            w == self@.width,
    {
        self.width
    }

    pub fn height(&self) -> (h: u32)
        ensures
            h == self@.height,
    {
        self.height
    }

    /// Move the pixel buffer out.
    pub fn take_pixels(self) -> (p: Vec<u8>)
        ensures
            p@ == self@.pixels,
    {
        self.pixels
    }

    /// A copy of the pixel buffer, for when the caller wants both the pixels
    /// and the metadata.
    pub fn pixels_copy(&self) -> (p: Vec<u8>)
        ensures
            p@ == self@.pixels,
    {
        let p = self.pixels.clone();
        assert(p@ =~= self.pixels@);
        p
    }
}

} // verus!
