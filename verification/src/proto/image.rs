//! `SpiceImage` hierarchy: the payload structure pointed to by every drawing
//! command that needs pixels (e.g. `DRAW_COPY`'s `src_bitmap`).
//!
//! On the wire:
//!
//! ```text
//! SpiceImageDescriptor { id:u64, type:u8, flags:u8, width:u32, height:u32 }
//! (followed by a type-specific payload, e.g. SpiceBitmap for type==BITMAP)
//! ```
//!
//! For `BITMAP`:
//!
//! ```text
//! SpiceBitmap { format:u8, flags:u8, x:u32, y:u32, stride:u32,
//!               palette_ptr:u32, data_ptr:u32 }
//! ```
//!
//! `data_ptr` points into the same message body at a `SpiceChunks`:
//!
//! ```text
//! SpiceChunks { data_size:u32, num_chunks:u32, chunks[num_chunks] }
//! SpiceChunk  { len:u32, bytes:u8[len] }
//! ```

use vstd::prelude::*;

use crate::proto::error::{ProtoError, Result};
use crate::proto::limits;
use crate::proto::limits::{bounded_count, bounded_size, MAX_CHUNK_BYTES, MAX_CHUNK_COUNT};
use crate::proto::types;
use crate::proto::types::{Reader, Writer};
use crate::proto::wire;

pub mod bitmap_flags;
pub mod bitmap_fmt;
pub mod image_type;

verus! {

/// Common header attached to every `SpiceImage`.
#[derive(Debug, Clone, Copy, PartialEq, Eq, Structural)]
pub struct ImageDescriptor {
    pub id: u64,
    pub image_type: u8,
    pub flags: u8,
    pub width: u32,
    pub height: u32,
}

impl ImageDescriptor {
    pub const SIZE: usize = 18;

    /// The image descriptor whose bytes start at `i`.
    pub open spec fn spec_at(s: Seq<u8>, i: int) -> ImageDescriptor {
        ImageDescriptor {
            id: wire::u64_at(s, i),
            image_type: s[i + 8],
            flags: s[i + 9],
            width: wire::u32_at(s, i + 10),
            height: wire::u32_at(s, i + 14),
        }
    }

    /// The bytes of a image descriptor.
    pub open spec fn wire(self) -> Seq<u8> {
        wire::le64(self.id) + seq![self.image_type] + seq![self.flags] + wire::le32(self.width)
            + wire::le32(self.height)
    }

    /// What the bytes from `i` on read as, and where they end.
    pub open spec fn parse_at(s: Seq<u8>, i: int) -> Result<(ImageDescriptor, int)> {
        match wire::short_in(seq![8, 1, 1, 4, 4], s.len() - i) {
            Some(e) => Err(e),
            None => Ok((Self::spec_at(s, i), i + 18)),
        }
    }

    pub fn decode(r: &mut Reader<'_>) -> (res: Result<Self>)
        ensures
            types::reads(*old(r), *final(r), Self::parse_at(old(r).input(), old(r).at()), res),
    {
        proof {
            reveal_with_fuel(wire::short_from, 6);
        }
        Ok(
            Self {
                id: r.u64()?,
                image_type: r.u8()?,
                flags: r.u8()?,
                width: r.u32()?,
                height: r.u32()?,
            },
        )
    }

    pub fn encode(&self, w: &mut Writer)
        ensures
            final(w)@ == old(w)@ + self.wire(),
    {
        w.u64(self.id);
        w.u8(self.image_type);
        w.u8(self.flags);
        w.u32(self.width);
        w.u32(self.height);
        assert(w@ =~= old(w)@ + self.wire());
    }
}

/// An image descriptor reads back as it was written, wherever it stands.
#[verifier::rlimit(50)]
#[verifier::spinoff_prover]
pub proof fn image_descriptor_round_trip(m: ImageDescriptor, head: Seq<u8>, tail: Seq<u8>)
    ensures
        ImageDescriptor::parse_at(head + (m.wire() + tail), head.len() as int) == Ok::<
            (ImageDescriptor, int),
            ProtoError,
        >((m, head.len() as int + 18)),
{
    reveal_with_fuel(wire::short_from, 6);
    let s = m.wire() + tail;
    let all = head + s;
    assert(all.skip(head.len() as int) =~= s);
    wire::lemma_lengths();
    assert(wire::u64_at(s, 0) == m.id) by {
        broadcast use wire::group_parts;

        assert(s.subrange(0, 8) == wire::le64(m.id));
        wire::u64_at_le64(s, 0, m.id);
    }
    assert(s[8] == m.image_type) by {
        broadcast use wire::group_parts;

        assert(s.subrange(8, 9) == seq![m.image_type]);
        assert(s.subrange(8, 9)[0] == s[8]);
    }
    assert(s[9] == m.flags) by {
        broadcast use wire::group_parts;

        assert(s.subrange(9, 10) == seq![m.flags]);
        assert(s.subrange(9, 10)[0] == s[9]);
    }
    assert(wire::u32_at(s, 10) == m.width) by {
        broadcast use wire::group_parts;

        assert(s.subrange(10, 14) == wire::le32(m.width));
        wire::u32_at_le32(s, 10, m.width);
    }
    assert(wire::u32_at(s, 14) == m.height) by {
        broadcast use wire::group_parts;

        assert(s.subrange(14, 18) == wire::le32(m.height));
        wire::u32_at_le32(s, 14, m.height);
    }
    wire::lemma_shifted(head, s, 0);
    assert(all[head.len() as int + 8] == s[8]);
    assert(all[head.len() as int + 9] == s[9]);
    wire::lemma_shifted(head, s, 10);
    wire::lemma_shifted(head, s, 14);
}

/// `SpiceBitmap`: follows an `ImageDescriptor` whose `image_type` is
/// [`image_type::BITMAP`].
#[derive(Debug, Clone, Copy, PartialEq, Eq, Structural)]
pub struct Bitmap {
    pub format: u8,
    pub flags: u8,
    pub width: u32,
    pub height: u32,
    pub stride: u32,
    /// Offset to `SpicePalette` in the message body, or 0.
    pub palette_offset: u32,
    /// Offset to `SpiceChunks` in the message body.
    pub data_offset: u32,
}

impl Bitmap {
    pub const SIZE: usize = 22;

    /// The bitmap whose bytes start at `i`.
    pub open spec fn spec_at(s: Seq<u8>, i: int) -> Bitmap {
        Bitmap {
            format: s[i],
            flags: s[i + 1],
            width: wire::u32_at(s, i + 2),
            height: wire::u32_at(s, i + 6),
            stride: wire::u32_at(s, i + 10),
            palette_offset: wire::u32_at(s, i + 14),
            data_offset: wire::u32_at(s, i + 18),
        }
    }

    /// The bytes of a bitmap.
    pub open spec fn wire(self) -> Seq<u8> {
        seq![self.format] + seq![self.flags] + wire::le32(self.width) + wire::le32(self.height)
            + wire::le32(self.stride) + wire::le32(self.palette_offset)
            + wire::le32(self.data_offset)
    }

    /// What the bytes from `i` on read as, and where they end.
    pub open spec fn parse_at(s: Seq<u8>, i: int) -> Result<(Bitmap, int)> {
        match wire::short_in(seq![1, 1, 4, 4, 4, 4, 4], s.len() - i) {
            Some(e) => Err(e),
            None => Ok((Self::spec_at(s, i), i + 22)),
        }
    }

    pub fn decode(r: &mut Reader<'_>) -> (res: Result<Self>)
        ensures
            types::reads(*old(r), *final(r), Self::parse_at(old(r).input(), old(r).at()), res),
    {
        proof {
            reveal_with_fuel(wire::short_from, 8);
        }
        Ok(
            Self {
                format: r.u8()?,
                flags: r.u8()?,
                width: r.u32()?,
                height: r.u32()?,
                stride: r.u32()?,
                palette_offset: r.u32()?,
                data_offset: r.u32()?,
            },
        )
    }

    pub fn encode(&self, w: &mut Writer)
        ensures
            final(w)@ == old(w)@ + self.wire(),
    {
        w.u8(self.format);
        w.u8(self.flags);
        w.u32(self.width);
        w.u32(self.height);
        w.u32(self.stride);
        w.u32(self.palette_offset);
        w.u32(self.data_offset);
        assert(w@ =~= old(w)@ + self.wire());
    }

    /// Rows run from the top: the low bit of the flags.
    pub fn is_top_down(&self) -> (b: bool)
        ensures
            b == (self.flags % 2 == 1),
    {
        self.flags % 2 == 1
    }
}

/// A bitmap reads back as it was written, wherever it stands.
#[verifier::rlimit(50)]
#[verifier::spinoff_prover]
pub proof fn bitmap_round_trip(m: Bitmap, head: Seq<u8>, tail: Seq<u8>)
    ensures
        Bitmap::parse_at(head + (m.wire() + tail), head.len() as int) == Ok::<(Bitmap, int), ProtoError>(
            (m, head.len() as int + 22),
        ),
{
    reveal_with_fuel(wire::short_from, 8);
    let s = m.wire() + tail;
    let all = head + s;
    assert(all.skip(head.len() as int) =~= s);
    wire::lemma_lengths();
    assert(s[0] == m.format) by {
        broadcast use wire::group_parts;

        assert(s.subrange(0, 1) == seq![m.format]);
        assert(s.subrange(0, 1)[0] == s[0]);
    }
    assert(s[1] == m.flags) by {
        broadcast use wire::group_parts;

        assert(s.subrange(1, 2) == seq![m.flags]);
        assert(s.subrange(1, 2)[0] == s[1]);
    }
    assert(wire::u32_at(s, 2) == m.width) by {
        broadcast use wire::group_parts;

        assert(s.subrange(2, 6) == wire::le32(m.width));
        wire::u32_at_le32(s, 2, m.width);
    }
    assert(wire::u32_at(s, 6) == m.height) by {
        broadcast use wire::group_parts;

        assert(s.subrange(6, 10) == wire::le32(m.height));
        wire::u32_at_le32(s, 6, m.height);
    }
    assert(wire::u32_at(s, 10) == m.stride) by {
        broadcast use wire::group_parts;

        assert(s.subrange(10, 14) == wire::le32(m.stride));
        wire::u32_at_le32(s, 10, m.stride);
    }
    assert(wire::u32_at(s, 14) == m.palette_offset) by {
        broadcast use wire::group_parts;

        assert(s.subrange(14, 18) == wire::le32(m.palette_offset));
        wire::u32_at_le32(s, 14, m.palette_offset);
    }
    assert(wire::u32_at(s, 18) == m.data_offset) by {
        broadcast use wire::group_parts;

        assert(s.subrange(18, 22) == wire::le32(m.data_offset));
        wire::u32_at_le32(s, 18, m.data_offset);
    }
    assert(all[head.len() as int + 0] == s[0]);
    assert(all[head.len() as int + 1] == s[1]);
    wire::lemma_shifted(head, s, 2);
    wire::lemma_shifted(head, s, 6);
    wire::lemma_shifted(head, s, 10);
    wire::lemma_shifted(head, s, 14);
    wire::lemma_shifted(head, s, 18);
}

/// The bytes of `n` chunks from position `i` on, added to `out`.
pub open spec fn chunks_at(s: Seq<u8>, i: int, n: nat, out: Seq<u8>) -> Result<Seq<u8>>
    decreases n,
{
    if n == 0 {
        Ok(out)
    } else if i + 4 > s.len() {
        Err(ProtoError::Short { need: 4, have: (s.len() - i) as usize })
    } else {
        let len = wire::u32_at(s, i);
        if i + 4 + len > s.len() {
            Err(ProtoError::Short { need: len as usize, have: (s.len() - i - 4) as usize })
        } else {
            chunks_at(s, i + 4 + len, (n - 1) as nat, out + s.subrange(i + 4, i + 4 + len))
        }
    }
}

/// The bytes of the `SpiceChunks` at `offset`. Both of its counts are bounded
/// before anything is allocated for them.
pub open spec fn chunks_of(body: Seq<u8>, offset: u32) -> Result<Seq<u8>> {
    if offset + 8 > body.len() {
        Err(
            ProtoError::Short {
                need: 8,
                have: if body.len() > offset {
                    (body.len() - offset) as usize
                } else {
                    0
                },
            },
        )
    } else {
        let s = body.skip(offset as int);
        match limits::bounded(wire::u32_at(s, 0), MAX_CHUNK_BYTES) {
            Err(e) => Err(e),
            Ok(data_size) => match limits::bounded(wire::u32_at(s, 4), MAX_CHUNK_COUNT) {
                Err(e) => Err(e),
                Ok(num_chunks) => match chunks_at(s, 8, num_chunks as nat, Seq::empty()) {
                    Err(e) => Err(e),
                    Ok(out) => if out.len() != data_size {
                        Err(ProtoError::Short { need: data_size, have: out.len() as usize })
                    } else {
                        Ok(out)
                    },
                },
            },
        }
    }
}

/// Collect the bytes of a `SpiceChunks` object at `offset` inside `msg_body`
/// into a single flat buffer (concatenating chunks in order).
pub fn read_chunks(msg_body: &[u8], offset: u32) -> (res: Result<Vec<u8>>)
    ensures
        match chunks_of(msg_body@, offset) {
            Ok(bytes) => res matches Ok(v) && v@ == bytes && v@.len() <= MAX_CHUNK_BYTES,
            Err(e) => res == Err::<Vec<u8>, ProtoError>(e),
        },
{
    let len: usize = msg_body.len();
    if offset as u64 + 8 > len as u64 {
        let have: usize = if len as u64 > offset as u64 {
            len - offset as usize
        } else {
            0
        };
        return Err(ProtoError::Short { need: 8, have });
    }
    let rest = vstd::slice::slice_subrange(msg_body, offset as usize, len);
    let ghost s = msg_body@.skip(offset as int);
    assert(rest@ =~= s);
    let mut r = Reader::new(rest);
    let data_size: usize = bounded_size(r.u32()?, MAX_CHUNK_BYTES)?;
    let num_chunks: usize = bounded_count(r.u32()?, MAX_CHUNK_COUNT)?;
    let mut out: Vec<u8> = Vec::new();
    let mut i: usize = 0;
    assert(out@ =~= Seq::<u8>::empty());
    while i < num_chunks
        invariant
            i <= num_chunks,
            r.input() == s,
            s == msg_body@.skip(offset as int),
            0 <= r.at() <= s.len() <= usize::MAX,
            offset + 8 <= msg_body@.len(),
            limits::bounded(wire::u32_at(s, 0), MAX_CHUNK_BYTES) == Ok::<usize, ProtoError>(
                data_size,
            ),
            limits::bounded(wire::u32_at(s, 4), MAX_CHUNK_COUNT) == Ok::<usize, ProtoError>(
                num_chunks,
            ),
            chunks_at(s, 8, num_chunks as nat, Seq::empty()) == chunks_at(
                s,
                r.at(),
                (num_chunks - i) as nat,
                out@,
            ),
        decreases num_chunks - i,
    {
        let n: u32 = r.u32()?;
        let ghost before = out@;
        let ghost at = r.at();
        let bytes = r.bytes(n as usize)?;
        out.extend_from_slice(bytes);
        assert(out@ =~= before + s.subrange(at, at + n));
        i = i + 1;
    }
    if out.len() != data_size {
        return Err(ProtoError::Short { need: data_size, have: out.len() });
    }
    Ok(out)
}

/// The bytes of a `SpiceChunks` of one chunk.
pub open spec fn single_chunk(data: Seq<u8>) -> Seq<u8> {
    let n = (data.len() % 4294967296) as u32;
    wire::le32(n) + wire::le32(1) + wire::le32(n) + data
}

/// Encode a single-chunk `SpiceChunks` into a new buffer.
pub fn encode_single_chunk(data: &[u8]) -> (out: Vec<u8>)
    ensures
        out@ == single_chunk(data@),
{
    let n: u32 = (data.len() as u64 % 4294967296) as u32;
    let mut w = Writer::new();
    w.u32(n);
    w.u32(1);
    w.u32(n);
    w.bytes(data);
    assert(w@ =~= single_chunk(data@));
    w.into_vec()
}

/// A single chunk within the cap reads back as it was written, wherever it
/// stands.
#[verifier::rlimit(50)]
#[verifier::spinoff_prover]
pub proof fn single_chunk_round_trip(head: Seq<u8>, data: Seq<u8>, tail: Seq<u8>)
    requires
        data.len() <= MAX_CHUNK_BYTES,
        head.len() <= u32::MAX,
    ensures
        chunks_of(head + (single_chunk(data) + tail), head.len() as u32) == Ok::<
            Seq<u8>,
            ProtoError,
        >(data),
{
    reveal_with_fuel(chunks_at, 2);
    wire::lemma_lengths();
    let n = data.len() as u32;
    let s = single_chunk(data) + tail;
    let body = head + s;
    assert(body.skip(head.len() as int) =~= s);
    assert(s.subrange(0, 4) =~= wire::le32(n));
    assert(s.subrange(4, 8) =~= wire::le32(1));
    assert(s.subrange(8, 12) =~= wire::le32(n));
    wire::u32_at_le32(s, 0, n);
    wire::u32_at_le32(s, 4, 1);
    wire::u32_at_le32(s, 8, n);
    assert(Seq::<u8>::empty() + s.subrange(12, 12 + n) =~= data);
}

/// Bytes per pixel for formats whose storage is understood.
pub fn bitmap_bytes_per_pixel(format: u8) -> (r: Option<u32>)
    ensures
        r == bytes_per_pixel(format),
{
    if format == bitmap_fmt::_16BIT {
        Some(2)
    } else if format == bitmap_fmt::_24BIT {
        Some(3)
    } else if format == bitmap_fmt::_32BIT || format == bitmap_fmt::RGBA {
        Some(4)
    } else if format == bitmap_fmt::_8BIT || format == bitmap_fmt::_8BIT_A {
        Some(1)
    } else {
        None
    }
}

/// Bytes per pixel for formats whose storage is understood.
pub open spec fn bytes_per_pixel(format: u8) -> Option<u32> {
    match format {
        5 => Some(1),
        6 => Some(2),
        7 => Some(3),
        8 => Some(4),
        9 => Some(4),
        10 => Some(1),
        _ => None,
    }
}

} // verus!
