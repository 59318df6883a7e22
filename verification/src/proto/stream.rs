//! Display-channel stream messages: `STREAM_CREATE`, `STREAM_DATA`,
//! `STREAM_DATA_SIZED`, `STREAM_CLIP`, `STREAM_DESTROY`, `STREAM_DESTROY_ALL`.
//!
//! Streams carry a sequence of pre-encoded video frames (MJPEG, VP8/9,
//! H.264/5) for a region of a surface. The server uses them when it detects
//! sustained motion (cursor area, scrolling, video).

use vstd::prelude::*;
use vstd::slice::slice_to_vec;

use crate::proto::draw;
use crate::proto::draw::Clip;
use crate::proto::error::{ProtoError, Result};
use crate::proto::types;
use crate::proto::types::{Reader, Rect, Writer};
use crate::proto::wire;

pub mod stream_flags;

verus! {

/// How the frames of a stream are encoded.
#[derive(Debug, Clone, Copy, PartialEq, Eq, Structural)]
pub enum VideoCodec {
    Mjpeg,
    Vp8,
    H264,
    Vp9,
    H265,
}

impl VideoCodec {
    /// The number that stands for this codec on the wire.
    pub open spec fn code(self) -> u8 {
        match self {
            VideoCodec::Mjpeg => 1,
            VideoCodec::Vp8 => 2,
            VideoCodec::H264 => 3,
            VideoCodec::Vp9 => 4,
            VideoCodec::H265 => 5,
        }
    }

    /// The codec of a number.
    pub open spec fn of(v: u8) -> Result<VideoCodec> {
        match v {
            1 => Ok(VideoCodec::Mjpeg),
            2 => Ok(VideoCodec::Vp8),
            3 => Ok(VideoCodec::H264),
            4 => Ok(VideoCodec::Vp9),
            5 => Ok(VideoCodec::H265),
            _ => Err(ProtoError::BadChannelType(v)),
        }
    }

    /// The number that stands for this codec on the wire.
    pub fn to_u8(self) -> (v: u8)
        ensures
            v == self.code(),
    {
        match self {
            VideoCodec::Mjpeg => 1,
            VideoCodec::Vp8 => 2,
            VideoCodec::H264 => 3,
            VideoCodec::Vp9 => 4,
            VideoCodec::H265 => 5,
        }
    }

    pub fn from_u8(v: u8) -> (r: Result<Self>)
        ensures
            r == Self::of(v),
    {
        match v {
            1 => Ok(VideoCodec::Mjpeg),
            2 => Ok(VideoCodec::Vp8),
            3 => Ok(VideoCodec::H264),
            4 => Ok(VideoCodec::Vp9),
            5 => Ok(VideoCodec::H265),
            _ => Err(ProtoError::BadChannelType(v)),
        }
    }
}

/// `MSG_DISPLAY_STREAM_CREATE`.
#[derive(Debug, Clone, Copy, PartialEq, Eq, Structural)]
pub struct StreamCreate {
    pub surface_id: u32,
    pub stream_id: u32,
    pub flags: u8,
    pub codec: VideoCodec,
    pub stamp: u64,
    pub stream_width: u32,
    pub stream_height: u32,
    pub src_width: u32,
    pub src_height: u32,
    pub dest: Rect,
    pub clip: Clip,
}

impl StreamCreate {
    /// The fields before the codec.
    pub open spec fn front_wire(self) -> Seq<u8> {
        wire::le32(self.surface_id) + wire::le32(self.stream_id) + seq![self.flags]
            + seq![self.codec.code()]
    }

    /// The numbers after the codec.
    pub open spec fn sizes_wire(self) -> Seq<u8> {
        wire::le64(self.stamp) + wire::le32(self.stream_width) + wire::le32(self.stream_height)
            + wire::le32(self.src_width) + wire::le32(self.src_height)
    }

    /// The bytes of a stream-create message.
    pub open spec fn wire(self) -> Seq<u8> {
        self.front_wire() + self.sizes_wire() + self.dest.wire() + self.clip.wire()
    }

    /// What a message body reads as.
    pub open spec fn parse(s: Seq<u8>) -> Result<StreamCreate> {
        match wire::short_in(seq![4, 4, 1, 1], s.len() as int) {
            Some(e) => Err(e),
            None => match VideoCodec::of(s[9]) {
                Err(e) => Err(e),
                Ok(codec) => match wire::short_in(seq![8, 4, 4, 4, 4], s.len() - 10) {
                    Some(e) => Err(e),
                    None => match Rect::parse_at(s, 34) {
                        Err(e) => Err(e),
                        Ok((dest, i)) => match Clip::parse_at(s, i) {
                            Err(e) => Err(e),
                            Ok((clip, _)) => Ok(
                                StreamCreate {
                                    surface_id: wire::u32_at(s, 0),
                                    stream_id: wire::u32_at(s, 4),
                                    flags: s[8],
                                    codec,
                                    stamp: wire::u64_at(s, 10),
                                    stream_width: wire::u32_at(s, 18),
                                    stream_height: wire::u32_at(s, 22),
                                    src_width: wire::u32_at(s, 26),
                                    src_height: wire::u32_at(s, 30),
                                    dest,
                                    clip,
                                },
                            ),
                        },
                    },
                },
            },
        }
    }

    pub fn decode(buf: &[u8]) -> (res: Result<Self>)
        ensures
            res == Self::parse(buf@),
    {
        proof {
            reveal_with_fuel(wire::short_from, 6);
        }
        let mut r = Reader::new(buf);
        let surface_id: u32 = r.u32()?;
        let stream_id: u32 = r.u32()?;
        let flags: u8 = r.u8()?;
        let codec = VideoCodec::from_u8(r.u8()?)?;
        let stamp: u64 = r.u64()?;
        let stream_width: u32 = r.u32()?;
        let stream_height: u32 = r.u32()?;
        let src_width: u32 = r.u32()?;
        let src_height: u32 = r.u32()?;
        let dest = Rect::decode(&mut r)?;
        let clip = Clip::decode(&mut r)?;
        Ok(
            Self {
                surface_id,
                stream_id,
                flags,
                codec,
                stamp,
                stream_width,
                stream_height,
                src_width,
                src_height,
                dest,
                clip,
            },
        )
    }

    pub fn encode(&self, w: &mut Writer)
        ensures
            final(w)@ == old(w)@ + self.wire(),
    {
        let ghost start = w@;
        w.u32(self.surface_id);
        w.u32(self.stream_id);
        w.u8(self.flags);
        w.u8(self.codec.to_u8());
        assert(w@ =~= start + self.front_wire());
        let ghost mid = w@;
        w.u64(self.stamp);
        w.u32(self.stream_width);
        w.u32(self.stream_height);
        w.u32(self.src_width);
        w.u32(self.src_height);
        assert(w@ =~= mid + self.sizes_wire());
        self.dest.encode(w);
        self.clip.encode(w);
        assert(w@ =~= start + self.wire());
    }

    /// Rows run from the top: the low bit of the flags.
    pub fn is_top_down(&self) -> (b: bool)
        ensures
            b == (self.flags % 2 == 1),
    {
        self.flags % 2 == 1
    }
}

proof fn lemma_front(m: StreamCreate, tail: Seq<u8>)
    ensures
        ({
            let s = m.front_wire() + tail;
            &&& wire::u32_at(s, 0) == m.surface_id
            &&& wire::u32_at(s, 4) == m.stream_id
            &&& s[8] == m.flags
            &&& s[9] == m.codec.code()
        }),
        m.front_wire().len() == 10,
{
    wire::lemma_lengths();
    let s = m.front_wire() + tail;
    assert(s.subrange(0, 4) =~= wire::le32(m.surface_id));
    assert(s.subrange(4, 8) =~= wire::le32(m.stream_id));
    wire::u32_at_le32(s, 0, m.surface_id);
    wire::u32_at_le32(s, 4, m.stream_id);
}

proof fn lemma_sizes(m: StreamCreate, tail: Seq<u8>)
    ensures
        ({
            let s = m.sizes_wire() + tail;
            &&& wire::u64_at(s, 0) == m.stamp
            &&& wire::u32_at(s, 8) == m.stream_width
            &&& wire::u32_at(s, 12) == m.stream_height
            &&& wire::u32_at(s, 16) == m.src_width
            &&& wire::u32_at(s, 20) == m.src_height
        }),
        m.sizes_wire().len() == 24,
{
    wire::lemma_lengths();
    let s = m.sizes_wire() + tail;
    assert(s.subrange(0, 8) == wire::le64(m.stamp) && s.subrange(8, 12) == wire::le32(
        m.stream_width,
    ) && s.subrange(12, 16) == wire::le32(m.stream_height) && s.subrange(16, 20) == wire::le32(
        m.src_width,
    ) && s.subrange(20, 24) == wire::le32(m.src_height)) by {
        broadcast use wire::group_parts;

    }
    wire::u64_at_le64(s, 0, m.stamp);
    wire::u32_at_le32(s, 8, m.stream_width);
    wire::u32_at_le32(s, 12, m.stream_height);
    wire::u32_at_le32(s, 16, m.src_width);
    wire::u32_at_le32(s, 20, m.src_height);
}

proof fn lemma_parse_create(m: StreamCreate, s: Seq<u8>, end: int)
    requires
        34 <= s.len(),
        wire::u32_at(s, 0) == m.surface_id,
        wire::u32_at(s, 4) == m.stream_id,
        s[8] == m.flags,
        s[9] == m.codec.code(),
        wire::u64_at(s, 10) == m.stamp,
        wire::u32_at(s, 18) == m.stream_width,
        wire::u32_at(s, 22) == m.stream_height,
        wire::u32_at(s, 26) == m.src_width,
        wire::u32_at(s, 30) == m.src_height,
        Rect::parse_at(s, 34) == Ok::<(Rect, int), ProtoError>((m.dest, 50)),
        Clip::parse_at(s, 50) == Ok::<(Clip, int), ProtoError>((m.clip, end)),
    ensures
        StreamCreate::parse(s) == Ok::<StreamCreate, ProtoError>(m),
{
    reveal_with_fuel(wire::short_from, 6);
}

/// A stream-create message reads back as it was written, whatever follows it.
#[verifier::rlimit(50)]
#[verifier::spinoff_prover]
pub proof fn stream_create_round_trip(m: StreamCreate, tail: Seq<u8>)
    ensures
        StreamCreate::parse(m.wire() + tail) == Ok::<StreamCreate, ProtoError>(m),
{
    let front = m.front_wire();
    let sizes = m.sizes_wire();
    let dest = m.dest.wire();
    let clip = m.clip.wire();
    let s = m.wire() + tail;
    lemma_front(m, sizes + dest + clip + tail);
    lemma_sizes(m, dest + clip + tail);
    wire::lemma_lengths();
    assert(dest.len() == 16);
    assert(s =~= front + (sizes + dest + clip + tail));
    assert(s =~= front + (sizes + (dest + clip + tail)));
    let rest = sizes + (dest + clip + tail);
    wire::lemma_shifted(front, rest, 0);
    wire::lemma_shifted(front, rest, 8);
    wire::lemma_shifted(front, rest, 12);
    wire::lemma_shifted(front, rest, 16);
    wire::lemma_shifted(front, rest, 20);
    assert(s =~= (front + sizes) + (dest + (clip + tail)));
    assert(s =~= (front + sizes + dest) + (clip + tail));
    types::rect_round_trip(m.dest, front + sizes, clip + tail);
    draw::clip_round_trip(m.clip, front + sizes + dest, tail);
    lemma_parse_create(m, s, 50 + clip.len() as int);
}

/// Shared prefix of stream payload messages.
#[derive(Debug, Clone, Copy, PartialEq, Eq, Structural)]
pub struct StreamDataHeader {
    pub stream_id: u32,
    pub multi_media_time: u32,
}

impl StreamDataHeader {
    /// The stream-data header whose bytes start at `i`.
    pub open spec fn spec_at(s: Seq<u8>, i: int) -> StreamDataHeader {
        StreamDataHeader {
            stream_id: wire::u32_at(s, i),
            multi_media_time: wire::u32_at(s, i + 4),
        }
    }

    /// The bytes of a stream-data header.
    pub open spec fn wire(self) -> Seq<u8> {
        wire::le32(self.stream_id) + wire::le32(self.multi_media_time)
    }

    /// What the bytes from `i` on read as, and where they end.
    pub open spec fn parse_at(s: Seq<u8>, i: int) -> Result<(StreamDataHeader, int)> {
        match wire::short_in(seq![4, 4], s.len() - i) {
            Some(e) => Err(e),
            None => Ok((Self::spec_at(s, i), i + 8)),
        }
    }

    pub fn decode(r: &mut Reader<'_>) -> (res: Result<Self>)
        ensures
            types::reads(*old(r), *final(r), Self::parse_at(old(r).input(), old(r).at()), res),
    {
        proof {
            reveal_with_fuel(wire::short_from, 3);
        }
        Ok(
            Self {
                stream_id: r.u32()?,
                multi_media_time: r.u32()?,
            },
        )
    }

    pub fn encode(&self, w: &mut Writer)
        ensures
            final(w)@ == old(w)@ + self.wire(),
    {
        w.u32(self.stream_id);
        w.u32(self.multi_media_time);
        assert(w@ =~= old(w)@ + self.wire());
    }
}

/// A stream-data header reads back as it was written, wherever it stands.
#[verifier::rlimit(50)]
#[verifier::spinoff_prover]
pub proof fn stream_data_header_round_trip(m: StreamDataHeader, head: Seq<u8>, tail: Seq<u8>)
    ensures
        StreamDataHeader::parse_at(head + (m.wire() + tail), head.len() as int) == Ok::<
            (StreamDataHeader, int),
            ProtoError,
        >((m, head.len() as int + 8)),
{
    reveal_with_fuel(wire::short_from, 3);
    let s = m.wire() + tail;
    let all = head + s;
    assert(all.skip(head.len() as int) =~= s);
    wire::lemma_lengths();
    assert(wire::u32_at(s, 0) == m.stream_id) by {
        broadcast use wire::group_parts;

        assert(s.subrange(0, 4) == wire::le32(m.stream_id));
        wire::u32_at_le32(s, 0, m.stream_id);
    }
    assert(wire::u32_at(s, 4) == m.multi_media_time) by {
        broadcast use wire::group_parts;

        assert(s.subrange(4, 8) == wire::le32(m.multi_media_time));
        wire::u32_at_le32(s, 4, m.multi_media_time);
    }
    wire::lemma_shifted(head, s, 0);
    wire::lemma_shifted(head, s, 4);
}

/// `MSG_DISPLAY_STREAM_DESTROY`.
#[derive(Debug, Clone, Copy, PartialEq, Eq, Structural)]
pub struct StreamDestroy {
    pub stream_id: u32,
}

impl StreamDestroy {
    /// The stream-destroy message whose bytes start at `i`.
    pub open spec fn spec_at(s: Seq<u8>, i: int) -> StreamDestroy {
        StreamDestroy {
            stream_id: wire::u32_at(s, i),
        }
    }

    /// The bytes of a stream-destroy message.
    pub open spec fn wire(self) -> Seq<u8> {
        wire::le32(self.stream_id)
    }

    /// What a message body reads as.
    pub open spec fn parse(s: Seq<u8>) -> Result<StreamDestroy> {
        match wire::short_in(seq![4], s.len() as int) {
            Some(e) => Err(e),
            None => Ok(Self::spec_at(s, 0)),
        }
    }

    pub fn decode(buf: &[u8]) -> (res: Result<Self>)
        ensures
            res == Self::parse(buf@),
    {
        proof {
            reveal_with_fuel(wire::short_from, 2);
        }
        let mut r = Reader::new(buf);
        Ok(
            Self {
                stream_id: r.u32()?,
            },
        )
    }

    pub fn encode(&self, w: &mut Writer)
        ensures
            final(w)@ == old(w)@ + self.wire(),
    {
        w.u32(self.stream_id);
        assert(w@ =~= old(w)@ + self.wire());
    }
}

/// A stream-destroy message reads back as it was written, whatever follows it.
#[verifier::rlimit(50)]
#[verifier::spinoff_prover]
pub proof fn stream_destroy_round_trip(m: StreamDestroy, tail: Seq<u8>)
    ensures
        StreamDestroy::parse(m.wire() + tail) == Ok::<StreamDestroy, ProtoError>(m),
{
    reveal_with_fuel(wire::short_from, 2);
    let s = m.wire() + tail;
    wire::lemma_lengths();
    assert(wire::u32_at(s, 0) == m.stream_id) by {
        broadcast use wire::group_parts;

        assert(s.subrange(0, 4) == wire::le32(m.stream_id));
        wire::u32_at_le32(s, 0, m.stream_id);
    }
}

/// `MSG_DISPLAY_STREAM_DATA`. The payload is copied out of the wire buffer for
/// handoff to the codec.
#[derive(Debug, Clone, PartialEq, Eq)]
pub struct StreamData {
    pub header: StreamDataHeader,
    pub data: Vec<u8>,
}

/// The payload whose length stands at `i`.
pub open spec fn payload_at(s: Seq<u8>, i: int) -> Result<Seq<u8>> {
    if i + 4 > s.len() {
        Err(ProtoError::Short { need: 4, have: (s.len() - i) as usize })
    } else {
        let n = wire::u32_at(s, i);
        if i + 4 + n > s.len() {
            Err(ProtoError::Short { need: n as usize, have: (s.len() - i - 4) as usize })
        } else {
            Ok(s.subrange(i + 4, i + 4 + n))
        }
    }
}

/// A payload and its length.
pub open spec fn payload_wire(data: Seq<u8>) -> Seq<u8> {
    wire::le32((data.len() % 4294967296) as u32) + data
}

proof fn lemma_payload(head: Seq<u8>, data: Seq<u8>, tail: Seq<u8>)
    requires
        data.len() <= u32::MAX,
    ensures
        payload_at(head + (payload_wire(data) + tail), head.len() as int) == Ok::<
            Seq<u8>,
            ProtoError,
        >(data),
{
    wire::lemma_lengths();
    let n = data.len() as u32;
    let s = payload_wire(data) + tail;
    assert(s.subrange(0, 4) =~= wire::le32(n));
    wire::u32_at_le32(s, 0, n);
    wire::lemma_shifted(head, s, 0);
    let i = head.len() as int;
    assert((head + s).subrange(i + 4, i + 4 + n) =~= data);
}

impl StreamData {
    /// The bytes of a stream-data message.
    pub open spec fn wire(self) -> Seq<u8> {
        self.header.wire() + payload_wire(self.data@)
    }

    /// A message body reads as `res`.
    pub open spec fn reads(s: Seq<u8>, res: Result<StreamData>) -> bool {
        match StreamDataHeader::parse_at(s, 0) {
            Err(e) => res == Err::<StreamData, _>(e),
            Ok((header, i)) => match payload_at(s, i) {
                Err(e) => res == Err::<StreamData, _>(e),
                Ok(data) => res matches Ok(m) && m.header == header && m.data@ == data,
            },
        }
    }

    pub fn decode(buf: &[u8]) -> (res: Result<Self>)
        ensures
            Self::reads(buf@, res),
    {
        let mut r = Reader::new(buf);
        let header = StreamDataHeader::decode(&mut r)?;
        let data_size: u32 = r.u32()?;
        let data = slice_to_vec(r.bytes(data_size as usize)?);
        Ok(Self { header, data })
    }

    pub fn encode(&self, w: &mut Writer)
        ensures
            final(w)@ == old(w)@ + self.wire(),
    {
        self.header.encode(w);
        w.u32((self.data.len() as u64 % 4294967296) as u32);
        w.bytes(self.data.as_slice());
        assert(w@ =~= old(w)@ + self.wire());
    }
}

/// A stream-data message whose payload is below 4 GiB reads back as it was
/// written, whatever follows it.
#[verifier::rlimit(50)]
#[verifier::spinoff_prover]
pub proof fn stream_data_round_trip(m: StreamData, tail: Seq<u8>, res: Result<StreamData>)
    requires
        m.data@.len() <= u32::MAX,
        StreamData::reads(m.wire() + tail, res),
    ensures
        res matches Ok(n) && n.header == m.header && n.data@ == m.data@,
{
    let head = m.header.wire();
    let s = m.wire() + tail;
    wire::lemma_lengths();
    assert(s =~= Seq::<u8>::empty() + (head + (payload_wire(m.data@) + tail)));
    assert(s =~= head + (payload_wire(m.data@) + tail));
    stream_data_header_round_trip(m.header, Seq::empty(), payload_wire(m.data@) + tail);
    lemma_payload(head, m.data@, tail);
}

/// `MSG_DISPLAY_STREAM_DATA_SIZED`. The frame carries its own dimensions and
/// destination, useful when the stream has been resized on the fly.
#[derive(Debug, Clone, PartialEq, Eq)]
pub struct StreamDataSized {
    pub header: StreamDataHeader,
    pub width: u32,
    pub height: u32,
    pub dest: Rect,
    pub data: Vec<u8>,
}

impl StreamDataSized {
    /// The bytes of a sized stream-data message.
    pub open spec fn wire(self) -> Seq<u8> {
        self.header.wire() + (wire::le32(self.width) + wire::le32(self.height)) + self.dest.wire()
            + payload_wire(self.data@)
    }

    /// A message body reads as `res`.
    pub open spec fn reads(s: Seq<u8>, res: Result<StreamDataSized>) -> bool {
        match StreamDataHeader::parse_at(s, 0) {
            Err(e) => res == Err::<StreamDataSized, _>(e),
            Ok((header, i)) => match wire::short_in(seq![4, 4], s.len() - i) {
                Some(e) => res == Err::<StreamDataSized, _>(e),
                None => match Rect::parse_at(s, i + 8) {
                    Err(e) => res == Err::<StreamDataSized, _>(e),
                    Ok((dest, j)) => match payload_at(s, j) {
                        Err(e) => res == Err::<StreamDataSized, _>(e),
                        Ok(data) => {
                            &&& res matches Ok(m)
                            &&& m.header == header
                            &&& m.width == wire::u32_at(s, i)
                            &&& m.height == wire::u32_at(s, i + 4)
                            &&& m.dest == dest
                            &&& m.data@ == data
                        },
                    },
                },
            },
        }
    }

    pub fn decode(buf: &[u8]) -> (res: Result<Self>)
        ensures
            Self::reads(buf@, res),
    {
        proof {
            reveal_with_fuel(wire::short_from, 3);
        }
        let mut r = Reader::new(buf);
        let header = StreamDataHeader::decode(&mut r)?;
        let width: u32 = r.u32()?;
        let height: u32 = r.u32()?;
        let dest = Rect::decode(&mut r)?;
        let data_size: u32 = r.u32()?;
        let data = slice_to_vec(r.bytes(data_size as usize)?);
        Ok(Self { header, width, height, dest, data })
    }

    pub fn encode(&self, w: &mut Writer)
        ensures
            final(w)@ == old(w)@ + self.wire(),
    {
        self.header.encode(w);
        w.u32(self.width);
        w.u32(self.height);
        self.dest.encode(w);
        w.u32((self.data.len() as u64 % 4294967296) as u32);
        w.bytes(self.data.as_slice());
        assert(w@ =~= old(w)@ + self.wire());
    }
}

#[verifier::rlimit(50)]
#[verifier::spinoff_prover]
proof fn lemma_reads_sized(m: StreamDataSized, s: Seq<u8>, res: Result<StreamDataSized>)
    requires
        16 <= s.len(),
        StreamDataHeader::parse_at(s, 0) == Ok::<(StreamDataHeader, int), ProtoError>(
            (m.header, 8),
        ),
        wire::u32_at(s, 8) == m.width,
        wire::u32_at(s, 12) == m.height,
        Rect::parse_at(s, 16) == Ok::<(Rect, int), ProtoError>((m.dest, 32)),
        payload_at(s, 32) == Ok::<Seq<u8>, ProtoError>(m.data@),
        StreamDataSized::reads(s, res),
    ensures
        res matches Ok(n) && n.header == m.header && n.width == m.width && n.height == m.height
            && n.dest == m.dest && n.data@ == m.data@,
{
    reveal_with_fuel(wire::short_from, 3);
}

/// A sized stream-data message whose payload is below 4 GiB reads back as it
/// was written, whatever follows it.
#[verifier::rlimit(50)]
#[verifier::spinoff_prover]
pub proof fn stream_data_sized_round_trip(
    m: StreamDataSized,
    tail: Seq<u8>,
    res: Result<StreamDataSized>,
)
    requires
        m.data@.len() <= u32::MAX,
        StreamDataSized::reads(m.wire() + tail, res),
    ensures
        res matches Ok(n) && n.header == m.header && n.width == m.width && n.height == m.height
            && n.dest == m.dest && n.data@ == m.data@,
{
    let head = m.header.wire();
    let sizes = wire::le32(m.width) + wire::le32(m.height);
    let dest = m.dest.wire();
    let data = payload_wire(m.data@);
    let s = m.wire() + tail;
    wire::lemma_lengths();
    assert(head.len() == 8 && sizes.len() == 8 && dest.len() == 16);
    assert(s =~= Seq::<u8>::empty() + (head + (sizes + dest + data + tail)));
    assert(s =~= (head + sizes) + (dest + (data + tail)));
    assert(s =~= (head + sizes + dest) + (data + tail));
    assert(s.subrange(8, 12) =~= wire::le32(m.width));
    assert(s.subrange(12, 16) =~= wire::le32(m.height));
    wire::u32_at_le32(s, 8, m.width);
    wire::u32_at_le32(s, 12, m.height);
    stream_data_header_round_trip(m.header, Seq::empty(), sizes + dest + data + tail);
    types::rect_round_trip(m.dest, head + sizes, data + tail);
    lemma_payload(head + sizes + dest, m.data@, tail);
    lemma_reads_sized(m, s, res);
}

/// `MSG_DISPLAY_STREAM_CLIP`.
#[derive(Debug, Clone, Copy, PartialEq, Eq, Structural)]
pub struct StreamClip {
    pub stream_id: u32,
    pub clip: Clip,
}

impl StreamClip {
    /// The bytes of a stream-clip message.
    pub open spec fn wire(self) -> Seq<u8> {
        wire::le32(self.stream_id) + self.clip.wire()
    }

    /// What a message body reads as.
    pub open spec fn parse(s: Seq<u8>) -> Result<StreamClip> {
        if s.len() < 4 {
            Err(ProtoError::Short { need: 4, have: s.len() as usize })
        } else {
            match Clip::parse_at(s, 4) {
                Err(e) => Err(e),
                Ok((clip, _)) => Ok(StreamClip { stream_id: wire::u32_at(s, 0), clip }),
            }
        }
    }

    pub fn decode(buf: &[u8]) -> (res: Result<Self>)
        ensures
            res == Self::parse(buf@),
    {
        let mut r = Reader::new(buf);
        let stream_id: u32 = r.u32()?;
        let clip = Clip::decode(&mut r)?;
        Ok(Self { stream_id, clip })
    }

    pub fn encode(&self, w: &mut Writer)
        ensures
            final(w)@ == old(w)@ + self.wire(),
    {
        w.u32(self.stream_id);
        self.clip.encode(w);
        assert(w@ =~= old(w)@ + self.wire());
    }
}

/// A stream-clip message reads back as it was written, whatever follows it.
#[verifier::rlimit(50)]
#[verifier::spinoff_prover]
pub proof fn stream_clip_round_trip(m: StreamClip, tail: Seq<u8>)
    ensures
        StreamClip::parse(m.wire() + tail) == Ok::<StreamClip, ProtoError>(m),
{
    wire::lemma_lengths();
    let id = wire::le32(m.stream_id);
    let s = m.wire() + tail;
    assert(s =~= id + (m.clip.wire() + tail));
    assert(s.subrange(0, 4) =~= id);
    wire::u32_at_le32(s, 0, m.stream_id);
    draw::clip_round_trip(m.clip, id, tail);
}

} // verus!
