//! Display-channel handler: turn messages into [`DisplayEvent`]s.

use std::collections::HashMap;

use vstd::prelude::*;
use vstd::std_specs::hash::*;
use vstd::std_specs::iter::*;

use crate::client::ack;
use crate::client::ack::{is_counted, AckState};
use crate::client::events::{DisplayEvent, Rect, RegionPixels, SurfaceFormat};
use crate::client::images;
use crate::client::images::{decode_source, Decoded, DecodedImage};
use crate::client::mjpeg;
use crate::client::mjpeg::{DecodedFrame, MjpegError};
use crate::glz::window::{GlzWindow, Image, Images};
use crate::lz::dims::MAX_IMAGE_BYTES;
use crate::net::channel;
use crate::net::channel::Outgoing;
use crate::net::control;
use crate::net::control::{ack_message, answer_ping, answer_set_ack};
use crate::proto::common::SetAck;
use crate::proto::display::msg_type as display_msg;
use crate::proto::display::{DisplayInit, Mode, MonitorsConfig, SurfaceCreate, SurfaceDestroy};
use crate::proto::draw::{Brush, CopyBits, DrawCopy, DrawFill};
use crate::proto::enums::msg;
use crate::proto::error::ProtoError;
use crate::proto::stream::{StreamCreate, StreamData, StreamDataSized, StreamDestroy, VideoCodec};
use crate::proto::types::Writer;

verus! {

broadcast use group_hash_axioms;

/// A salt for the ids in the init message, from the nanoseconds of the clock
/// where there is one.
pub fn salt_from(nanos: Option<u128>) -> (salt: u8)
    ensures
        salt == (match nanos {
            Some(n) => (n % 256 + 1) % 256,
            None => 1,
        }),
{
    match nanos {
        Some(n) => ((n % 256 + 1) % 256) as u8,
        None => 1,
    }
}

/// The first message on the display channel, for a salt.
pub open spec fn init_for(salt: u8) -> DisplayInit {
    DisplayInit {
        pixmap_cache_id: salt,
        pixmap_cache_size: 134217728,
        glz_dictionary_id: salt,
        glz_dictionary_window_size: 16777216,
    }
}

/// `MSGC_DISPLAY_INIT`, so the server starts streaming surface creates and
/// draws.
///
/// The dictionary and cache ids are meant to be unique per connection: the
/// server uses them as keys for its dictionary-sharing optimisation, and a
/// never-seen id forces it to treat this as a brand-new client and send
/// everything. The cache size matches spice-gtk's default; it is not honoured
/// yet, but a non-zero value stops some servers from bailing early.
pub fn init_message(salt: u8) -> (o: Outgoing)
    ensures
        o@ == (display_msg::INIT, init_for(salt).wire()),
{
    let init = DisplayInit {
        pixmap_cache_id: salt,
        pixmap_cache_size: 134217728,
        glz_dictionary_id: salt,
        glz_dictionary_window_size: 16777216,
    };
    let mut w = Writer::new();
    init.encode(&mut w);
    let body = w.into_vec();
    assert(body@ =~= init_for(salt).wire());
    Outgoing { msg_type: display_msg::INIT, body }
}

/// What is known of an open stream.
#[derive(Debug, Clone, Copy, PartialEq, Eq, Structural)]
pub struct StreamInfo {
    pub codec: VideoCodec,
    pub dest: Rect,
}

/// What a display channel remembers.
pub struct DisplayView {
    pub surfaces: Map<u32, SurfaceFormat>,
    pub streams: Map<u32, StreamInfo>,
    pub dictionary: Images,
    pub ack: AckState,
}

/// Per-display state kept across messages: the surface table pairs `DRAW_*`
/// commands with the pixel format the server picked at `SURFACE_CREATE` time.
/// Streams are kept so `STREAM_DATA` can find its codec and destination. The
/// GLZ dictionary lives here too so cross-image back-references can resolve,
/// and so does the flow-control window.
pub struct DisplayState {
    surfaces: HashMap<u32, SurfaceFormat>,
    streams: HashMap<u32, StreamInfo>,
    glz_window: GlzWindow,
    ack: AckState,
}

/// What a display-channel message leads to.
pub struct DisplayReaction {
    pub out: Vec<Outgoing>,
    pub events: Vec<DisplayEvent>,
}

impl View for DisplayState {
    type V = DisplayView;

    closed spec fn view(&self) -> DisplayView {
        DisplayView {
            surfaces: self.surfaces@,
            streams: self.streams@,
            dictionary: self.glz_window@,
            ack: self.ack,
        }
    }
}

impl Default for DisplayState {
    fn default() -> (s: Self)
        ensures
            s.wf(),
            s@.surfaces == Map::<u32, SurfaceFormat>::empty(),
            s@.streams == Map::<u32, StreamInfo>::empty(),
            s@.dictionary.order == Seq::<u64>::empty(),
            s@.dictionary.images == Map::<u64, Image>::empty(),
            s@.ack == AckState::idle(),
    {
        let glz_window = GlzWindow::default();
        assert(glz_window@.bytes() == 0);
        Self {
            surfaces: HashMap::new(),
            streams: HashMap::new(),
            glz_window,
            ack: AckState::default(),
        }
    }
}

/// The format of a surface; an unknown surface has an unknown one.
pub open spec fn format_of(surfaces: Map<u32, SurfaceFormat>, id: u32) -> SurfaceFormat {
    if surfaces.dom().contains(id) {
        surfaces[id]
    } else {
        SurfaceFormat::Unknown(0)
    }
}

/// The event that a fill leads to: a region where it is a single solid colour
/// without blending or clipping.
pub open spec fn fill_event(surfaces: Map<u32, SurfaceFormat>, body: Seq<u8>) -> DisplayEvent {
    let unhandled = DisplayEvent::UnhandledDraw {
        msg_type: display_msg::DRAW_FILL,
        size: body.len() as usize,
    };
    match DrawFill::parse(body) {
        Err(_) => unhandled,
        Ok(fill) => match fill.brush {
            Brush::Solid(color) => if fill.simple_solid() {
                DisplayEvent::Region {
                    surface_id: fill.base.surface_id,
                    rect: fill.base.bounds,
                    pixels: RegionPixels::SolidColor(color),
                    surface_format: format_of(surfaces, fill.base.surface_id),
                }
            } else {
                unhandled
            },
            _ => unhandled,
        },
    }
}

/// A copy whose source image comes to `d` leads to `event`: a region where
/// the image is understood. The whole bounds are painted, whatever clip or
/// mask the server attached.
pub open spec fn copy_event(
    surfaces: Map<u32, SurfaceFormat>,
    body_len: nat,
    copy: DrawCopy,
    d: Decoded,
    event: DisplayEvent,
) -> bool {
    match d.region {
        None => event == (DisplayEvent::UnhandledDraw {
            msg_type: display_msg::DRAW_COPY,
            size: body_len as usize,
        }),
        Some(p) => {
            &&& event matches DisplayEvent::Region { surface_id, rect, pixels, surface_format }
            &&& surface_id == copy.base.surface_id
            &&& rect == copy.base.bounds
            &&& surface_format == format_of(surfaces, surface_id)
            &&& pixels matches RegionPixels::Raw { data, stride }
            &&& data@ == p.pixels
            &&& stride == p.stride
        },
    }
}

/// How large the dictionary may grow, in bytes.
pub open spec fn dictionary_budget() -> nat {
    268435456
}

/// The dictionary after an image that comes to `d`.
pub open spec fn kept(dictionary: Images, d: Decoded) -> Images {
    match d.keep {
        None => dictionary,
        Some((id, pixels)) => dictionary.with(id, (Image { pixels, bpp: 4 })).evicted(
            dictionary_budget(),
        ),
    }
}

/// A `DRAW_COPY` body leads from one dictionary to another, and to `event`.
pub open spec fn copies(
    before: DisplayView,
    body: Seq<u8>,
    event: DisplayEvent,
    dictionary: Images,
) -> bool {
    match DrawCopy::parse(body) {
        Err(_) => {
            &&& event == (DisplayEvent::UnhandledDraw {
                msg_type: display_msg::DRAW_COPY,
                size: body.len() as usize,
            })
            &&& dictionary == before.dictionary
        },
        Ok(copy) => exists|d: Decoded| #[trigger]
            images::source_image(body, copy.src_bitmap_offset, before.dictionary.images, d)
                && copy_event(before.surfaces, body.len(), copy, d, event) && dictionary == kept(
                before.dictionary,
                d,
            ),
    }
}

/// The frame of a stream that a decoding gave, if it gave one.
pub open spec fn frame_event(
    stream_id: u32,
    multi_media_time: u32,
    dest: Rect,
    frame: Result<DecodedFrame, MjpegError>,
    event: Option<DisplayEvent>,
) -> bool {
    match frame {
        Err(_) => event is None,
        Ok(f) => event == Some(
            DisplayEvent::StreamFrame {
                stream_id,
                multi_media_time,
                dest_rect: dest,
                pixels: RegionPixels::Raw { data: f.bgra, stride: (4 * f.width) as u32 },
            },
        ),
    }
}

/// The event for a decoded frame: a frame that could not be decoded is
/// dropped.
pub fn stream_frame_event(
    stream_id: u32,
    multi_media_time: u32,
    dest: Rect,
    frame: Result<DecodedFrame, MjpegError>,
) -> (event: Option<DisplayEvent>)
    ensures
        frame_event(stream_id, multi_media_time, dest, frame, event),
{
    match frame {
        Err(_) => None,
        Ok(f) => Some(
            DisplayEvent::StreamFrame {
                stream_id,
                multi_media_time,
                dest_rect: dest,
                pixels: RegionPixels::Raw { data: f.bgra, stride: 4 * f.width as u32 },
            },
        ),
    }
}

/// What a frame of a stream leads to. Only streams that are open, and only
/// MJPEG ones, lead to an event: whether they do is up to the decoder. A sized
/// frame has its own destination.
pub open spec fn stream_events(
    streams: Map<u32, StreamInfo>,
    stream_id: u32,
    multi_media_time: u32,
    sized: Option<Rect>,
    payload: Seq<u8>,
    events: Seq<DisplayEvent>,
) -> bool {
    if !streams.dom().contains(stream_id) || streams[stream_id].codec != VideoCodec::Mjpeg {
        events.len() == 0
    } else {
        let dest = match sized {
            Some(rect) => rect,
            None => streams[stream_id].dest,
        };
        exists|frame: Result<DecodedFrame, MjpegError>|
            #![trigger mjpeg::decodes(payload, frame)]
            {
                &&& mjpeg::decodes(payload, frame)
                &&& events.len() <= 1
                &&& frame_event(
                    stream_id,
                    multi_media_time,
                    dest,
                    frame,
                    if events.len() == 1 {
                        Some(events[0])
                    } else {
                        None
                    },
                )
            }
    }
}

/// Every open stream, and no other, is reported as destroyed, once.
pub open spec fn all_destroyed(streams: Map<u32, StreamInfo>, events: Seq<DisplayEvent>) -> bool {
    exists|ids: Seq<u32>| #[trigger]
        ids.no_duplicates() && ids.to_set() == streams.dom() && events == Seq::new(
            ids.len(),
            |i: int| DisplayEvent::StreamDestroyed { stream_id: ids[i] },
        )
}

/// A message that is read leads to these events, and to this state but for
/// the window.
pub open spec fn raises(
    before: DisplayView,
    msg_type: u16,
    body: Seq<u8>,
    events: Seq<DisplayEvent>,
    after: DisplayView,
) -> bool {
    let same_surfaces = after.surfaces == before.surfaces;
    let same_streams = after.streams == before.streams;
    let same_dictionary = after.dictionary == before.dictionary;
    let same = same_surfaces && same_streams && same_dictionary;
    if msg_type == msg::PING || msg_type == msg::SET_ACK || msg_type == msg::NOTIFY || msg_type
        == msg::MIGRATE || msg_type == msg::MIGRATE_DATA {
        same && events == Seq::<DisplayEvent>::empty()
    } else if msg_type == display_msg::MODE {
        &&& same
        &&& Mode::parse(body) matches Ok(m)
        &&& events == seq![
            DisplayEvent::Mode { width: m.x_res, height: m.y_res, bits: m.bits },
        ]
    } else if msg_type == display_msg::MARK {
        same && events == seq![DisplayEvent::Mark]
    } else if msg_type == display_msg::RESET {
        &&& after.surfaces == Map::<u32, SurfaceFormat>::empty()
        &&& same_streams
        &&& same_dictionary
        &&& events == seq![DisplayEvent::Reset]
    } else if msg_type == display_msg::SURFACE_CREATE {
        &&& SurfaceCreate::parse(body) matches Ok(s)
        &&& after.surfaces == before.surfaces.insert(s.surface_id, SurfaceFormat::of(s.format))
        &&& same_streams
        &&& same_dictionary
        &&& events == seq![
            DisplayEvent::SurfaceCreated {
                id: s.surface_id,
                width: s.width,
                height: s.height,
                format: SurfaceFormat::of(s.format),
                primary: s.flags % 2 == 1,
            },
        ]
    } else if msg_type == display_msg::SURFACE_DESTROY {
        &&& SurfaceDestroy::parse(body) matches Ok(s)
        &&& after.surfaces == before.surfaces.remove(s.surface_id)
        &&& same_streams
        &&& same_dictionary
        &&& events == seq![DisplayEvent::SurfaceDestroyed { id: s.surface_id }]
    } else if msg_type == display_msg::MONITORS_CONFIG {
        same && exists|m: MonitorsConfig| #[trigger]
            MonitorsConfig::reads(body, Ok(m)) && events == seq![
                DisplayEvent::MonitorsConfig { max_allowed: m.max_allowed, heads: m.heads },
            ]
    } else if msg_type == display_msg::DRAW_FILL {
        same && events == seq![fill_event(before.surfaces, body)]
    } else if msg_type == display_msg::DRAW_COPY {
        &&& same_surfaces
        &&& same_streams
        &&& events.len() == 1
        &&& copies(before, body, events[0], after.dictionary)
    } else if msg_type == display_msg::COPY_BITS {
        same && events == (match CopyBits::parse(body) {
            Ok(c) => seq![
                DisplayEvent::CopyRect {
                    surface_id: c.base.surface_id,
                    src_x: c.src_pos.x,
                    src_y: c.src_pos.y,
                    dest_rect: c.base.bounds,
                },
            ],
            Err(_) => Seq::empty(),
        })
    } else if msg_type == display_msg::STREAM_CREATE {
        &&& same_surfaces
        &&& same_dictionary
        &&& match StreamCreate::parse(body) {
            Ok(s) => {
                &&& after.streams == before.streams.insert(
                    s.stream_id,
                    StreamInfo { codec: s.codec, dest: s.dest },
                )
                &&& events == seq![
                    DisplayEvent::StreamCreated {
                        stream_id: s.stream_id,
                        surface_id: s.surface_id,
                        codec: s.codec,
                        dest: s.dest,
                        src_width: s.src_width,
                        src_height: s.src_height,
                    },
                ]
            },
            Err(_) => same_streams && events == Seq::<DisplayEvent>::empty(),
        }
    } else if msg_type == display_msg::STREAM_DATA {
        same && exists|r: Result<StreamData, ProtoError>| #[trigger]
            StreamData::reads(body, r) && match r {
                Ok(d) => stream_events(
                    before.streams,
                    d.header.stream_id,
                    d.header.multi_media_time,
                    None,
                    d.data@,
                    events,
                ),
                Err(_) => events.len() == 0,
            }
    } else if msg_type == display_msg::STREAM_DATA_SIZED {
        same && exists|r: Result<StreamDataSized, ProtoError>| #[trigger]
            StreamDataSized::reads(body, r) && match r {
                Ok(d) => stream_events(
                    before.streams,
                    d.header.stream_id,
                    d.header.multi_media_time,
                    Some(d.dest),
                    d.data@,
                    events,
                ),
                Err(_) => events.len() == 0,
            }
    } else if msg_type == display_msg::STREAM_DESTROY {
        &&& same_surfaces
        &&& same_dictionary
        &&& match StreamDestroy::parse(body) {
            Ok(d) => {
                &&& after.streams == before.streams.remove(d.stream_id)
                &&& events == seq![DisplayEvent::StreamDestroyed { stream_id: d.stream_id }]
            },
            Err(_) => same_streams && events == Seq::<DisplayEvent>::empty(),
        }
    } else if msg_type == display_msg::STREAM_DESTROY_ALL {
        &&& same_surfaces
        &&& same_dictionary
        &&& after.streams == Map::<u32, StreamInfo>::empty()
        &&& all_destroyed(before.streams, events)
    } else {
        same && events == seq![
            DisplayEvent::UnhandledDraw { msg_type, size: body.len() as usize },
        ]
    }
}

/// A message of one of the kinds that have to be read is not, with this error.
pub open spec fn fails(msg_type: u16, body: Seq<u8>, e: ProtoError) -> bool {
    if msg_type == msg::PING {
        control::pong_for(body) == Err::<(u16, Seq<u8>), ProtoError>(e)
    } else if msg_type == msg::SET_ACK {
        SetAck::parse(body) == Err::<SetAck, ProtoError>(e)
    } else if msg_type == display_msg::MODE {
        Mode::parse(body) == Err::<Mode, ProtoError>(e)
    } else if msg_type == display_msg::SURFACE_CREATE {
        SurfaceCreate::parse(body) == Err::<SurfaceCreate, ProtoError>(e)
    } else if msg_type == display_msg::SURFACE_DESTROY {
        SurfaceDestroy::parse(body) == Err::<SurfaceDestroy, ProtoError>(e)
    } else if msg_type == display_msg::MONITORS_CONFIG {
        MonitorsConfig::reads(body, Err(e))
    } else {
        false
    }
}

/// The window after a message that is read.
pub open spec fn ack_after(ack: AckState, msg_type: u16, body: Seq<u8>) -> AckState {
    if msg_type == msg::SET_ACK {
        AckState::fresh(SetAck::spec_at(body, 0).window)
    } else if ack::counts(msg_type) {
        ack.noted()
    } else {
        ack
    }
}

/// What is sent on a message that is read.
pub open spec fn replies(ack: AckState, msg_type: u16, body: Seq<u8>) -> Seq<(u16, Seq<u8>)> {
    if msg_type == msg::PING {
        seq![control::pong_for(body)->Ok_0]
    } else if msg_type == msg::SET_ACK {
        seq![control::ack_sync_for(body)->Ok_0]
    } else if ack::counts(msg_type) && ack.due() {
        seq![control::ack_wire()]
    } else {
        Seq::empty()
    }
}

impl DisplayState {
    /// The dictionary is within its budget, and the window is sound.
    pub closed spec fn wf(self) -> bool {
        &&& self.glz_window.wf()
        &&& self.glz_window.capacity() == dictionary_budget()
        &&& self.glz_window@.bytes() <= dictionary_budget()
        &&& self.ack.wf()
    }

    /// The dictionary lists each of its images once, and is within its budget.
    pub proof fn dictionary_is_sound(self)
        requires
            self.wf(),
        ensures
            self@.dictionary.ok(),
            self@.dictionary.bytes() <= dictionary_budget(),
    {
        self.glz_window.books_are_sound();
    }

    fn format(&self, id: u32) -> (f: SurfaceFormat)
        ensures
            f == format_of(self@.surfaces, id),
    {
        match self.surfaces.get(&id) {
            Some(f) => *f,
            None => SurfaceFormat::Unknown(0),
        }
    }

    fn decode_draw_fill(&self, body: &[u8]) -> (event: DisplayEvent)
        ensures
            event == fill_event(self@.surfaces, body@),
    {
        let unhandled = DisplayEvent::UnhandledDraw {
            msg_type: display_msg::DRAW_FILL,
            size: body.len(),
        };
        match DrawFill::decode(body) {
            Err(_) => unhandled,
            Ok(fill) => {
                if !fill.is_simple_solid() {
                    return unhandled;
                }
                match fill.solid_color() {
                    None => unhandled,
                    Some(color) => DisplayEvent::Region {
                        surface_id: fill.base.surface_id,
                        rect: fill.base.bounds,
                        pixels: RegionPixels::SolidColor(color),
                        surface_format: self.format(fill.base.surface_id),
                    },
                }
            },
        }
    }

    /// Keep an image in the dictionary.
    fn keep(&mut self, id: u64, pixels: Vec<u8>)
        requires
            old(self).wf(),
            pixels@.len() <= MAX_IMAGE_BYTES,
        ensures
            final(self).wf(),
            final(self)@.dictionary == old(self)@.dictionary.with(
                id,
                (Image { pixels: pixels@, bpp: 4 }),
            ).evicted(dictionary_budget()),
            final(self)@.surfaces == old(self)@.surfaces,
            final(self)@.streams == old(self)@.streams,
            final(self)@.ack == old(self)@.ack,
    {
        self.glz_window.insert(id, pixels, 4);
    }

    fn decode_draw_copy(&mut self, body: &[u8]) -> (event: DisplayEvent)
        requires
            old(self).wf(),
        ensures
            final(self).wf(),
            copies(old(self)@, body@, event, final(self)@.dictionary),
            final(self)@.surfaces == old(self)@.surfaces,
            final(self)@.streams == old(self)@.streams,
            final(self)@.ack == old(self)@.ack,
    {
        let size: usize = body.len();
        let copy = match DrawCopy::decode(body) {
            Ok(copy) => copy,
            Err(_) => {
                return DisplayEvent::UnhandledDraw { msg_type: display_msg::DRAW_COPY, size };
            },
        };
        let decoded = decode_source(body, copy.src_bitmap_offset, &self.glz_window);
        let ghost d = decoded@;
        assert(images::source_image(
            body@,
            copy.src_bitmap_offset,
            old(self)@.dictionary.images,
            d,
        ));
        let DecodedImage { region, keep } = decoded;
        if let Some(k) = keep {
            self.keep(k.id, k.pixels);
        }
        match region {
            Some(r) => DisplayEvent::Region {
                surface_id: copy.base.surface_id,
                rect: copy.base.bounds,
                pixels: RegionPixels::Raw { data: r.pixels, stride: r.stride },
                surface_format: self.format(copy.base.surface_id),
            },
            None => DisplayEvent::UnhandledDraw { msg_type: display_msg::DRAW_COPY, size },
        }
    }

    /// Decode a frame of a stream, where it is one that is decoded.
    fn stream_frame(
        &self,
        stream_id: u32,
        multi_media_time: u32,
        sized: Option<Rect>,
        payload: &[u8],
    ) -> (events: Vec<DisplayEvent>)
        ensures
            stream_events(
                self@.streams,
                stream_id,
                multi_media_time,
                sized,
                payload@,
                events@,
            ),
    {
        let mut events: Vec<DisplayEvent> = Vec::new();
        match self.streams.get(&stream_id) {
            None => {},
            Some(info) => {
                let dest = match sized {
                    Some(rect) => rect,
                    None => info.dest,
                };
                match info.codec {
                    VideoCodec::Mjpeg => {
                        let frame = mjpeg::decode(payload);
                        let ghost seen = frame;
                        assert(mjpeg::decodes(payload@, seen));
                        match stream_frame_event(stream_id, multi_media_time, dest, frame) {
                            Some(event) => events.push(event),
                            None => {},
                        }
                    },
                    _ => {},
                }
            },
        }
        events
    }

    /// Report every stream as destroyed, and forget them.
    fn destroy_streams(&mut self) -> (events: Vec<DisplayEvent>)
        requires
            old(self).wf(),
        ensures
            final(self).wf(),
            all_destroyed(old(self)@.streams, events@),
            final(self)@.streams == Map::<u32, StreamInfo>::empty(),
            final(self)@.surfaces == old(self)@.surfaces,
            final(self)@.dictionary == old(self)@.dictionary,
            final(self)@.ack == old(self)@.ack,
    {
        let mut events: Vec<DisplayEvent> = Vec::new();
        let keys = self.streams.keys();
        let ghost ids = IteratorSpec::remaining(&keys).unref();
        assert(ids.no_duplicates() && ids.to_set() == self.streams@.dom());
        for id in it: keys
            invariant
                it.seq().unref() == ids,
                events@ =~= Seq::new(
                    it.index() as nat,
                    |i: int| DisplayEvent::StreamDestroyed { stream_id: ids[i] },
                ),
        {
            events.push(DisplayEvent::StreamDestroyed { stream_id: *id });
        }
        self.streams.clear();
        events
    }

    /// Take a display-channel message.
    pub fn handle(&mut self, msg_type: u16, body: &[u8]) -> (r: Result<
        DisplayReaction,
        ProtoError,
    >)
        requires
            old(self).wf(),
        ensures
            final(self).wf(),
            match r {
                Err(e) => fails(msg_type, body@, e) && final(self)@ == old(self)@,
                Ok(reaction) => {
                    &&& raises(old(self)@, msg_type, body@, reaction.events@, final(self)@)
                    &&& channel::sent(reaction.out@) == replies(old(self)@.ack, msg_type, body@)
                    &&& final(self)@.ack == ack_after(old(self)@.ack, msg_type, body@)
                },
            },
    {
        let mut out: Vec<Outgoing> = Vec::new();
        let mut events: Vec<DisplayEvent> = Vec::new();
        if msg_type == msg::PING {
            out.push(answer_ping(body)?);
        } else if msg_type == msg::SET_ACK {
            let set = SetAck::decode(body)?;
            out.push(answer_set_ack(&set));
            self.ack.on_set_ack(set.window);
        } else if msg_type == msg::NOTIFY || msg_type == msg::MIGRATE || msg_type
            == msg::MIGRATE_DATA {
        } else {
            events = self.display_message(msg_type, body)?;
        }
        let ghost mid = self@;
        if is_counted(msg_type) && self.ack.note_message() {
            out.push(ack_message());
        }
        assert(channel::sent(out@) =~= replies(old(self)@.ack, msg_type, body@));
        assert(mid.ack == (if msg_type == msg::SET_ACK {
            AckState::fresh(SetAck::spec_at(body@, 0).window)
        } else {
            old(self)@.ack
        }));
        Ok(DisplayReaction { out, events })
    }

    /// Take a message of the display channel's own.
    fn display_message(&mut self, msg_type: u16, body: &[u8]) -> (r: Result<
        Vec<DisplayEvent>,
        ProtoError,
    >)
        requires
            old(self).wf(),
            msg_type != msg::PING,
            msg_type != msg::SET_ACK,
            msg_type != msg::NOTIFY,
            msg_type != msg::MIGRATE,
            msg_type != msg::MIGRATE_DATA,
        ensures
            final(self).wf(),
            match r {
                Err(e) => fails(msg_type, body@, e) && final(self)@ == old(self)@,
                Ok(events) => {
                    &&& raises(old(self)@, msg_type, body@, events@, final(self)@)
                    &&& final(self)@.ack == old(self)@.ack
                },
            },
    {
        let mut events: Vec<DisplayEvent> = Vec::new();
        if msg_type == display_msg::MODE {
            let m = Mode::decode(body)?;
            events.push(DisplayEvent::Mode { width: m.x_res, height: m.y_res, bits: m.bits });
        } else if msg_type == display_msg::MARK {
            events.push(DisplayEvent::Mark);
        } else if msg_type == display_msg::RESET {
            self.surfaces.clear();
            events.push(DisplayEvent::Reset);
        } else if msg_type == display_msg::SURFACE_CREATE {
            let s = SurfaceCreate::decode(body)?;
            let format = SurfaceFormat::from_raw(s.format);
            self.surfaces.insert(s.surface_id, format);
            events.push(
                DisplayEvent::SurfaceCreated {
                    id: s.surface_id,
                    width: s.width,
                    height: s.height,
                    format,
                    primary: s.flags % 2 == 1,
                },
            );
        } else if msg_type == display_msg::SURFACE_DESTROY {
            let s = SurfaceDestroy::decode(body)?;
            self.surfaces.remove(&s.surface_id);
            events.push(DisplayEvent::SurfaceDestroyed { id: s.surface_id });
        } else if msg_type == display_msg::MONITORS_CONFIG {
            let m = MonitorsConfig::decode(body)?;
            assert(MonitorsConfig::reads(body@, Ok(m)));
            events.push(
                DisplayEvent::MonitorsConfig { max_allowed: m.max_allowed, heads: m.heads },
            );
        } else if msg_type == display_msg::DRAW_FILL {
            events.push(self.decode_draw_fill(body));
        } else if msg_type == display_msg::DRAW_COPY {
            let event = self.decode_draw_copy(body);
            events.push(event);
        } else if msg_type == display_msg::COPY_BITS {
            match CopyBits::decode(body) {
                Ok(c) => events.push(
                    DisplayEvent::CopyRect {
                        surface_id: c.base.surface_id,
                        src_x: c.src_pos.x,
                        src_y: c.src_pos.y,
                        dest_rect: c.base.bounds,
                    },
                ),
                Err(_) => {},
            }
        } else if msg_type == display_msg::STREAM_CREATE {
            match StreamCreate::decode(body) {
                Ok(s) => {
                    self.streams.insert(
                        s.stream_id,
                        StreamInfo { codec: s.codec, dest: s.dest },
                    );
                    events.push(
                        DisplayEvent::StreamCreated {
                            stream_id: s.stream_id,
                            surface_id: s.surface_id,
                            codec: s.codec,
                            dest: s.dest,
                            src_width: s.src_width,
                            src_height: s.src_height,
                        },
                    );
                },
                Err(_) => {},
            }
        } else if msg_type == display_msg::STREAM_DATA {
            let r = StreamData::decode(body);
            assert(StreamData::reads(body@, r));
            match r {
                Ok(d) => {
                    events =
                    self.stream_frame(
                        d.header.stream_id,
                        d.header.multi_media_time,
                        None,
                        d.data.as_slice(),
                    );
                },
                Err(_) => {},
            }
        } else if msg_type == display_msg::STREAM_DATA_SIZED {
            let r = StreamDataSized::decode(body);
            assert(StreamDataSized::reads(body@, r));
            match r {
                Ok(d) => {
                    events =
                    self.stream_frame(
                        d.header.stream_id,
                        d.header.multi_media_time,
                        Some(d.dest),
                        d.data.as_slice(),
                    );
                },
                Err(_) => {},
            }
        } else if msg_type == display_msg::STREAM_DESTROY {
            match StreamDestroy::decode(body) {
                Ok(d) => {
                    self.streams.remove(&d.stream_id);
                    events.push(DisplayEvent::StreamDestroyed { stream_id: d.stream_id });
                },
                Err(_) => {},
            }
        } else if msg_type == display_msg::STREAM_DESTROY_ALL {
            events = self.destroy_streams();
        } else {
            events.push(DisplayEvent::UnhandledDraw { msg_type, size: body.len() });
        }
        Ok(events)
    }
}

} // verus!
