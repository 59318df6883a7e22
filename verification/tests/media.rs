//! Display events from drawing commands, images and video streams.

use jpeg_encoder::{ColorType, Encoder as JEnc};

use capsaicin::client::display::{init_message, salt_from, DisplayState};
use capsaicin::client::images::{bounded_placeholder, flip_vertical};
use capsaicin::client::mjpeg::{decode, frame_from, JpegFormat, MjpegError, RawFrame};
use capsaicin::client::{DisplayEvent, RegionPixels, SurfaceFormat, VideoCodec};
use capsaicin::glz::{compress_rgb32_literal as glz_compress_rgb32_literal, GlzHeader};
use capsaicin::lz::{compress_alpha_literal, compress_rgb32_literal, LzHeader, LzImageType};
use capsaicin::proto::display::{
    msg_type as display_msg, surface_flags, surface_fmt, DisplayInit, Head, MonitorsConfig,
    SurfaceCreate,
};
use capsaicin::proto::draw::{
    ropd, scale_mode, Brush, Clip, CopyBits, DrawBase, DrawCopy, DrawFill, QMask,
};
use capsaicin::proto::enums::{msg, msgc};
use capsaicin::proto::error::ProtoError;
use capsaicin::proto::image::{
    bitmap_flags, bitmap_fmt, encode_single_chunk, image_type, Bitmap, ImageDescriptor,
};
use capsaicin::proto::stream::{
    stream_flags, StreamCreate, StreamData, StreamDataHeader, StreamDataSized, StreamDestroy,
};
use capsaicin::proto::types::{Point, Rect, Writer};
use capsaicin::quic::compress_rgb32 as quic_compress_rgb32;

/// The events that a script of display messages leads to.
fn run(script: &[(u16, Vec<u8>)]) -> Vec<DisplayEvent> {
    let mut state = DisplayState::default();
    let mut events = Vec::new();
    for (msg_type, body) in script {
        events.extend(state.handle(*msg_type, body).unwrap().events);
    }
    events
}

/// The one event that a message leads to, after the primary surface was made.
fn after_surface(msg_type: u16, body: Vec<u8>) -> DisplayEvent {
    let mut events =
        run(&[(display_msg::SURFACE_CREATE, build_surface_create()), (msg_type, body)]);
    assert_eq!(events.len(), 2);
    events.pop().unwrap()
}

fn build_surface_create() -> Vec<u8> {
    let mut w = Writer::new();
    SurfaceCreate {
        surface_id: 0,
        width: 1024,
        height: 768,
        format: surface_fmt::_32_xRGB,
        flags: surface_flags::PRIMARY,
    }
    .encode(&mut w);
    w.into_vec()
}

fn no_mask() -> QMask {
    QMask { flags: 0, pos: Point { x: 0, y: 0 }, bitmap_offset: 0 }
}

fn rect(top: i32, left: i32, bottom: i32, right: i32) -> Rect {
    Rect { top, left, bottom, right }
}

/// The bytes of a DRAW_COPY without a clip, up to its image.
fn copy_head(width: u32, height: u32) -> Writer {
    let area = rect(0, 0, height as i32, width as i32);
    let copy = DrawCopy {
        base: DrawBase { surface_id: 0, bounds: area, clip: Clip::NoClip },
        src_bitmap_offset: 57,
        src_area: area,
        rop_descriptor: ropd::OP_PUT,
        scale_mode: scale_mode::NEAREST,
        mask: no_mask(),
    };
    let mut w = Writer::new();
    copy.encode(&mut w);
    assert_eq!(w.as_slice().len(), 57);
    w
}

/// A DRAW_COPY of an image whose data stands inline behind its size.
fn inline_copy(width: u32, height: u32, id: u64, image_type: u8, data: &[u8]) -> Vec<u8> {
    let mut w = copy_head(width, height);
    ImageDescriptor { id, image_type, flags: 0, width, height }.encode(&mut w);
    w.u32(data.len() as u32);
    w.bytes(data);
    w.into_vec()
}

/// A DRAW_COPY of a 32-bit bitmap.
fn bitmap_copy(width: u32, height: u32, flags: u8, stride: u32, payload: &[u8]) -> Vec<u8> {
    let mut w = copy_head(width, height);
    ImageDescriptor { id: 1, image_type: image_type::BITMAP, flags: 0, width, height }
        .encode(&mut w);
    Bitmap {
        format: bitmap_fmt::_32BIT,
        flags,
        width,
        height,
        stride,
        palette_offset: 0,
        data_offset: 57 + ImageDescriptor::SIZE as u32 + Bitmap::SIZE as u32,
    }
    .encode(&mut w);
    w.bytes(&encode_single_chunk(payload));
    w.into_vec()
}

#[test]
fn client_receives_surface_created_event() {
    let mut events = run(&[(display_msg::SURFACE_CREATE, build_surface_create())]);
    assert_eq!(events.len(), 1);
    match events.pop() {
        Some(DisplayEvent::SurfaceCreated { id, width, height, format, primary }) => {
            assert_eq!(id, 0);
            assert_eq!(width, 1024);
            assert_eq!(height, 768);
            assert_eq!(format, SurfaceFormat::Xrgb8888);
            assert!(primary);
        }
        other => panic!("expected SurfaceCreated, got {other:?}"),
    }
}

fn build_draw_fill_solid(surface_id: u32, bounds: Rect, color: u32) -> Vec<u8> {
    let fill = DrawFill {
        base: DrawBase { surface_id, bounds, clip: Clip::NoClip },
        brush: Brush::Solid(color),
        rop_descriptor: ropd::OP_PUT,
        mask: no_mask(),
    };
    let mut w = Writer::new();
    fill.encode(&mut w);
    w.into_vec()
}

#[test]
fn solid_draw_fill_becomes_region_solid_color_event() {
    let bounds = rect(10, 20, 110, 220);
    let color = 0x00_12_34_56;
    match after_surface(display_msg::DRAW_FILL, build_draw_fill_solid(0, bounds, color)) {
        DisplayEvent::Region { surface_id, rect: got_rect, pixels, surface_format } => {
            assert_eq!(surface_id, 0);
            assert_eq!(got_rect, bounds);
            assert!(matches!(pixels, RegionPixels::SolidColor(c) if c == color));
            assert_eq!(surface_format, SurfaceFormat::Xrgb8888);
        }
        other => panic!("expected Region, got {other:?}"),
    }
}

#[test]
fn draw_copy_emits_raw_region_with_bitmap_pixels() {
    let width = 8;
    let height = 4;
    let color = 0xFF_00_80_40_u32; // B=0x40, G=0x80, R=0x00, A=0xFF
    let mut payload = Vec::new();
    for _ in 0..(width * height) {
        payload.extend_from_slice(&color.to_le_bytes());
    }
    let body = bitmap_copy(width, height, bitmap_flags::TOP_DOWN, width * 4, &payload);
    match after_surface(display_msg::DRAW_COPY, body) {
        DisplayEvent::Region {
            surface_id,
            rect,
            pixels: RegionPixels::Raw { data, stride },
            surface_format,
        } => {
            assert_eq!(surface_id, 0);
            assert_eq!(rect.width(), width as i32);
            assert_eq!(rect.height(), height as i32);
            assert_eq!(stride, width * 4);
            assert_eq!(data.len(), (width * 4 * height) as usize);
            assert_eq!(surface_format, SurfaceFormat::Xrgb8888);
            // Every pixel should match the color we injected.
            for px in data.chunks_exact(4) {
                assert_eq!(px, color.to_le_bytes());
            }
        }
        other => panic!("expected Region(Raw), got {other:?}"),
    }
}

#[test]
fn draw_copy_bottom_up_is_flipped_to_top_down() {
    let width = 2u32;
    let height = 3u32;
    let stride = width * 4;

    // Row 0 = red, row 1 = green, row 2 = blue (in top-down order).
    let red: u32 = 0xFF_00_00_FF;
    let green: u32 = 0xFF_00_FF_00;
    let blue: u32 = 0xFF_FF_00_00;
    let mut top_down = Vec::<u8>::new();
    for &c in &[red, green, blue] {
        for _ in 0..width {
            top_down.extend_from_slice(&c.to_le_bytes());
        }
    }
    // Server-side payload is bottom-up (flag NOT set): row 2 first.
    let mut bottom_up_payload = Vec::new();
    for row in (0..height).rev() {
        let start = (row * stride) as usize;
        let end = start + stride as usize;
        bottom_up_payload.extend_from_slice(&top_down[start..end]);
    }

    let body = bitmap_copy(width, height, 0, stride, &bottom_up_payload);
    match after_surface(display_msg::DRAW_COPY, body) {
        DisplayEvent::Region { pixels: RegionPixels::Raw { data, .. }, .. } => {
            assert_eq!(data, top_down, "bottom-up bitmap should be flipped to top-down");
        }
        other => panic!("expected Region(Raw), got {other:?}"),
    }
}

#[test]
fn draw_copy_lz_rgb32_decompresses_to_raw_region() {
    let width = 6u32;
    let height = 4u32;
    // Construct a recognisable BGRA pattern; alpha must be 0 because LZ_RGB32
    // ignores it.
    let mut pixels = Vec::with_capacity((width * height * 4) as usize);
    for y in 0..height {
        for x in 0..width {
            pixels.push((x * 17) as u8); // B
            pixels.push((y * 31) as u8); // G
            pixels.push(((x + y) * 13) as u8); // R
            pixels.push(0); // A (always 0 for RGB32)
        }
    }
    let mut data = Vec::new();
    LzHeader { image_type: LzImageType::Rgb32, width, height, stride: width * 4, top_down: true }
        .encode(&mut data);
    data.extend_from_slice(&compress_rgb32_literal(&pixels));

    let body = inline_copy(width, height, 0xCAFE_BABE, image_type::LZ_RGB, &data);
    match after_surface(display_msg::DRAW_COPY, body) {
        DisplayEvent::Region { pixels: RegionPixels::Raw { data, stride }, rect, .. } => {
            assert_eq!(stride, width * 4);
            assert_eq!(rect.width(), width as i32);
            assert_eq!(rect.height(), height as i32);
            assert_eq!(data, pixels, "decompressed pixels should match input");
        }
        other => panic!("expected Region(Raw), got {other:?}"),
    }
}

#[test]
fn draw_copy_lz_rgba_decompresses_with_alpha() {
    let width = 4u32;
    let height = 3u32;
    let mut pixels = Vec::with_capacity((width * height * 4) as usize);
    for i in 0..(width * height) {
        pixels.push((i * 7) as u8); // B
        pixels.push((i * 11) as u8); // G
        pixels.push((i * 13) as u8); // R
        pixels.push((i * 19 + 1) as u8); // A
    }

    // Build LZ_RGBA: header + RGB32 pass + alpha pass.
    let mut data = Vec::new();
    LzHeader { image_type: LzImageType::Rgba, width, height, stride: width * 4, top_down: true }
        .encode(&mut data);
    data.extend_from_slice(&compress_rgb32_literal(&pixels));
    data.extend_from_slice(&compress_alpha_literal(&pixels));

    let body = inline_copy(width, height, 1, image_type::LZ_RGB, &data);
    match after_surface(display_msg::DRAW_COPY, body) {
        DisplayEvent::Region { pixels: RegionPixels::Raw { data, .. }, .. } => {
            assert_eq!(data, pixels);
        }
        other => panic!("expected Region(Raw), got {other:?}"),
    }
}

fn encode_solid_jpeg(width: u16, height: u16, r: u8, g: u8, b: u8) -> Vec<u8> {
    let mut rgb = Vec::with_capacity((width as usize) * (height as usize) * 3);
    for _ in 0..(width as usize * height as usize) {
        rgb.push(r);
        rgb.push(g);
        rgb.push(b);
    }
    let mut buf = Vec::new();
    JEnc::new(&mut buf, 95).encode(&rgb, width, height, ColorType::Rgb).unwrap();
    buf
}

#[test]
fn solid_rgb_jpeg_decodes_to_bgra() {
    let jpeg = encode_solid_jpeg(8, 4, 200, 100, 50);
    let frame = decode(&jpeg).unwrap();
    assert_eq!(frame.width, 8);
    assert_eq!(frame.height, 4);
    assert_eq!(frame.bgra.len(), 8 * 4 * 4);
    // JPEG is lossy — colour will be close but not exact. Check that
    // each pixel is approximately the source colour and channel order
    // is BGRA, opaque.
    for px in frame.bgra.chunks_exact(4) {
        let (b, g, r, a) = (px[0], px[1], px[2], px[3]);
        assert!((b as i32 - 50).abs() < 12, "B off: {b} vs 50");
        assert!((g as i32 - 100).abs() < 12, "G off: {g} vs 100");
        assert!((r as i32 - 200).abs() < 12, "R off: {r} vs 200");
        assert_eq!(a, 0xFF);
    }
}

fn stream_create(stream_id: u32, codec: VideoCodec, dest: Rect, width: u32, height: u32) -> Vec<u8> {
    let mut w = Writer::new();
    StreamCreate {
        surface_id: 0,
        stream_id,
        flags: stream_flags::TOP_DOWN,
        codec,
        stamp: 0,
        stream_width: width,
        stream_height: height,
        src_width: width,
        src_height: height,
        dest,
        clip: Clip::NoClip,
    }
    .encode(&mut w);
    w.into_vec()
}

fn stream_data(stream_id: u32, multi_media_time: u32, data: Vec<u8>) -> Vec<u8> {
    let mut w = Writer::new();
    StreamData { header: StreamDataHeader { stream_id, multi_media_time }, data }.encode(&mut w);
    w.into_vec()
}

fn stream_destroy(stream_id: u32) -> Vec<u8> {
    let mut w = Writer::new();
    StreamDestroy { stream_id }.encode(&mut w);
    w.into_vec()
}

#[test]
fn mjpeg_stream_create_then_data_emits_decoded_frame() {
    let dest = rect(50, 100, 50 + 8, 100 + 16);
    let events = run(&[
        (display_msg::SURFACE_CREATE, build_surface_create()),
        (display_msg::STREAM_CREATE, stream_create(7, VideoCodec::Mjpeg, dest, 16, 8)),
        (display_msg::STREAM_DATA, stream_data(7, 12345, encode_solid_jpeg(16, 8, 220, 140, 60))),
        (display_msg::STREAM_DESTROY, stream_destroy(7)),
    ]);
    assert_eq!(events.len(), 4);
    match &events[1] {
        DisplayEvent::StreamCreated { stream_id, codec, dest: got_dest, .. } => {
            assert_eq!(*stream_id, 7);
            assert!(matches!(codec, VideoCodec::Mjpeg));
            assert_eq!(*got_dest, dest);
        }
        other => panic!("missing StreamCreated, got {other:?}"),
    }
    match &events[2] {
        DisplayEvent::StreamFrame {
            stream_id,
            multi_media_time,
            dest_rect,
            pixels: RegionPixels::Raw { data, stride },
        } => {
            assert_eq!(*stream_id, 7);
            assert_eq!(*multi_media_time, 12345);
            assert_eq!(*dest_rect, dest);
            assert_eq!(*stride, 16 * 4);
            assert_eq!(data.len(), 16 * 8 * 4);
            // Spot-check a centre pixel: BGRA, JPEG-lossy
            // around our (220, 140, 60) source colour.
            let centre = ((4 * 16) + 8) * 4;
            let (b, g, r, a) =
                (data[centre], data[centre + 1], data[centre + 2], data[centre + 3]);
            assert!((b as i32 - 60).abs() < 14, "B={b}");
            assert!((g as i32 - 140).abs() < 14, "G={g}");
            assert!((r as i32 - 220).abs() < 14, "R={r}");
            assert_eq!(a, 0xFF);
        }
        other => panic!("missing StreamFrame, got {other:?}"),
    }
    match &events[3] {
        DisplayEvent::StreamDestroyed { stream_id } => assert_eq!(*stream_id, 7),
        other => panic!("missing StreamDestroyed, got {other:?}"),
    }
}

#[test]
fn unknown_codec_emits_no_stream_frame() {
    let events = run(&[
        (display_msg::SURFACE_CREATE, build_surface_create()),
        (
            display_msg::STREAM_CREATE,
            stream_create(1, VideoCodec::H264, rect(0, 0, 8, 8), 8, 8),
        ),
        (display_msg::STREAM_DATA, stream_data(1, 0, vec![0u8; 32])),
    ]);
    assert_eq!(events.len(), 2);
    assert!(matches!(
        events[1],
        DisplayEvent::StreamCreated { codec: VideoCodec::H264, .. }
    ));
}

#[test]
fn draw_copy_glz_rgb32_intra_decodes_to_raw_region() {
    let width = 5u32;
    let height = 3u32;
    let mut pixels = Vec::with_capacity((width * height * 4) as usize);
    for i in 0..(width * height) {
        pixels.push((i * 9) as u8); // B
        pixels.push((i * 19) as u8); // G
        pixels.push((i * 23) as u8); // R
        pixels.push(0); // A
    }
    let body = inline_copy(width, height, 0xCAFE, image_type::GLZ_RGB, &glz(1, width, height, &pixels));
    match after_surface(display_msg::DRAW_COPY, body) {
        DisplayEvent::Region { pixels: RegionPixels::Raw { data, stride }, rect, .. } => {
            assert_eq!(stride, width * 4);
            assert_eq!(rect.width(), width as i32);
            assert_eq!(rect.height(), height as i32);
            assert_eq!(data, pixels);
        }
        other => panic!("expected Region(Raw), got {other:?}"),
    }
}

#[test]
fn a_glz_image_without_pixels_is_an_empty_region() {
    let body = inline_copy(0, 3, 1, image_type::GLZ_RGB, &glz(1, 0, 3, &[]));
    match after_surface(display_msg::DRAW_COPY, body) {
        DisplayEvent::Region { pixels: RegionPixels::Raw { data, stride }, .. } => {
            assert_eq!((data, stride), (vec![], 0));
        }
        other => panic!("expected Region(Raw), got {other:?}"),
    }
}

fn glz(id: u64, width: u32, height: u32, pixels: &[u8]) -> Vec<u8> {
    let mut data = Vec::new();
    GlzHeader {
        image_type: LzImageType::Rgb32,
        top_down: true,
        width,
        height,
        stride: width * 4,
        id,
        win_head_dist: 0,
    }
    .encode(&mut data);
    data.extend_from_slice(&glz_compress_rgb32_literal(pixels));
    data
}

#[test]
fn draw_copy_with_compressed_image_falls_through_to_unhandled() {
    // A compressed image without its data.
    let mut w = copy_head(8, 8);
    ImageDescriptor { id: 1, image_type: image_type::LZ_RGB, flags: 0, width: 8, height: 8 }
        .encode(&mut w);
    let evt = after_surface(display_msg::DRAW_COPY, w.into_vec());
    assert!(
        matches!(evt, DisplayEvent::UnhandledDraw { msg_type, .. } if msg_type == display_msg::DRAW_COPY),
        "compressed images must not emit Region"
    );
}

#[test]
fn non_simple_draw_fill_stays_unhandled() {
    // Pattern brush — not rendered; must fall through to UnhandledDraw.
    let fill = DrawFill {
        base: DrawBase { surface_id: 0, bounds: rect(0, 0, 10, 10), clip: Clip::NoClip },
        brush: Brush::Pattern { offset: 48, pos: Point { x: 0, y: 0 } },
        rop_descriptor: ropd::OP_PUT,
        mask: no_mask(),
    };
    let mut w = Writer::new();
    fill.encode(&mut w);
    let evt = after_surface(display_msg::DRAW_FILL, w.into_vec());
    assert!(
        matches!(evt, DisplayEvent::UnhandledDraw { msg_type, .. } if msg_type == display_msg::DRAW_FILL),
        "pattern brush should not emit Region"
    );
}

#[test]
fn unknown_display_command_becomes_unhandled_event_and_keeps_stream_healthy() {
    // A DRAW_FILL that cannot be parsed, followed by a SURFACE_CREATE. The
    // first is skipped gracefully, and the second is still seen.
    let events = run(&[
        (display_msg::DRAW_FILL, vec![0u8; 16]),
        (display_msg::SURFACE_CREATE, build_surface_create()),
    ]);
    assert_eq!(events.len(), 2);
    assert_eq!(
        events[0],
        DisplayEvent::UnhandledDraw { msg_type: display_msg::DRAW_FILL, size: 16 }
    );
    assert!(matches!(events[1], DisplayEvent::SurfaceCreated { .. }));
}

#[test]
fn a_region_on_an_unknown_surface_has_an_unknown_format() {
    let bounds = rect(0, 0, 1, 1);
    let events = run(&[(display_msg::DRAW_FILL, build_draw_fill_solid(3, bounds, 1))]);
    assert_eq!(
        events,
        vec![DisplayEvent::Region {
            surface_id: 3,
            rect: bounds,
            pixels: RegionPixels::SolidColor(1),
            surface_format: SurfaceFormat::Unknown(0),
        }]
    );
}

#[test]
fn destroying_a_surface_forgets_its_format() {
    let bounds = rect(0, 0, 1, 1);
    let events = run(&[
        (display_msg::SURFACE_CREATE, build_surface_create()),
        (display_msg::SURFACE_DESTROY, vec![0, 0, 0, 0]),
        (display_msg::DRAW_FILL, build_draw_fill_solid(0, bounds, 1)),
    ]);
    assert_eq!(events[1], DisplayEvent::SurfaceDestroyed { id: 0 });
    assert!(matches!(
        events[2],
        DisplayEvent::Region { surface_format: SurfaceFormat::Unknown(0), .. }
    ));
}

#[test]
fn plain_display_messages_become_events() {
    let head = Head { id: 1, surface_id: 0, width: 800, height: 600, x: 0, y: 0, flags: 0 };
    let mut w = Writer::new();
    MonitorsConfig { max_allowed: 4, heads: vec![head.clone()] }.encode(&mut w);
    let mut mode = Writer::new();
    mode.u32(640);
    mode.u32(480);
    mode.u32(32);
    let events = run(&[
        (display_msg::MARK, vec![]),
        (display_msg::RESET, vec![]),
        (display_msg::MODE, mode.into_vec()),
        (display_msg::MONITORS_CONFIG, w.into_vec()),
    ]);
    assert_eq!(
        events,
        vec![
            DisplayEvent::Mark,
            DisplayEvent::Reset,
            DisplayEvent::Mode { width: 640, height: 480, bits: 32 },
            DisplayEvent::MonitorsConfig { max_allowed: 4, heads: vec![head] },
        ]
    );
}

#[test]
fn copy_bits_becomes_a_copy_rect() {
    let dest = rect(5, 6, 15, 26);
    let mut w = Writer::new();
    CopyBits {
        base: DrawBase { surface_id: 0, bounds: dest, clip: Clip::NoClip },
        src_pos: Point { x: 1, y: 2 },
    }
    .encode(&mut w);
    assert_eq!(
        after_surface(display_msg::COPY_BITS, w.into_vec()),
        DisplayEvent::CopyRect { surface_id: 0, src_x: 1, src_y: 2, dest_rect: dest }
    );
}

#[test]
fn messages_that_cannot_be_read_are_errors() {
    let mut state = DisplayState::default();
    assert!(matches!(
        state.handle(display_msg::SURFACE_CREATE, &[1, 2]),
        Err(ProtoError::Short { .. })
    ));
    assert!(state.handle(msg::PING, &[]).is_err());
    assert!(state.handle(msg::SET_ACK, &[0; 7]).is_err());
}

#[test]
fn a_display_channel_acknowledges_by_the_window() {
    let mut state = DisplayState::default();
    let r = state.handle(msg::SET_ACK, &[9, 0, 0, 0, 2, 0, 0, 0]).unwrap();
    assert_eq!(r.out.len(), 1);
    assert_eq!((r.out[0].msg_type, r.out[0].body.clone()), (msgc::ACK_SYNC, vec![9, 0, 0, 0]));
    let mut acks = Vec::new();
    for _ in 0..6 {
        let r = state.handle(display_msg::MARK, &[]).unwrap();
        acks.push(r.out.iter().filter(|o| o.msg_type == msgc::ACK).count());
    }
    assert_eq!(acks, vec![0, 1, 0, 1, 0, 1]);
}

#[test]
fn glz_images_can_refer_to_earlier_ones() {
    let first = vec![10, 20, 30, 0];
    // One pixel, copied from pixel 0 of the image one id back.
    let mut second = Vec::new();
    GlzHeader {
        image_type: LzImageType::Rgb32,
        top_down: true,
        width: 1,
        height: 1,
        stride: 4,
        id: 8,
        win_head_dist: 1,
    }
    .encode(&mut second);
    second.extend_from_slice(&[0x20, 0x00, 0x01]);
    let events = run(&[
        (
            display_msg::DRAW_COPY,
            inline_copy(1, 1, 1, image_type::GLZ_RGB, &glz(7, 1, 1, &first)),
        ),
        (display_msg::DRAW_COPY, inline_copy(1, 1, 2, image_type::GLZ_RGB, &second)),
    ]);
    for e in &events {
        match e {
            DisplayEvent::Region { pixels: RegionPixels::Raw { data, .. }, .. } => {
                assert_eq!(*data, first)
            }
            other => panic!("expected Region(Raw), got {other:?}"),
        }
    }
    assert_eq!(events.len(), 2);
}

#[test]
fn quic_images_are_decoded() {
    let width = 7u32;
    let height = 5u32;
    let mut pixels = Vec::new();
    for i in 0..(width * height) {
        pixels.extend_from_slice(&[(i * 3) as u8, (i * 5) as u8, (i * 7) as u8, 0]);
    }
    let data = quic_compress_rgb32(&pixels, width, height);
    let body = inline_copy(width, height, 3, image_type::QUIC, &data);
    match after_surface(display_msg::DRAW_COPY, body) {
        DisplayEvent::Region { pixels: RegionPixels::Raw { data, stride }, .. } => {
            assert_eq!(stride, width * 4);
            assert_eq!(data, pixels);
        }
        other => panic!("expected Region(Raw), got {other:?}"),
    }
}

#[test]
fn a_sized_frame_goes_to_its_own_place() {
    let dest = rect(0, 0, 8, 16);
    let own = rect(1, 2, 9, 18);
    let mut w = Writer::new();
    StreamDataSized {
        header: StreamDataHeader { stream_id: 7, multi_media_time: 5 },
        width: 16,
        height: 8,
        dest: own,
        data: encode_solid_jpeg(16, 8, 1, 2, 3),
    }
    .encode(&mut w);
    let events = run(&[
        (display_msg::STREAM_CREATE, stream_create(7, VideoCodec::Mjpeg, dest, 16, 8)),
        (display_msg::STREAM_DATA_SIZED, w.into_vec()),
        // Frames of a stream that is not open, or that are no JPEG, are dropped.
        (display_msg::STREAM_DATA, stream_data(8, 0, encode_solid_jpeg(8, 8, 1, 2, 3))),
        (display_msg::STREAM_DATA, stream_data(7, 0, vec![1, 2, 3])),
    ]);
    assert_eq!(events.len(), 2);
    assert!(matches!(&events[1], DisplayEvent::StreamFrame { dest_rect, .. } if *dest_rect == own));
}

#[test]
fn destroying_all_streams_reports_each() {
    let dest = rect(0, 0, 8, 8);
    let events = run(&[
        (display_msg::STREAM_CREATE, stream_create(1, VideoCodec::Mjpeg, dest, 8, 8)),
        (display_msg::STREAM_CREATE, stream_create(2, VideoCodec::Mjpeg, dest, 8, 8)),
        (display_msg::STREAM_DESTROY_ALL, vec![]),
        (display_msg::STREAM_DATA, stream_data(1, 0, encode_solid_jpeg(8, 8, 1, 2, 3))),
    ]);
    assert_eq!(events.len(), 4);
    let mut gone: Vec<u32> = events[2..]
        .iter()
        .map(|e| match e {
            DisplayEvent::StreamDestroyed { stream_id } => *stream_id,
            other => panic!("expected StreamDestroyed, got {other:?}"),
        })
        .collect();
    gone.sort();
    assert_eq!(gone, vec![1, 2]);
}

#[test]
fn jpeg_frames_of_each_format() {
    let raw = |format, pixels: Vec<u8>| RawFrame { width: 2, height: 1, format, pixels };
    let rgb = frame_from(raw(JpegFormat::Rgb24, vec![1, 2, 3, 4, 5, 6])).unwrap();
    assert_eq!(rgb.bgra, vec![3, 2, 1, 255, 6, 5, 4, 255]);
    let gray = frame_from(raw(JpegFormat::L8, vec![9, 8])).unwrap();
    assert_eq!(gray.bgra, vec![9, 9, 9, 255, 8, 8, 8, 255]);
    for format in [JpegFormat::L16, JpegFormat::Cmyk32] {
        assert_eq!(
            frame_from(raw(format, vec![0; 8])),
            Err(MjpegError::UnsupportedPixelFormat(format))
        );
    }
    assert_eq!(
        frame_from(RawFrame { width: 16385, height: 1, format: JpegFormat::L8, pixels: vec![0; 16385] }),
        Err(MjpegError::TooLarge { width: 16385, height: 1 })
    );
}

#[test]
fn gray_and_cmyk_jpegs() {
    let mut gray = Vec::new();
    JEnc::new(&mut gray, 95).encode(&[77; 64], 8, 8, ColorType::Luma).unwrap();
    let frame = decode(&gray).unwrap();
    assert_eq!((frame.width, frame.height, frame.bgra.len()), (8, 8, 256));
    assert!((frame.bgra[0] as i32 - 77).abs() < 4);
    let mut cmyk = Vec::new();
    JEnc::new(&mut cmyk, 95).encode(&[0; 256], 8, 8, ColorType::Cmyk).unwrap();
    assert_eq!(decode(&cmyk), Err(MjpegError::UnsupportedPixelFormat(JpegFormat::Cmyk32)));
}

/// A gray JPEG of one component, up to the end of its frame header.
fn jpeg_header(width: u16, height: u16) -> Vec<u8> {
    let mut jpeg = vec![0xff, 0xd8, 0xff, 0xc0, 0, 11, 8];
    jpeg.extend_from_slice(&height.to_be_bytes());
    jpeg.extend_from_slice(&width.to_be_bytes());
    jpeg.extend_from_slice(&[1, 1, 0x11, 0]);
    jpeg
}

#[test]
fn a_jpeg_over_the_cap_is_refused_by_its_header() {
    for (width, height) in [(8, 65535), (65535, 8), (16385, 1), (1, 16385)] {
        assert_eq!(
            decode(&jpeg_header(width, height)),
            Err(MjpegError::TooLarge { width, height })
        );
    }
    assert!(matches!(decode(&jpeg_header(16384, 16384)), Err(MjpegError::Jpeg(_))));
    assert!(matches!(decode(&jpeg_header(0, 8)), Err(MjpegError::Jpeg(_))));
}

#[test]
fn a_jpeg_that_is_none_is_an_error() {
    assert!(matches!(decode(&[1, 2, 3]), Err(MjpegError::Jpeg(_))));
    assert!(decode(&[]).is_err());
}

#[test]
fn flipping_twice_changes_nothing() {
    let rows: Vec<u8> = (0..12).collect();
    let flipped = flip_vertical(&rows, 4, 3);
    assert_eq!(flipped, vec![8, 9, 10, 11, 4, 5, 6, 7, 0, 1, 2, 3]);
    assert_eq!(flip_vertical(&flipped, 4, 3), rows);
}

#[test]
fn placeholders_are_bounded() {
    assert_eq!(bounded_placeholder(2, 3).map(|p| p.len()), Some(24));
    assert_eq!(bounded_placeholder(100_000, 100_000), None);
    assert_eq!(bounded_placeholder(0, 3), None);
}

#[test]
fn the_display_channel_introduces_itself() {
    let o = init_message(salt_from(Some(0x1234)));
    assert_eq!(o.msg_type, display_msg::INIT);
    let init = DisplayInit::decode(&o.body).unwrap();
    let other = init_message(salt_from(Some(0x1235)));
    assert_ne!(o.body, other.body);
    assert_eq!(DisplayInit::decode(&other.body).unwrap().glz_dictionary_window_size,
        init.glz_dictionary_window_size);
}
