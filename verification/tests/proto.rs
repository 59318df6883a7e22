//! Wire messages: encoding, decoding and the limits on what a peer may claim.

use capsaicin::proto::caps::{common, CapSet};
use capsaicin::proto::common::{Ping, SetAck};
use capsaicin::proto::display::{surface_flags, surface_fmt, Head, MonitorsConfig, SurfaceCreate};
use capsaicin::proto::draw::{
    ropd, scale_mode, Brush, Clip, DrawBase, DrawCopy, DrawFill, QMask,
};
use capsaicin::proto::enums::{ChannelType, LinkError, SPICE_TICKET_PUBKEY_BYTES};
use capsaicin::proto::error::ProtoError;
use capsaicin::proto::header::{
    DataHeader, MiniDataHeader, DATA_HEADER_SIZE, MINI_DATA_HEADER_SIZE,
};
use capsaicin::proto::image::{
    bitmap_flags, bitmap_fmt, encode_single_chunk, image_type, read_chunks, Bitmap,
    ImageDescriptor,
};
use capsaicin::proto::inputs::{button, button_mask, KeyCode, MouseButton, MousePosition};
use capsaicin::proto::limits::bounded_size;
use capsaicin::proto::link::{
    LinkHeader, LinkMess, LinkReply, LinkResult, LINK_HEADER_SIZE, LINK_RESULT_SIZE,
};
use capsaicin::proto::main_chan::{mouse_mode, ChannelsList, Init};
use capsaicin::proto::stream::{
    stream_flags, StreamCreate, StreamData, StreamDataHeader, StreamDataSized, StreamDestroy,
    VideoCodec,
};
use capsaicin::proto::types::{ChannelId, Point, Reader, Rect, Writer};

#[test]
fn set_and_has() {
    let mut c = CapSet::new();
    c.set(common::AUTH_SPICE);
    c.set(common::MINI_HEADER);
    assert!(c.has(common::AUTH_SPICE));
    assert!(c.has(common::MINI_HEADER));
    assert!(!c.has(common::AUTH_SASL));
}

#[test]
fn spans_multiple_words() {
    let mut c = CapSet::new();
    c.set(33);
    assert_eq!(c.0.len(), 2);
    assert!(c.has(33));
    assert!(!c.has(32));
}

#[test]
fn with_caps_builder() {
    let c = CapSet::with_caps([common::AUTH_SPICE, common::MINI_HEADER]);
    assert!(c.has(common::AUTH_SPICE));
    assert!(c.has(common::MINI_HEADER));
}

#[test]
fn set_ack_roundtrip() {
    let m = SetAck {
        generation: 1,
        window: 100,
    };
    let mut w = Writer::new();
    m.encode(&mut w);
    assert_eq!(SetAck::decode(w.as_slice()).unwrap(), m);
}

#[test]
fn ping_roundtrip_preserves_opaque_payload() {
    let p = Ping {
        id: 7,
        timestamp: 0xdead_beef_cafe,
        data: vec![1, 2, 3, 4, 5],
    };
    let mut w = Writer::new();
    p.encode(&mut w);
    let decoded = Ping::decode(w.as_slice()).unwrap();
    assert_eq!(decoded, p);
}

#[test]
fn surface_create_roundtrip() {
    let m = SurfaceCreate {
        surface_id: 0,
        width: 1920,
        height: 1080,
        format: surface_fmt::_32_xRGB,
        flags: surface_flags::PRIMARY,
    };
    let mut w = Writer::new();
    m.encode(&mut w);
    assert_eq!(w.as_slice().len(), 20);
    assert_eq!(SurfaceCreate::decode(w.as_slice()).unwrap(), m);
}

#[test]
fn monitors_config_roundtrip() {
    let m = MonitorsConfig {
        max_allowed: 4,
        heads: vec![Head {
            id: 0,
            surface_id: 0,
            width: 1920,
            height: 1080,
            x: 0,
            y: 0,
            flags: 0,
        }],
    };
    let mut w = Writer::new();
    m.encode(&mut w);
    assert_eq!(MonitorsConfig::decode(w.as_slice()).unwrap(), m);
}

fn simple_solid_fill() -> DrawFill {
    DrawFill {
        base: DrawBase {
            surface_id: 0,
            bounds: Rect {
                top: 10,
                left: 20,
                bottom: 30,
                right: 40,
            },
            clip: Clip::NoClip,
        },
        brush: Brush::Solid(0x00_FF_80_00),
        rop_descriptor: ropd::OP_PUT,
        mask: QMask {
            flags: 0,
            pos: Point { x: 0, y: 0 },
            bitmap_offset: 0,
        },
    }
}

#[test]
fn draw_fill_roundtrip_simple() {
    let d = simple_solid_fill();
    let mut w = Writer::new();
    d.encode(&mut w);
    let encoded = w.as_slice();
    // surface_id(4) + box(16) + clip.type(1) + brush.type(4) +
    // brush.color(4) + ropd(2) + mask.flags(1) + mask.pos(8) +
    // mask.bitmap_offset(4) = 44 bytes.
    assert_eq!(encoded.len(), 44);
    assert_eq!(DrawFill::decode(encoded).unwrap(), d);
}

#[test]
fn simple_solid_is_recognised() {
    assert!(simple_solid_fill().is_simple_solid());
}

#[test]
fn pattern_brush_is_not_simple_solid() {
    let mut d = simple_solid_fill();
    d.brush = Brush::Pattern {
        offset: 48,
        pos: Point { x: 0, y: 0 },
    };
    assert!(!d.is_simple_solid());
}

#[test]
fn ropd_other_than_op_put_is_not_simple_solid() {
    let mut d = simple_solid_fill();
    d.rop_descriptor = ropd::OP_XOR;
    assert!(!d.is_simple_solid());
}

#[test]
fn mask_disqualifies_simple_solid() {
    let mut d = simple_solid_fill();
    d.mask.bitmap_offset = 48;
    assert!(!d.is_simple_solid());
}

fn simple_copy() -> DrawCopy {
    DrawCopy {
        base: DrawBase {
            surface_id: 0,
            bounds: Rect {
                top: 0,
                left: 0,
                bottom: 16,
                right: 32,
            },
            clip: Clip::NoClip,
        },
        src_bitmap_offset: 57,
        src_area: Rect {
            top: 0,
            left: 0,
            bottom: 16,
            right: 32,
        },
        rop_descriptor: ropd::OP_PUT,
        scale_mode: scale_mode::NEAREST,
        mask: QMask {
            flags: 0,
            pos: Point { x: 0, y: 0 },
            bitmap_offset: 0,
        },
    }
}

#[test]
fn draw_copy_roundtrip() {
    let d = simple_copy();
    let mut w = Writer::new();
    d.encode(&mut w);
    // base (21 NONE) + ptr (4) + src_area (16) + ropd (2) + scale (1) + mask (13) = 57
    assert_eq!(w.as_slice().len(), 57);
    assert_eq!(DrawCopy::decode(w.as_slice()).unwrap(), d);
    assert!(d.is_simple_copy());
}

#[test]
fn draw_copy_with_mask_is_not_simple() {
    let mut d = simple_copy();
    d.mask.bitmap_offset = 64;
    assert!(!d.is_simple_copy());
}

#[test]
fn rects_clip_disqualifies_simple_solid() {
    let mut d = simple_solid_fill();
    d.base.clip = Clip::Rects { offset: 48 };
    assert!(!d.is_simple_solid());
}

#[test]
fn data_header_roundtrip() {
    let h = DataHeader {
        serial: 0x0102030405060708,
        msg_type: 0x1234,
        size: 0xdead_beef,
        sub_list: 0,
    };
    let mut buf = Vec::new();
    h.encode(&mut buf);
    assert_eq!(buf.len(), DATA_HEADER_SIZE);
    assert_eq!(DataHeader::decode(&buf).unwrap(), h);
}

#[test]
fn mini_header_roundtrip() {
    let h = MiniDataHeader {
        msg_type: 0x4242,
        size: 99,
    };
    let mut buf = Vec::new();
    h.encode(&mut buf);
    assert_eq!(buf.len(), MINI_DATA_HEADER_SIZE);
    assert_eq!(MiniDataHeader::decode(&buf).unwrap(), h);
}

#[test]
fn data_header_short_buf() {
    assert!(matches!(
        DataHeader::decode(&[0u8; 4]),
        Err(ProtoError::Short { .. })
    ));
}

#[test]
fn image_descriptor_roundtrip() {
    let d = ImageDescriptor {
        id: 0x1122_3344_5566_7788,
        image_type: image_type::BITMAP,
        flags: 0,
        width: 640,
        height: 480,
    };
    let mut w = Writer::new();
    d.encode(&mut w);
    assert_eq!(w.as_slice().len(), ImageDescriptor::SIZE);
    let mut r = Reader::new(w.as_slice());
    assert_eq!(ImageDescriptor::decode(&mut r).unwrap(), d);
}

#[test]
fn bitmap_roundtrip() {
    let b = Bitmap {
        format: bitmap_fmt::_32BIT,
        flags: bitmap_flags::TOP_DOWN,
        width: 32,
        height: 16,
        stride: 128,
        palette_offset: 0,
        data_offset: 64,
    };
    let mut w = Writer::new();
    b.encode(&mut w);
    assert_eq!(w.as_slice().len(), Bitmap::SIZE);
    let mut r = Reader::new(w.as_slice());
    assert_eq!(Bitmap::decode(&mut r).unwrap(), b);
}

#[test]
fn chunks_single_roundtrip() {
    let payload: Vec<u8> = (0..200).map(|i| i as u8).collect();
    let encoded = encode_single_chunk(&payload);
    // data_size + num_chunks + chunk_len + payload = 12 + 200.
    assert_eq!(encoded.len(), 12 + payload.len());
    let decoded = read_chunks(&encoded, 0).unwrap();
    assert_eq!(decoded, payload);
}

#[test]
fn chunks_respects_offset() {
    let payload = b"hello world";
    let mut wire = vec![0xAA, 0xBB, 0xCC];
    wire.extend_from_slice(&encode_single_chunk(payload));
    let decoded = read_chunks(&wire, 3).unwrap();
    assert_eq!(decoded, payload);
}

#[test]
fn chunks_multi() {
    // Hand-craft a two-chunk buffer.
    let a: &[u8] = &[1, 2, 3, 4];
    let b: &[u8] = &[5, 6, 7];
    let mut w = Writer::new();
    w.u32((a.len() + b.len()) as u32); // data_size
    w.u32(2); // num_chunks
    w.u32(a.len() as u32);
    w.bytes(a);
    w.u32(b.len() as u32);
    w.bytes(b);
    let decoded = read_chunks(w.as_slice(), 0).unwrap();
    assert_eq!(decoded, [1, 2, 3, 4, 5, 6, 7]);
}

#[test]
fn key_code_roundtrip() {
    for code in [0x1e_u32, 0xe0_48, 0x0000_001d] {
        let k = KeyCode { code };
        let mut w = Writer::new();
        k.encode(&mut w);
        assert_eq!(KeyCode::decode(w.as_slice()).unwrap(), k);
    }
}

#[test]
fn mouse_position_roundtrip() {
    let m = MousePosition {
        x: 1920,
        y: 1080,
        buttons_state: button_mask::LEFT,
        display_id: 0,
    };
    let mut w = Writer::new();
    m.encode(&mut w);
    assert_eq!(w.as_slice().len(), 13);
    assert_eq!(MousePosition::decode(w.as_slice()).unwrap(), m);
}

#[test]
fn mouse_button_roundtrip() {
    let m = MouseButton {
        button: button::LEFT,
        buttons_state: button_mask::LEFT,
    };
    let mut w = Writer::new();
    m.encode(&mut w);
    assert_eq!(w.as_slice().len(), 5);
    assert_eq!(MouseButton::decode(w.as_slice()).unwrap(), m);
}

#[test]
fn bounded_size_rejects_oversize() {
    assert!(matches!(
        bounded_size(0xFFFF_FFFF, 1024),
        Err(ProtoError::SizeTooLarge { .. })
    ));
    assert_eq!(bounded_size(512, 1024).unwrap(), 512);
    assert_eq!(bounded_size(1024, 1024).unwrap(), 1024);
}

#[test]
fn link_header_roundtrip() {
    let h = LinkHeader::new(42);
    let mut buf = Vec::new();
    h.encode(&mut buf);
    assert_eq!(buf.len(), LINK_HEADER_SIZE);
    assert_eq!(LinkHeader::decode(&buf).unwrap(), h);
}

#[test]
fn link_header_rejects_bad_magic() {
    let mut buf = vec![0u8; LINK_HEADER_SIZE];
    buf[0..4].copy_from_slice(&0xdead_beefu32.to_le_bytes());
    assert!(matches!(
        LinkHeader::decode(&buf),
        Err(ProtoError::BadMagic { .. })
    ));
}

#[test]
fn link_mess_roundtrip_with_caps() {
    let m = LinkMess {
        connection_id: 0,
        channel_type: ChannelType::Main,
        channel_id: 0,
        common_caps: vec![0b11],
        channel_caps: vec![0b1, 0b10],
    };
    let mut buf = Vec::new();
    m.encode(&mut buf);
    assert_eq!(buf.len(), m.encoded_len());
    let decoded = LinkMess::decode(&buf).unwrap();
    assert_eq!(decoded, m);
}

#[test]
fn link_reply_roundtrip() {
    let mut pub_key = [0u8; SPICE_TICKET_PUBKEY_BYTES];
    for (i, b) in pub_key.iter_mut().enumerate() {
        *b = i as u8;
    }
    let r = LinkReply {
        error: LinkError::Success,
        pub_key,
        common_caps: vec![1, 2, 3],
        channel_caps: vec![42],
    };
    let mut buf = Vec::new();
    r.encode(&mut buf);
    assert_eq!(buf.len(), r.encoded_len());
    assert_eq!(LinkReply::decode(&buf).unwrap(), r);
}

#[test]
fn link_result_roundtrip() {
    let r = LinkResult(LinkError::PermissionDenied);
    let mut buf = Vec::new();
    r.encode(&mut buf);
    assert_eq!(buf.len(), LINK_RESULT_SIZE);
    assert_eq!(LinkResult::decode(&buf).unwrap(), r);
}

#[test]
fn init_roundtrip() {
    let m = Init {
        session_id: 0x1111_2222,
        display_channels_hint: 1,
        supported_mouse_modes: mouse_mode::SERVER | mouse_mode::CLIENT,
        current_mouse_mode: mouse_mode::SERVER,
        agent_connected: 0,
        agent_tokens: 10,
        multi_media_time: 0,
        ram_hint: 0,
    };
    let mut w = Writer::new();
    m.encode(&mut w);
    assert_eq!(w.as_slice().len(), 32);
    assert_eq!(Init::decode(w.as_slice()).unwrap(), m);
}

#[test]
fn channels_list_roundtrip() {
    let list = ChannelsList {
        channels: vec![
            ChannelId {
                channel_type: 2,
                id: 0,
            },
            ChannelId {
                channel_type: 3,
                id: 0,
            },
            ChannelId {
                channel_type: 4,
                id: 0,
            },
        ],
    };
    let mut w = Writer::new();
    list.encode(&mut w);
    assert_eq!(ChannelsList::decode(w.as_slice()).unwrap(), list);
}

#[test]
fn stream_create_roundtrip_none_clip() {
    let m = StreamCreate {
        surface_id: 0,
        stream_id: 7,
        flags: stream_flags::TOP_DOWN,
        codec: VideoCodec::Mjpeg,
        stamp: 0x1234_5678_9ABC_DEF0,
        stream_width: 1920,
        stream_height: 1080,
        src_width: 1920,
        src_height: 1080,
        dest: Rect {
            top: 100,
            left: 200,
            bottom: 300,
            right: 400,
        },
        clip: Clip::NoClip,
    };
    let mut w = Writer::new();
    m.encode(&mut w);
    // surface_id(4) + stream_id(4) + flags(1) + codec(1) + stamp(8) +
    // stream_w(4) + stream_h(4) + src_w(4) + src_h(4) + dest(16) +
    // clip(1) = 51 bytes.
    assert_eq!(w.as_slice().len(), 51);
    assert_eq!(StreamCreate::decode(w.as_slice()).unwrap(), m);
}

#[test]
fn stream_data_roundtrip() {
    let m = StreamData {
        header: StreamDataHeader {
            stream_id: 1,
            multi_media_time: 0x0DEADBEE,
        },
        data: vec![0xFF, 0xD8, 0xFF, 0xE0, 0xFF, 0xD9],
    };
    let mut w = Writer::new();
    m.encode(&mut w);
    // header(8) + data_size(4) + 6 bytes = 18.
    assert_eq!(w.as_slice().len(), 18);
    assert_eq!(StreamData::decode(w.as_slice()).unwrap(), m);
}

#[test]
fn stream_data_sized_roundtrip() {
    let m = StreamDataSized {
        header: StreamDataHeader {
            stream_id: 2,
            multi_media_time: 42,
        },
        width: 64,
        height: 48,
        dest: Rect { top: 0, left: 0, bottom: 48, right: 64 },
        data: vec![0xAA; 100],
    };
    let mut w = Writer::new();
    m.encode(&mut w);
    assert_eq!(StreamDataSized::decode(w.as_slice()).unwrap(), m);
}

#[test]
fn stream_destroy_roundtrip() {
    let m = StreamDestroy { stream_id: 99 };
    let mut w = Writer::new();
    m.encode(&mut w);
    assert_eq!(StreamDestroy::decode(w.as_slice()).unwrap(), m);
}

#[test]
fn reader_advances() {
    let mut r = Reader::new(&[1, 0, 0, 0, 2, 0]);
    assert_eq!(r.u32().unwrap(), 1);
    assert_eq!(r.u16().unwrap(), 2);
    assert_eq!(r.remaining(), 0);
}

#[test]
fn reader_short() {
    let mut r = Reader::new(&[1]);
    assert!(matches!(r.u32(), Err(ProtoError::Short { .. })));
}

#[test]
fn rect_roundtrip() {
    let r = Rect {
        top: 1,
        left: 2,
        bottom: 3,
        right: 4,
    };
    let mut w = Writer::new();
    r.encode(&mut w);
    let mut rr = Reader::new(w.as_slice());
    assert_eq!(Rect::decode(&mut rr).unwrap(), r);
}

#[test]
fn every_enum_number_reads_back() {
    for v in 0..=255u8 {
        match ChannelType::from_u8(v) {
            Ok(t) => assert_eq!(t.to_u8(), v),
            Err(e) => assert_eq!(e, ProtoError::BadChannelType(v)),
        }
    }
    assert_eq!(ChannelType::from_u8(1), Ok(ChannelType::Main));
    assert_eq!(LinkError::from_u32(7), Ok(LinkError::PermissionDenied));
    assert_eq!(LinkError::from_u32(10), Err(ProtoError::BadLinkError(10)));
    for v in 0..10u32 {
        assert_eq!(LinkError::from_u32(v).unwrap().to_u32(), v);
    }
}

#[test]
fn a_link_message_with_misplaced_caps_is_refused() {
    let m = LinkMess {
        connection_id: 1,
        channel_type: ChannelType::Display,
        channel_id: 0,
        common_caps: vec![1],
        channel_caps: vec![],
    };
    let mut buf = Vec::new();
    m.encode(&mut buf);
    // The offset of the words is the last field before them.
    let mut bad = buf.clone();
    bad[14..18].copy_from_slice(&9999u32.to_le_bytes());
    assert!(matches!(
        LinkMess::decode(&bad),
        Err(ProtoError::BadCapsOffset { offset: 9999, .. })
    ));
    assert!(matches!(LinkMess::decode(&buf[..10]), Err(ProtoError::Short { .. })));
}

#[test]
fn numbers_are_little_endian() {
    let mut w = Writer::new();
    w.u8(1);
    w.u16(0x0203);
    w.u32(0x0405_0607);
    w.u64(0x0809_0a0b_0c0d_0e0f);
    w.i16(-1);
    w.i32(-2);
    w.i64(-3);
    assert_eq!(
        w.as_slice(),
        [
            1, 3, 2, 7, 6, 5, 4, 15, 14, 13, 12, 11, 10, 9, 8, 255, 255, 254, 255, 255, 255, 253,
            255, 255, 255, 255, 255, 255, 255
        ]
    );
    let mut r = Reader::new(w.as_slice());
    assert_eq!(r.u8(), Ok(1));
    assert_eq!(r.u16(), Ok(0x0203));
    assert_eq!(r.u32(), Ok(0x0405_0607));
    assert_eq!(r.u64(), Ok(0x0809_0a0b_0c0d_0e0f));
    assert_eq!((r.i16(), r.i32(), r.i64()), (Ok(-1), Ok(-2), Ok(-3)));
    assert_eq!((r.position(), r.remaining()), (29, 0));
    assert_eq!(r.bytes(1), Err(ProtoError::Short { need: 1, have: 0 }));
}

#[test]
fn chunks_that_lie_are_refused() {
    let good = encode_single_chunk(&[1, 2, 3]);
    assert!(read_chunks(&good, 100).is_err());
    let mut short = good.clone();
    short[8] = 200;
    assert!(read_chunks(&short, 0).is_err());
    let mut many = good;
    many[4..8].copy_from_slice(&u32::MAX.to_le_bytes());
    assert!(read_chunks(&many, 0).is_err());
}
