//! The numbers by which kinds of things go on the wire.
//!
//! They run on from a first one, in a fixed order, so each law is a list.

use vstd::arithmetic::power2::pow2;
use vstd::prelude::*;

use crate::proto::caps;
use crate::proto::cursor::{cursor_flag, cursor_msg, cursor_type};
use crate::proto::display::{msg_type, surface_flags, surface_fmt};
use crate::proto::draw::{brush_type, clip_type, ropd, scale_mode};
use crate::proto::enums::{main_msg, main_msgc, msg, msgc, ChannelType, LinkError};
use crate::proto::error::ProtoError;
use crate::proto::image::{bitmap_flags, bitmap_fmt, image_type};
use crate::proto::inputs::{button, button_mask, client_msg, server_msg};
use crate::proto::main_chan::mouse_mode;
use crate::proto::stream::{stream_flags, VideoCodec};

verus! {

/// The numbers run on by one from the first.
pub open spec fn run_on(numbers: Seq<int>, first: int) -> bool {
    forall|i: int| 0 <= i < numbers.len() ==> #[trigger] numbers[i] == first + i
}

/// Each number is twice the one before, from the first.
pub open spec fn double_up(numbers: Seq<int>, first: int) -> bool {
    &&& numbers[0] == first
    &&& forall|i: int| 0 < i < numbers.len() ==> #[trigger] numbers[i] == 2 * numbers[i - 1]
}

/// Channels are numbered from 1, and each number names its channel.
pub proof fn channels_are_numbered(i: int)
    requires
        0 <= i < 11,
    ensures
        ({
            let kinds = seq![
                ChannelType::Main,
                ChannelType::Display,
                ChannelType::Inputs,
                ChannelType::Cursor,
                ChannelType::Playback,
                ChannelType::Record,
                ChannelType::Tunnel,
                ChannelType::Smartcard,
                ChannelType::UsbRedir,
                ChannelType::Port,
                ChannelType::WebDav,
            ];
            &&& kinds[i].code() == i + 1
            &&& ChannelType::of((i + 1) as u8) == Ok::<ChannelType, ProtoError>(kinds[i])
        }),
{
}

/// Link results are numbered from 0, and each number names its result.
pub proof fn link_errors_are_numbered(i: int)
    requires
        0 <= i < 10,
    ensures
        ({
            let kinds = seq![
                LinkError::Success,
                LinkError::Error,
                LinkError::InvalidMagic,
                LinkError::InvalidData,
                LinkError::VersionMismatch,
                LinkError::NeedSecured,
                LinkError::NeedUnsecured,
                LinkError::PermissionDenied,
                LinkError::BadConnectionId,
                LinkError::ChannelNotAvailable,
            ];
            &&& kinds[i].code() == i
            &&& LinkError::of(i as u32) == Ok::<LinkError, ProtoError>(kinds[i])
        }),
{
}

/// Video codecs are numbered from 1, and each number names its codec.
pub proof fn codecs_are_numbered(i: int)
    requires
        0 <= i < 5,
    ensures
        ({
            let kinds = seq![
                VideoCodec::Mjpeg,
                VideoCodec::Vp8,
                VideoCodec::H264,
                VideoCodec::Vp9,
                VideoCodec::H265,
            ];
            &&& kinds[i].code() == i + 1
            &&& VideoCodec::of((i + 1) as u8) == Ok::<VideoCodec, ProtoError>(kinds[i])
        }),
{
}

/// A number beyond the last names nothing.
pub proof fn other_numbers_name_nothing(v: u8, w: u32)
    ensures
        v == 0 || v > 11 ==> ChannelType::of(v) == Err::<ChannelType, ProtoError>(
            ProtoError::BadChannelType(v),
        ),
        w > 9 ==> LinkError::of(w) == Err::<LinkError, ProtoError>(ProtoError::BadLinkError(w)),
        v == 0 || v > 5 ==> VideoCodec::of(v) is Err,
{
}

/// The numbers of the messages that every channel has.
pub proof fn common_messages_are_numbered()
    ensures
        run_on(
            seq![
                msg::MIGRATE as int,
                msg::MIGRATE_DATA as int,
                msg::SET_ACK as int,
                msg::PING as int,
                msg::WAIT_FOR_CHANNELS as int,
                msg::DISCONNECTING as int,
                msg::NOTIFY as int,
                msg::LIST as int,
            ],
            1,
        ),
        run_on(
            seq![
                msgc::ACK_SYNC as int,
                msgc::ACK as int,
                msgc::PONG as int,
                msgc::MIGRATE_FLUSH_MARK as int,
                msgc::MIGRATE_DATA as int,
                msgc::DISCONNECTING as int,
            ],
            1,
        ),
{
}

/// The numbers of the main channel's messages.
pub proof fn main_messages_are_numbered()
    ensures
        run_on(
            seq![
                main_msg::MIGRATE_BEGIN as int,
                main_msg::MIGRATE_CANCEL as int,
                main_msg::INIT as int,
                main_msg::CHANNELS_LIST as int,
                main_msg::MOUSE_MODE as int,
                main_msg::MULTI_MEDIA_TIME as int,
                main_msg::AGENT_CONNECTED as int,
                main_msg::AGENT_DISCONNECTED as int,
                main_msg::AGENT_DATA as int,
                main_msg::AGENT_TOKEN as int,
                main_msg::MIGRATE_SWITCH_HOST as int,
                main_msg::MIGRATE_END as int,
                main_msg::NAME as int,
                main_msg::UUID as int,
                main_msg::AGENT_CONNECTED_TOKENS as int,
                main_msg::MIGRATE_BEGIN_SEAMLESS as int,
                main_msg::MIGRATE_DST_SEAMLESS_ACK as int,
                main_msg::MIGRATE_DST_SEAMLESS_NACK as int,
            ],
            101,
        ),
        run_on(
            seq![
                main_msgc::CLIENT_INFO as int,
                main_msgc::MIGRATE_CONNECTED as int,
                main_msgc::MIGRATE_CONNECT_ERROR as int,
                main_msgc::ATTACH_CHANNELS as int,
                main_msgc::MOUSE_MODE_REQUEST as int,
                main_msgc::AGENT_START as int,
                main_msgc::AGENT_DATA as int,
                main_msgc::AGENT_TOKEN as int,
                main_msgc::MIGRATE_END as int,
                main_msgc::MIGRATE_DST_DO_SEAMLESS as int,
                main_msgc::MIGRATE_CONNECTED_SEAMLESS as int,
            ],
            101,
        ),
        double_up(seq![mouse_mode::SERVER as int, mouse_mode::CLIENT as int], 1),
{
}

/// The numbers of the display channel's messages.
pub proof fn display_messages_are_numbered()
    ensures
        run_on(
            seq![
                msg_type::MODE as int,
                msg_type::MARK as int,
                msg_type::RESET as int,
                msg_type::COPY_BITS as int,
                msg_type::INVAL_LIST as int,
                msg_type::INVAL_ALL_PIXMAPS as int,
                msg_type::INVAL_PALETTE as int,
                msg_type::INVAL_ALL_PALETTES as int,
            ],
            101,
        ),
        run_on(
            seq![
                msg_type::STREAM_CREATE as int,
                msg_type::STREAM_DATA as int,
                msg_type::STREAM_CLIP as int,
                msg_type::STREAM_DESTROY as int,
                msg_type::STREAM_DESTROY_ALL as int,
            ],
            122,
        ),
        run_on(
            seq![
                msg_type::DRAW_FILL as int,
                msg_type::DRAW_OPAQUE as int,
                msg_type::DRAW_COPY as int,
                msg_type::DRAW_BLEND as int,
                msg_type::DRAW_BLACKNESS as int,
                msg_type::DRAW_WHITENESS as int,
                msg_type::DRAW_INVERS as int,
                msg_type::DRAW_ROP3 as int,
                msg_type::DRAW_STROKE as int,
                msg_type::DRAW_TEXT as int,
                msg_type::DRAW_TRANSPARENT as int,
                msg_type::DRAW_ALPHA_BLEND as int,
                msg_type::SURFACE_CREATE as int,
                msg_type::SURFACE_DESTROY as int,
            ],
            302,
        ),
        run_on(
            seq![
                msg_type::MONITORS_CONFIG as int,
                msg_type::DRAW_COMPOSITE as int,
                msg_type::STREAM_DATA_SIZED as int,
                msg_type::STREAM_ACTIVATE_REPORT as int,
            ],
            317,
        ),
        run_on(
            seq![
                msg_type::INIT as int,
                msg_type::STREAM_REPORT as int,
                msg_type::PREFERRED_COMPRESSION as int,
            ],
            101,
        ),
{
}

/// The numbers of the cursor channel: messages, kinds of cursor, and flags.
pub proof fn cursor_numbers()
    ensures
        run_on(
            seq![
                cursor_msg::INIT as int,
                cursor_msg::RESET as int,
                cursor_msg::SET as int,
                cursor_msg::MOVE as int,
                cursor_msg::HIDE as int,
                cursor_msg::TRAIL as int,
                cursor_msg::INVAL_ONE as int,
                cursor_msg::INVAL_ALL as int,
            ],
            101,
        ),
        run_on(
            seq![
                cursor_type::ALPHA as int,
                cursor_type::MONO as int,
                cursor_type::COLOR_4 as int,
                cursor_type::COLOR_8 as int,
                cursor_type::COLOR_16 as int,
                cursor_type::COLOR_24 as int,
                cursor_type::COLOR_32 as int,
            ],
            0,
        ),
        double_up(
            seq![
                cursor_flag::CACHE_ME as int,
                cursor_flag::FROM_CACHE as int,
                cursor_flag::FROM_CACHE_LOSSLESS as int,
            ],
            1,
        ),
        cursor_flag::NONE == 0,
{
}

/// The numbers of the inputs channel: messages both ways, buttons, and the
/// bits of held buttons.
pub proof fn input_numbers()
    ensures
        run_on(
            seq![
                client_msg::INPUTS_KEY_DOWN as int,
                client_msg::INPUTS_KEY_UP as int,
                client_msg::INPUTS_KEY_MODIFIERS as int,
            ],
            101,
        ),
        run_on(
            seq![
                client_msg::INPUTS_MOUSE_MOTION as int,
                client_msg::INPUTS_MOUSE_POSITION as int,
                client_msg::INPUTS_MOUSE_PRESS as int,
                client_msg::INPUTS_MOUSE_RELEASE as int,
            ],
            111,
        ),
        run_on(
            seq![server_msg::INPUTS_INIT as int, server_msg::INPUTS_KEY_MODIFIERS as int],
            101,
        ),
        server_msg::INPUTS_MOUSE_MOTION_ACK == 111,
        run_on(
            seq![
                button::INVALID as int,
                button::LEFT as int,
                button::MIDDLE as int,
                button::RIGHT as int,
                button::UP as int,
                button::DOWN as int,
                button::SIDE as int,
                button::EXTRA as int,
            ],
            0,
        ),
        double_up(
            seq![
                button_mask::LEFT as int,
                button_mask::MIDDLE as int,
                button_mask::RIGHT as int,
                button_mask::SIDE as int,
                button_mask::EXTRA as int,
            ],
            1,
        ),
{
}

/// The numbers in drawing commands and images.
pub proof fn drawing_numbers()
    ensures
        run_on(
            seq![brush_type::NONE as int, brush_type::SOLID as int, brush_type::PATTERN as int],
            0,
        ),
        run_on(seq![clip_type::NONE as int, clip_type::RECTS as int], 0),
        run_on(seq![scale_mode::INTERPOLATE as int, scale_mode::NEAREST as int], 0),
        double_up(
            seq![
                ropd::INVERS_SRC as int,
                ropd::INVERS_BRUSH as int,
                ropd::INVERS_DEST as int,
                ropd::OP_PUT as int,
                ropd::OP_OR as int,
                ropd::OP_AND as int,
                ropd::OP_XOR as int,
                ropd::OP_BLACKNESS as int,
                ropd::OP_WHITENESS as int,
                ropd::OP_INVERS as int,
                ropd::INVERS_RES as int,
            ],
            1,
        ),
        run_on(
            seq![image_type::BITMAP as int, image_type::QUIC as int, image_type::RESERVED as int],
            0,
        ),
        run_on(
            seq![
                image_type::LZ_PLT as int,
                image_type::LZ_RGB as int,
                image_type::GLZ_RGB as int,
                image_type::FROM_CACHE as int,
                image_type::SURFACE as int,
                image_type::JPEG as int,
                image_type::FROM_CACHE_LOSSLESS as int,
                image_type::ZLIB_GLZ_RGB as int,
                image_type::JPEG_ALPHA as int,
                image_type::LZ4 as int,
            ],
            100,
        ),
        run_on(
            seq![
                bitmap_fmt::INVALID as int,
                bitmap_fmt::_1BIT_LE as int,
                bitmap_fmt::_1BIT_BE as int,
                bitmap_fmt::_4BIT_LE as int,
                bitmap_fmt::_4BIT_BE as int,
                bitmap_fmt::_8BIT as int,
                bitmap_fmt::_16BIT as int,
                bitmap_fmt::_24BIT as int,
                bitmap_fmt::_32BIT as int,
                bitmap_fmt::RGBA as int,
                bitmap_fmt::_8BIT_A as int,
            ],
            0,
        ),
        bitmap_flags::TOP_DOWN == 1,
        stream_flags::TOP_DOWN == 1,
        surface_flags::PRIMARY == 1,
{
}

/// A surface format is told by its depth, and by 64 more where it is the
/// second of that depth.
pub proof fn surface_formats_tell_the_depth()
    ensures
        surface_fmt::INVALID == 0,
        surface_fmt::_1_A == 1,
        surface_fmt::_8_A == 8,
        surface_fmt::_16_555 == 16,
        surface_fmt::_16_565 == 16 + 64,
        surface_fmt::_32_xRGB == 32,
        surface_fmt::_32_ARGB == 32 + 64,
{
}

/// Capabilities are numbered from 0, on each channel and in common.
pub proof fn capabilities_are_numbered()
    ensures
        run_on(
            seq![
                caps::common::PROTOCOL_AUTH_SELECTION as int,
                caps::common::AUTH_SPICE as int,
                caps::common::AUTH_SASL as int,
                caps::common::MINI_HEADER as int,
            ],
            0,
        ),
        run_on(
            seq![
                caps::main::SEMI_SEAMLESS_MIGRATE as int,
                caps::main::NAME_AND_UUID as int,
                caps::main::AGENT_CONNECTED_TOKENS as int,
                caps::main::SEAMLESS_MIGRATE as int,
            ],
            0,
        ),
        run_on(
            seq![
                caps::display::SIZED_STREAM as int,
                caps::display::MONITORS_CONFIG as int,
                caps::display::COMPOSITE as int,
                caps::display::A8_SURFACE as int,
                caps::display::STREAM_REPORT as int,
                caps::display::LZ4_COMPRESSION as int,
                caps::display::PREF_COMPRESSION as int,
                caps::display::GL_SCANOUT as int,
                caps::display::MULTI_CODEC as int,
                caps::display::CODEC_MJPEG as int,
                caps::display::CODEC_VP8 as int,
                caps::display::CODEC_H264 as int,
                caps::display::PREF_VIDEO_CODEC_TYPE as int,
                caps::display::CODEC_VP9 as int,
                caps::display::CODEC_H265 as int,
            ],
            0,
        ),
{
}

/// A list of capabilities has the bit of worth two to the `c mod 32` in its
/// word `c / 32`.
pub proof fn capabilities_are_bits(words: Seq<u32>, c: u32)
    ensures
        caps::has_cap(words, c) <==> {
            &&& c / 32 < words.len()
            &&& words[c as int / 32] as int / pow2((c % 32) as nat) as int % 2 == 1
        },
{
    if c / 32 < words.len() {
        let w = words[c as int / 32];
        let k: u32 = c % 32;
        assert((w & (1u32 << k) != 0) <==> (w >> k) % 2 == 1) by (bit_vector)
            requires
                k < 32,
        ;
        vstd::bits::lemma_u32_shr_is_div(w, k);
    }
}

} // verus!
