//! SPICE QUIC: headers, the bit reader, the entropy coder and whole images.

use capsaicin::quic::bits::{bppmask, BitReader};
use capsaicin::quic::family::Family;
use capsaicin::quic::melcode::{decode_state_run, tabrand, CommonState};
use capsaicin::quic::{
    compress_rgb32, decompress_gray, decompress_rgb16, decompress_rgb32, decompress_rgba,
    QuicError, QuicHeader, QuicImageType, QUIC_HEADER_SIZE,
};

#[test]
fn quic_header_roundtrip() {
    let h = QuicHeader {
        image_type: QuicImageType::Rgb32,
        width: 1280,
        height: 800,
    };
    let mut buf = Vec::new();
    h.encode(&mut buf);
    assert_eq!(buf.len(), QUIC_HEADER_SIZE);
    assert_eq!(QuicHeader::decode(&buf).unwrap(), h);
}

#[test]
fn lib_header_rejects_bad_magic() {
    let mut buf = vec![0u8; QUIC_HEADER_SIZE];
    buf[0..4].copy_from_slice(&0xdead_beefu32.to_be_bytes());
    assert!(matches!(
        QuicHeader::decode(&buf),
        Err(QuicError::BadMagic { .. })
    ));
}

#[test]
fn bit_reader_eats_individual_bits() {
    // Build: header + one body word with known bit pattern.
    let h = QuicHeader {
        image_type: QuicImageType::Rgb32,
        width: 10,
        height: 10,
    };
    let mut buf = Vec::new();
    h.encode(&mut buf);
    // Body word: 0b10110000_00000000_00000000_00000000.
    buf.extend_from_slice(&0xB000_0000u32.to_le_bytes());
    // And a second word so refill succeeds at any boundary.
    buf.extend_from_slice(&0xCAFE_BABEu32.to_le_bytes());

    let mut r = BitReader::new_after_header(&buf).unwrap();
    // Top bit is 1.
    assert_eq!(r.peek32() >> 31, 1);
    r.eat(1).unwrap();
    // Next bit (0).
    assert_eq!(r.peek32() >> 31, 0);
    r.eat(1).unwrap();
    // Next is 1, then 1.
    assert_eq!(r.peek32() >> 31, 1);
}

#[test]
fn bit_reader_eat32_advances_one_word() {
    let h = QuicHeader {
        image_type: QuicImageType::Rgb32,
        width: 1,
        height: 1,
    };
    let mut buf = Vec::new();
    h.encode(&mut buf);
    buf.extend_from_slice(&0xAAAA_AAAAu32.to_be_bytes());
    buf.extend_from_slice(&0x5555_5555u32.to_be_bytes());

    let mut r = BitReader::new_after_header(&buf).unwrap();
    assert_eq!(r.peek32(), 0xAAAA_AAAA);
    r.eat32().unwrap();
    assert_eq!(r.peek32(), 0x5555_5555);
}

#[test]
fn family_8bpc_init_matches_reference_constants() {
    let f = Family::init(8);
    // n_gr_codewords sanity from `family_init`:
    // limit = 26, bpc = 8, l in 0..8.
    // For l=0: altprefixlen = min(26-8=18, bppmask(8)=255) = 18 → n=18*1=18.
    assert_eq!(f.n_gr_codewords[0], 18);
    // For l=1: altprefixlen = min(18, bppmask(7)=127) = 18 → n=18*2=36.
    assert_eq!(f.n_gr_codewords[1], 36);
    // For l=7: altprefixlen = min(18, bppmask(1)=1) = 1 → n=1*128=128.
    assert_eq!(f.n_gr_codewords[7], 128);
}

#[test]
fn xlat_tables_are_inverses() {
    let f = Family::init(8);
    for s in 0..=255u32 {
        let mapped = f.xlat_u2l[s as usize] as u32;
        let back = f.xlat_l2u[mapped as usize];
        assert_eq!(back, s, "xlat round-trip broke at {s}");
    }
}

#[test]
fn golomb_decode_round_trip_for_small_values() {
    // Encode `n` using the same formula as `golomb_coding_slow` and
    // verify our decoder recovers it. Use l=2, bpc=8 family.
    let f = Family::init(8);
    let l = 2u32;
    for n in 0u32..=20 {
        let (codeword, cwlen) = if n < f.n_gr_codewords[l as usize] {
            let cw = (1u32 << l) | (n & bppmask(l));
            let len = (n >> l) + l + 1;
            (cw, len)
        } else {
            let cw = n - f.n_gr_codewords[l as usize];
            (cw, f.not_gr_cwlen[l as usize])
        };
        // Pack `codeword` into the top `cwlen` bits of a u32.
        let bits = codeword << (32 - cwlen);
        let (value, decoded_len) = f.golomb_decode(l, bits);
        assert_eq!(value, n, "value mismatch at n={n}");
        assert_eq!(decoded_len, cwlen, "len mismatch at n={n}");
    }
}

#[test]
fn common_state_initialises_wm_trigger_from_table() {
    let s = CommonState::default();
    // wmidx = 0 → row[0] of besttrigtab[1] (DEFEVOL=3 → /2=1) = 110.
    assert_eq!(s.wm_trigger, 110);
}

#[test]
fn tabrand_advances_seed() {
    let mut seed = 0u32;
    let a = tabrand(&mut seed);
    let b = tabrand(&mut seed);
    assert_ne!(a, b);
    assert_eq!(seed, 2);
}

/// 1×1 Gray with single zero pixel — Golomb-Rice symbol 0 at l=7
/// (8 bits = `10000000`). One codeword fills the upper byte of the
/// first body word; output should be BGRA (0, 0, 0, 0xFF).
#[test]
fn decompress_gray_single_zero_pixel() {
    let h = QuicHeader {
        image_type: QuicImageType::Gray,
        width: 1,
        height: 1,
    };
    let mut buf = Vec::new();
    h.encode(&mut buf);
    buf.extend_from_slice(&0x80000000u32.to_le_bytes());
    buf.extend_from_slice(&0u32.to_le_bytes());
    let pixels = decompress_gray(&buf, 1, 1).unwrap();
    assert_eq!(pixels, vec![0, 0, 0, 0xFF]);
}

/// 1×1 RGB16 zero pixel: 5bpc family. Initial bestcode = bpc - 1 = 4,
/// so each channel encodes symbol 0 at l=4. For l=4 in the 5bpc
/// family: `n_gr_codewords[4]` = ?, but for symbol 0 the GR codeword
/// is `(1 << 4) | 0` of length `(0 >> 4) + 4 + 1 = 5`. Three channels
/// = 15 bits total. Bit pattern: 100001000010000... padded.
#[test]
fn decompress_rgb16_single_zero_pixel() {
    let h = QuicHeader {
        image_type: QuicImageType::Rgb16,
        width: 1,
        height: 1,
    };
    let mut buf = Vec::new();
    h.encode(&mut buf);
    // 3 codewords of 5 bits each, MSB-first: 10000 10000 10000 then
    // 17 zero bits → `10000_10000_10000_00000000000000000` =
    // 0x84_20_00_00.
    buf.extend_from_slice(&0x84200000u32.to_le_bytes());
    buf.extend_from_slice(&0u32.to_le_bytes());
    let pixels = decompress_rgb16(&buf, 1, 1).unwrap();
    // All RGB channels = 0, alpha = 0xFF.
    assert_eq!(pixels, vec![0, 0, 0, 0xFF]);
}

/// 1×1 RGBA with all-zero pixel: RGB phase encodes 3 codewords for
/// symbol 0 at l=7 (8 bits each = 24 bits), then alpha phase encodes
/// one codeword for symbol 0 at l=7 (8 bits). Total body = 32 bits =
/// one full word.
#[test]
fn decompress_rgba_single_zero_pixel() {
    let h = QuicHeader {
        image_type: QuicImageType::Rgba,
        width: 1,
        height: 1,
    };
    let mut buf = Vec::new();
    h.encode(&mut buf);
    // Body word: 0b 10000000 10000000 10000000 10000000 = 0x80808080
    // (3 BGR codewords + 1 alpha codeword). Stored LE.
    buf.extend_from_slice(&0x80808080u32.to_le_bytes());
    // Padding so peek across the boundary returns zeros.
    buf.extend_from_slice(&0u32.to_le_bytes());
    let pixels = decompress_rgba(&buf, 1, 1).unwrap();
    // All BGR=0, A=0.
    assert_eq!(pixels, vec![0, 0, 0, 0]);
}

/// Hand-craft a QUIC stream encoding a single black 1×1 RGB32 pixel.
/// For each of R, G, B we send a Golomb-Rice codeword for symbol 0
/// at code l = 7 (initial bestcode = bpc - 1 = 7): codeword =
/// `1 0000000` (8 bits). Three channels = 24 bits, then padding.
#[test]
fn decompress_rgb32_single_black_pixel() {
    let h = QuicHeader {
        image_type: QuicImageType::Rgb32,
        width: 1,
        height: 1,
    };
    let mut buf = Vec::new();
    h.encode(&mut buf);
    // Body: 0b 10000000 10000000 10000000 00000000 = 0x80808000.
    // Stored LE on disk → bytes [0x00, 0x80, 0x80, 0x80].
    buf.extend_from_slice(&0x80808000u32.to_le_bytes());
    // A second word so peek across the boundary returns zeros.
    buf.extend_from_slice(&0u32.to_le_bytes());

    let pixels = decompress_rgb32(&buf, 1, 1).unwrap();
    assert_eq!(pixels, vec![0, 0, 0, 0]);
}

/// Round-trip a deterministic synthetic image through the encoder
/// and decoder. Validates the per-channel adaptive coder, the
/// model evolution, the waitcnt logic, and the bit-stream framing
/// end-to-end on a non-trivial pixel pattern.
#[test]
fn rgb32_round_trip_deterministic_pattern() {
    let width = 16u32;
    let height = 8u32;
    let mut pixels = Vec::with_capacity((width * height * 4) as usize);
    for y in 0..height {
        for x in 0..width {
            pixels.push(((x * 13 + y * 7) & 0xff) as u8); // B
            pixels.push(((x * 11 + y * 23) & 0xff) as u8); // G
            pixels.push(((x * 17 + y * 31) & 0xff) as u8); // R
            pixels.push(0);
        }
    }
    let stream = compress_rgb32(&pixels, width, height);
    let decoded = decompress_rgb32(&stream, width, height).unwrap();
    assert_eq!(
        decoded, pixels,
        "encoder/decoder round-trip mismatch for pattern image"
    );
}

/// Solid-color image triggers the RLE branch (every pixel matches
/// the previous one). This is the case that the run-length
/// mode of the body decoder is for, and pairs it with the encoder.
#[test]
fn rgb32_round_trip_solid_color_exercises_rle() {
    let width = 32u32;
    let height = 16u32;
    let mut pixels = Vec::with_capacity((width * height * 4) as usize);
    for _ in 0..(width * height) {
        pixels.push(0x42); // B
        pixels.push(0x99); // G
        pixels.push(0x10); // R
        pixels.push(0);
    }
    let stream = compress_rgb32(&pixels, width, height);
    let decoded = decompress_rgb32(&stream, width, height).unwrap();
    assert_eq!(
        decoded, pixels,
        "RLE branch round-trip mismatch on solid-color image"
    );
}

/// Multi-row gradient — exercises the cross-row (a + b) / 2
/// predictor.
#[test]
fn rgb32_round_trip_horizontal_and_vertical_gradient() {
    let width = 24u32;
    let height = 12u32;
    let mut pixels = Vec::with_capacity((width * height * 4) as usize);
    for y in 0..height {
        for x in 0..width {
            pixels.push((x * 8) as u8); // B (horizontal gradient)
            pixels.push((y * 16) as u8); // G (vertical gradient)
            pixels.push(((x + y) * 5) as u8); // R (diagonal)
            pixels.push(0);
        }
    }
    let stream = compress_rgb32(&pixels, width, height);
    let decoded = decompress_rgb32(&stream, width, height).unwrap();
    assert_eq!(decoded, pixels, "gradient image round-trip mismatch");
}

#[test]
fn decode_state_run_zero_run_returns_zero() {
    // First bit is 0 (no leading ones), melclen = 0 (initial state),
    // so result is 0.
    let h = QuicHeader {
        image_type: QuicImageType::Rgb32,
        width: 1,
        height: 1,
    };
    let mut buf = Vec::new();
    h.encode(&mut buf);
    buf.extend_from_slice(&0x0000_0000u32.to_be_bytes());
    buf.extend_from_slice(&0x0000_0000u32.to_be_bytes());
    let mut r = BitReader::new_after_header(&buf).unwrap();
    let mut s = CommonState::default();
    let runlen = decode_state_run(&mut r, &mut s).unwrap();
    assert_eq!(runlen, 0);
    // melcstate stays at 0 (was 0 → branch with `> 0` is skipped).
    assert_eq!(s.melcstate, 0);
}

#[test]
fn quic_streams_that_cannot_be_decoded_are_errors() {
    let mut buf = Vec::new();
    QuicHeader { image_type: QuicImageType::Rgb32, width: 4, height: 4 }.encode(&mut buf);
    assert!(matches!(QuicHeader::decode(&buf[..19]), Err(QuicError::Short { .. })));
    assert!(matches!(decompress_rgb32(&buf, 4, 4), Err(QuicError::Short { .. })));
    let mut bad = buf.clone();
    bad[8] = 200;
    assert!(matches!(QuicHeader::decode(&bad), Err(QuicError::BadImageType(_))));
    let mut bad = buf.clone();
    bad[4] = 7;
    assert!(matches!(QuicHeader::decode(&bad), Err(QuicError::BadVersion { .. })));
    assert!(matches!(
        decompress_rgb32(&buf, 100_000, 100_000),
        Err(QuicError::TooLarge { .. })
    ));
}

#[test]
fn golomb_codes_are_read_back() {
    let f = Family::init(8);
    for l in 0..8u32 {
        for n in 0..=255u8 {
            let (codeword, len) = f.golomb_encode(n, l);
            assert_eq!(len, f.golomb_code_len(n, l));
            assert_eq!(f.golomb_decode(l, codeword << (32 - len)), (n as u32, len));
        }
    }
}
