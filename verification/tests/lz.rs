//! SPICE LZ: headers, literal runs and back-references.

use capsaicin::lz::{
    compress_alpha_literal, compress_rgb32_literal, decompress_rgb32, decompress_rgba, validate_dims, LzError,
    LzHeader, LzImageType, LZ_HEADER_SIZE,
};

fn sample_pixels(n: usize) -> Vec<u8> {
    let mut v = Vec::with_capacity(n * 4);
    for i in 0..n {
        v.push((i * 7 + 1) as u8); // B
        v.push((i * 11 + 2) as u8); // G
        v.push((i * 13 + 3) as u8); // R
        v.push((i * 17 + 4) as u8); // A
    }
    v
}

#[test]
fn header_roundtrip() {
    let h = LzHeader {
        image_type: LzImageType::Rgb32,
        width: 1280,
        height: 800,
        stride: 5120,
        top_down: true,
    };
    let mut buf = Vec::new();
    h.encode(&mut buf);
    assert_eq!(buf.len(), LZ_HEADER_SIZE);
    assert_eq!(LzHeader::decode(&buf).unwrap(), h);
}

#[test]
fn header_rejects_bad_magic() {
    let mut buf = vec![0u8; LZ_HEADER_SIZE];
    buf[0..4].copy_from_slice(&0xdead_beefu32.to_be_bytes());
    assert!(matches!(
        LzHeader::decode(&buf),
        Err(LzError::BadMagic { .. })
    ));
}

#[test]
fn rgb32_literal_roundtrip_short() {
    let pixels = sample_pixels(1);
    let stream = compress_rgb32_literal(&pixels);
    // ctrl=0 + 3 BGR bytes = 4 bytes total
    assert_eq!(stream.len(), 4);
    let decoded = decompress_rgb32(&stream, 1).unwrap();
    // RGB32: B,G,R from input, A=0
    assert_eq!(decoded, vec![pixels[0], pixels[1], pixels[2], 0]);
}

#[test]
fn rgb32_literal_roundtrip_multi_run() {
    // 100 pixels — exceeds MAX_COPY (32) → multiple runs
    let pixels = sample_pixels(100);
    let stream = compress_rgb32_literal(&pixels);
    let decoded = decompress_rgb32(&stream, 100).unwrap();
    for i in 0..100 {
        assert_eq!(decoded[i * 4], pixels[i * 4], "B mismatch at {i}");
        assert_eq!(decoded[i * 4 + 1], pixels[i * 4 + 1], "G mismatch at {i}");
        assert_eq!(decoded[i * 4 + 2], pixels[i * 4 + 2], "R mismatch at {i}");
        assert_eq!(decoded[i * 4 + 3], 0, "alpha must be 0 for RGB32");
    }
}

#[test]
fn rgba_literal_roundtrip() {
    let pixels = sample_pixels(50);
    let mut stream = compress_rgb32_literal(&pixels);
    stream.extend_from_slice(&compress_alpha_literal(&pixels));
    let decoded = decompress_rgba(&stream, 50).unwrap();
    assert_eq!(decoded.len(), pixels.len());
    for i in 0..50 {
        assert_eq!(&decoded[i * 4..(i + 1) * 4], &pixels[i * 4..(i + 1) * 4]);
    }
}

/// Hand-craft a back-reference: 1 literal pixel, then a run that
/// repeats it 4 times via reference (offset=1, length=4).
#[test]
fn rgb32_back_reference_run() {
    // Back-ref encoding: ctrl = (len_code << 5) | (ofs_high & 31).
    // Decoder steps: len = ctrl>>5; len -= 1; (extended check); read ofs low;
    // RGB32 bias: len += 1, ofs += 1.
    // We want len=4, ofs=1 → len_code=4, encoded ofs=0 → ctrl=0x80, low=0.
    let mut stream = vec![
        0, // ctrl=0 → 1 literal pixel
        0xAA, 0xBB, 0xCC, // B, G, R
    ];
    stream.push(0x80);
    stream.push(0x00);
    let decoded = decompress_rgb32(&stream, 5).unwrap();
    assert_eq!(decoded.len(), 20);
    for px in decoded.chunks_exact(4) {
        assert_eq!(px, [0xAA, 0xBB, 0xCC, 0]);
    }
}

#[test]
fn lz_headers_that_are_none_are_errors() {
    let mut buf = Vec::new();
    LzHeader { image_type: LzImageType::Rgb32, width: 1, height: 1, stride: 4, top_down: false }
        .encode(&mut buf);
    assert!(matches!(LzHeader::decode(&buf[..20]), Err(LzError::Short { .. })));
    let mut bad = buf.clone();
    bad[5] = 2;
    assert_eq!(LzHeader::decode(&bad), Err(LzError::BadVersion { major: 2, minor: 1 }));
    let mut bad = buf.clone();
    bad[11] = 99;
    assert_eq!(LzHeader::decode(&bad), Err(LzError::Short { need: 0, have: 0 }));
}

#[test]
fn lz_streams_that_cannot_be_decoded_are_errors() {
    assert!(matches!(decompress_rgb32(&[], 1), Err(LzError::Short { .. })));
    // A literal run longer than its bytes.
    assert!(matches!(decompress_rgb32(&[1, 2, 3], 2), Err(LzError::Short { .. })));
    // A reference to before the first pixel.
    assert!(matches!(decompress_rgb32(&[0x80, 0x00], 4), Err(LzError::Short { .. })));
    assert_eq!(decompress_rgb32(&[], 0), Err(LzError::TooLarge { width: 0, height: 0 }));
}

#[test]
fn image_dimensions_are_capped() {
    assert_eq!(validate_dims(640, 480, 4), Ok(640 * 480 * 4));
    assert!(matches!(validate_dims(70_000, 1, 4), Err(LzError::TooLarge { .. })));
    assert!(matches!(validate_dims(30_000, 30_000, 4), Err(LzError::TooLarge { .. })));
}
