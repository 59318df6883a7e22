//! SPICE GLZ: headers, literal runs, references within and across images.

use capsaicin::glz::{
    compress_rgb32_literal, decompress_rgb32, decompress_rgb32_intra, GlzDecoder, GlzError, GlzHeader,
    GlzWindow, GLZ_HEADER_SIZE,
};
use capsaicin::lz::{LzError, LzImageType};

fn header(width: u32, height: u32) -> GlzHeader {
    GlzHeader {
        image_type: LzImageType::Rgb32,
        top_down: true,
        width,
        height,
        stride: width * 4,
        id: 1,
        win_head_dist: 0,
    }
}

#[test]
fn lib_header_roundtrip() {
    let h = header(640, 480);
    let mut buf = Vec::new();
    h.encode(&mut buf);
    assert_eq!(buf.len(), GLZ_HEADER_SIZE);
    assert_eq!(GlzHeader::decode(&buf).unwrap(), h);
}

#[test]
fn header_packs_top_down_into_type_byte() {
    let mut h = header(2, 2);
    h.top_down = false;
    let mut buf = Vec::new();
    h.encode(&mut buf);
    assert_eq!(buf[8] & (1 << 4), 0);
    h.top_down = true;
    let mut buf = Vec::new();
    h.encode(&mut buf);
    assert_eq!(buf[8] & (1 << 4), 1 << 4);
}

#[test]
fn rgb32_literal_only_roundtrip() {
    let h = header(4, 2);
    let mut pixels = Vec::with_capacity(8 * 4);
    for i in 0..8u8 {
        pixels.extend_from_slice(&[i * 7, i * 11, i * 13, 0]);
    }
    let mut wire = Vec::new();
    h.encode(&mut wire);
    wire.extend_from_slice(&compress_rgb32_literal(&pixels));
    let decoded = decompress_rgb32_intra(&wire, &h).unwrap();
    assert_eq!(decoded, pixels);
}

#[test]
fn cross_image_returns_specific_error() {
    // Hand-craft a back-reference with image_dist=1 (cross-image).
    let h = header(2, 1);
    let mut wire = Vec::new();
    h.encode(&mut wire);
    // First pixel: literal (count=1, ctrl=0). 3 bytes BGR.
    wire.push(0);
    wire.extend_from_slice(&[0xAA, 0xBB, 0xCC]);
    // Second pixel via back-ref. ctrl >= 32, len=1 (top 3 bits =
    // 0b001 → ctrl bit 5 set, but we want len=1 so encoded = 1).
    // After bias correction RGB32 has no len bias. We want 1 pixel
    // copied from intra-image dist 1 → image_dist=0, pixel_ofs=1.
    // ctrl = (1<<5) | (0<<4) | (pixel_ofs_high=0) → 0x20.
    // BUT we want to test cross-image; flip image_dist into the
    // mix.
    // Layout:  ctrl(0x20) | pixel_ofs_low(0) | image_flag/pixel_ofs(0x40 → image_flag=1, image_dist=0)
    // Then image_flag=1 means 1 extra byte for image_dist.
    wire.push(0x20); // ctrl: len=1, pixel_flag=0, pixel_ofs=0
    wire.push(0x00); // pixel_ofs += code << 4 → 0
    wire.push(0x40); // image_flag=1, low 6 bits of image_dist=0
    wire.push(0x01); // extra byte: image_dist += 1 << (6 + 0) = 64
    let err = decompress_rgb32_intra(&wire, &h).unwrap_err();
    assert!(matches!(err, GlzError::CrossImage { .. }), "got {err:?}");
}

#[test]
fn glz_window_evicts_oldest_when_full() {
    // Budget = 2 KiB minimum; insert three 1 KiB images — third
    // should evict id=1.
    let mut win = GlzWindow::new(1024);
    win.insert(1, vec![1; 512], 4);
    win.insert(2, vec![2; 512], 4);
    win.insert(3, vec![3; 512], 4);
    assert!(win.get(1).is_none(), "id=1 should be evicted");
    assert!(win.get(2).is_some(), "id=2 should survive");
    assert!(win.get(3).is_some(), "id=3 should be present");
    assert_eq!(win.len(), 2);
}

/// Decode a 2-pixel image whose second pixel is a back-reference
/// (image_dist = 1, pixel_ofs = 0, len = 1) into a previously-
/// decoded image stored in the window.
#[test]
fn cross_image_reference_resolves_via_window() {
    let mut win = GlzWindow::new(8);
    // Pre-populate with id=10: a single BGRA pixel (B=0xAA, G=0xBB, R=0xCC, A=0).
    win.insert(10, vec![0xAA, 0xBB, 0xCC, 0], 4);

    // Header for current image at id=11 (so image_dist=1 → id=10).
    let h = GlzHeader {
        image_type: LzImageType::Rgb32,
        top_down: true,
        width: 1,
        height: 1,
        stride: 4,
        id: 11,
        win_head_dist: 1,
    };
    // Body: a single back-reference to image 10, pixel 0, length 1.
    // Encoding (RGB32, no len bias):
    //   ctrl: len=1, pixel_flag=0, pixel_ofs_low=0
    //         → (1 << 5) | 0 | 0 = 0x20
    //   pixel_ofs_high byte: 0
    //   image_flag/dist byte:
    //     pixel_flag was 0 → image_flag in top 2 bits, low 6 bits = image_dist
    //     For image_dist=1, fits in low 6 bits → image_flag=0, value=1.
    //         → 0x01
    let mut wire = Vec::new();
    h.encode(&mut wire);
    wire.push(0x20);
    wire.push(0x00);
    wire.push(0x01);
    let decoded = decompress_rgb32(&wire, &h, &win).unwrap();
    assert_eq!(decoded, vec![0xAA, 0xBB, 0xCC, 0]);
}

#[test]
fn headers_that_are_none_are_errors() {
    let mut buf = Vec::new();
    header(1, 1).encode(&mut buf);
    assert_eq!(
        GlzHeader::decode(&buf[..32]),
        Err(GlzError::Short { need: 33, have: 32 })
    );
    let mut bad = buf.clone();
    bad[0] = 0;
    assert!(matches!(GlzHeader::decode(&bad), Err(GlzError::BadMagic { .. })));
    let mut bad = buf.clone();
    bad[7] = 9;
    assert_eq!(GlzHeader::decode(&bad), Err(GlzError::BadVersion { major: 1, minor: 9 }));
    let mut bad = buf.clone();
    bad[8] = 15;
    assert!(matches!(GlzHeader::decode(&bad), Err(GlzError::Lz(_))));
}

#[test]
fn streams_that_cannot_be_decoded_are_errors() {
    let mut h = header(2, 1);
    let mut wire = Vec::new();
    h.encode(&mut wire);
    assert!(matches!(decompress_rgb32_intra(&wire, &h), Err(GlzError::Short { .. })));
    // A run of three pixels in an image of two.
    let mut run = wire.clone();
    run.push(2);
    run.extend_from_slice(&[0; 9]);
    assert_eq!(decompress_rgb32_intra(&run, &h), Err(GlzError::BadReference));
    h.image_type = LzImageType::Rgb16;
    assert_eq!(
        decompress_rgb32_intra(&wire, &h),
        Err(GlzError::UnsupportedType(LzImageType::Rgb16))
    );
    let huge = header(20_000, 20_000);
    assert!(matches!(decompress_rgb32_intra(&wire, &huge), Err(GlzError::Lz(_))));
}

#[test]
fn a_decoder_keeps_a_dictionary() {
    let mut d = GlzDecoder::new(1 << 20);
    let pixels = vec![1, 2, 3, 0, 4, 5, 6, 0];
    let h = header(2, 1);
    let mut wire = Vec::new();
    h.encode(&mut wire);
    wire.extend_from_slice(&compress_rgb32_literal(&pixels));
    let image = d.decode_rgb32(&wire).unwrap();
    assert_eq!((image.id(), image.width(), image.height()), (1, 2, 1));
    assert_eq!(image.pixels_copy(), pixels);
    d.insert(image.id(), image.take_pixels(), 32);
    assert_eq!(d.bytes_used(), 8);

    // Image 2: both pixels of image 1, by reference.
    let mut h2 = header(2, 1);
    h2.id = 2;
    let mut wire = Vec::new();
    h2.encode(&mut wire);
    wire.extend_from_slice(&[0x40, 0x00, 0x01]);
    assert_eq!(d.decode_rgb32(&wire).unwrap().take_pixels(), pixels);
    d.clear();
    assert_eq!(d.bytes_used(), 0);
    assert!(matches!(d.decode_rgb32(&wire), Err(GlzError::CrossImage { .. })));
}

#[test]
fn replacing_an_image_makes_it_the_newest() {
    let mut win = GlzWindow::new(1024);
    win.insert(1, vec![0; 500], 4);
    win.insert(2, vec![0; 500], 4);
    win.insert(1, vec![0; 400], 4);
    win.insert(3, vec![0; 300], 4);
    assert!(win.get(2).is_none());
    assert!(win.get(1).is_some() && win.get(3).is_some());
    assert_eq!(win.bytes_used(), 700);
    // One image is kept, however large.
    win.insert(4, vec![0; 5000], 4);
    assert_eq!((win.len(), win.bytes_used()), (1, 5000));
}

#[test]
fn images_without_pixels_are_empty() {
    for (width, height) in [(0, 0), (0, 5), (16384, 0)] {
        let h = header(width, height);
        let mut wire = Vec::new();
        h.encode(&mut wire);
        assert_eq!(decompress_rgb32_intra(&wire, &h), Ok(vec![]));
        assert_eq!(decompress_rgb32(&wire, &h, &GlzWindow::new(0)), Ok(vec![]));
    }
    let mut wire = Vec::new();
    header(1, 1).encode(&mut wire);
    assert!(matches!(
        decompress_rgb32_intra(&wire, &header(0, 16385)),
        Err(GlzError::Lz(LzError::TooLarge { width: 0, height: 16385 }))
    ));
}

#[test]
fn eviction_stops_where_the_budget_holds() {
    let mut win = GlzWindow::new(1024);
    for id in 1..=4 {
        win.insert(id, vec![0; 256], 4);
    }
    assert_eq!((win.len(), win.bytes_used()), (4, 1024));
    // Two have to go: the survivors and the second would be over the budget.
    win.insert(5, vec![0; 300], 4);
    assert!(win.get(1).is_none() && win.get(2).is_none() && win.get(3).is_some());
    assert_eq!((win.len(), win.bytes_used()), (3, 812));
    assert!(win.bytes_used() + 256 > 1024);
}
