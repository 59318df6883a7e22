//! The framebuffer, what is painted into it, and input from keys and mouse.

use capsaicin::client::{ClientError, DisplayEvent, InputEvent, RegionPixels, SurfaceFormat};
use capsaicin::proto::types::Rect;
use capsaicin::viewer::framebuffer::{bgra32_to_softbuffer, bgra_to_softbuffer, clamp_rect};
use capsaicin::viewer::input::break_code;
use capsaicin::viewer::paint::{accepts, apply};
use capsaicin::viewer::{
    display_event_to_paint, key_event, scancode, Framebuffer, Key, MouseKey, PaintMsg, Pointer,
};

fn rect(top: i32, left: i32, bottom: i32, right: i32) -> Rect {
    Rect { top, left, bottom, right }
}

fn pixels(fb: &Framebuffer) -> Vec<u32> {
    let (w, h) = fb.size();
    fb.render(w, h)
}

/// A framebuffer whose pixels are numbered.
fn numbered(w: u32, h: u32) -> Framebuffer {
    let mut fb = Framebuffer::new();
    fb.resize_fb(w, h);
    for y in 0..h as i32 {
        for x in 0..w as i32 {
            fb.fill_rect(rect(y, x, y + 1, x + 1), (y * w as i32 + x) as u32);
        }
    }
    fb
}

#[test]
fn resizing_clears_and_bounds() {
    let mut fb = Framebuffer::new();
    assert_eq!(fb.size(), (0, 0));
    assert_eq!(fb.render(2, 2), vec![0; 4]);
    fb.resize_fb(3, 2);
    assert_eq!(fb.size(), (3, 2));
    fb.fill_rect(rect(0, 0, 2, 3), 7);
    fb.resize_fb(3, 2);
    assert_eq!(pixels(&fb), vec![7; 6]);
    for (w, h) in [(0, 2), (2, 0), (16385, 1), (1, 16385), (65536, 65536), (16384, 16384)] {
        fb.resize_fb(w, h);
        assert_eq!(fb.size(), (3, 2));
    }
    fb.resize_fb(2, 3);
    assert_eq!(pixels(&fb), vec![0; 6]);
    assert_eq!(fb.get(1, 2), Some(0));
    assert_eq!(fb.get(2, 0), None);
}

#[test]
fn fills_are_cut_to_the_framebuffer() {
    let mut fb = Framebuffer::new();
    fb.resize_fb(3, 3);
    fb.fill_rect(rect(-5, 1, 2, 99), 9);
    assert_eq!(pixels(&fb), vec![0, 9, 9, 0, 9, 9, 0, 0, 0]);
    assert_eq!(clamp_rect(&rect(-5, 1, 2, 99), 3, 3), (1, 0, 3, 2));
    // Edges out of order cannot be filled, unless no row is touched.
    assert!(!fb.fits_fill(&rect(0, 2, 3, 1)));
    assert!(fb.fits_fill(&rect(5, 2, 9, 1)));
}

#[test]
fn blits_convert_from_bgra() {
    let mut fb = Framebuffer::new();
    fb.resize_fb(2, 2);
    // One row of two pixels, off the left edge by one.
    fb.blit_raw(rect(1, -1, 2, 1), &[1, 2, 3, 255, 4, 5, 6, 255], 8);
    assert_eq!(pixels(&fb), vec![0, 0, 0x060504, 0]);
    assert_eq!(bgra_to_softbuffer(0x11, 0x22, 0x33), 0x112233);
    assert_eq!(bgra32_to_softbuffer(0xFF11_2233), 0x11_2233);

    assert!(fb.fits_blit(&rect(0, 0, 1, 2), 7, 8));
    assert!(!fb.fits_blit(&rect(0, 0, 1, 2), 6, 8));
    assert!(fb.fits_blit(&rect(0, 5, 1, 9), 0, 8));
    assert!(!fb.fits_blit(&rect(0, i32::MIN, 1, i32::MAX), 99, 8));
}

#[test]
fn copies_do_not_trample_their_source() {
    for (dx, dy) in [(1, 0), (-1, 0), (0, 1), (0, -1), (1, 1), (-1, -1), (1, -1), (-1, 1)] {
        let mut fb = numbered(4, 4);
        let before = pixels(&fb);
        fb.copy_rect(1, 1, rect(1 + dy, 1 + dx, 3 + dy, 3 + dx));
        let after = pixels(&fb);
        for y in 0..4i32 {
            for x in 0..4i32 {
                let (sx, sy) = (x - dx, y - dy);
                let copied = (1..3).contains(&sx) && (1..3).contains(&sy);
                let want = if copied { before[(sy * 4 + sx) as usize] } else { before[(y * 4 + x) as usize] };
                assert_eq!(after[(y * 4 + x) as usize], want, "at {x},{y} by {dx},{dy}");
            }
        }
    }
}

#[test]
fn a_copy_from_off_the_framebuffer_does_nothing() {
    let mut fb = numbered(3, 3);
    let before = pixels(&fb);
    fb.copy_rect(2, 2, rect(0, 0, 2, 2));
    fb.copy_rect(-1, 0, rect(0, 0, 1, 1));
    fb.copy_rect(0, 0, rect(9, 9, 12, 12));
    assert_eq!(pixels(&fb), before);
    assert!(!fb.fits_copy(0, 0, &rect(2, 0, 1, 1)));
    assert!(!fb.fits_copy(i32::MAX, 0, &rect(0, -5, 1, 1)));
}

#[test]
fn rendering_scales_to_the_nearest_pixel() {
    let fb = numbered(2, 2);
    assert_eq!(fb.render(2, 2), vec![0, 1, 2, 3]);
    assert_eq!(fb.render(4, 2), vec![0, 0, 1, 1, 2, 2, 3, 3]);
    assert_eq!(fb.render(1, 1), vec![0]);
    assert_eq!(fb.render(3, 1), vec![0, 0, 1]);
}

#[test]
fn only_the_primary_surface_is_shown() {
    let created = |primary| DisplayEvent::SurfaceCreated {
        id: 0,
        width: 2,
        height: 1,
        format: SurfaceFormat::Xrgb8888,
        primary,
    };
    assert_eq!(
        display_event_to_paint(created(true)),
        Some(PaintMsg::SurfaceCreated { width: 2, height: 1 })
    );
    assert_eq!(display_event_to_paint(created(false)), None);
    assert_eq!(display_event_to_paint(DisplayEvent::Mark), None);
    let area = rect(0, 0, 1, 1);
    assert_eq!(
        display_event_to_paint(DisplayEvent::StreamFrame {
            stream_id: 1,
            multi_media_time: 2,
            dest_rect: area,
            pixels: RegionPixels::SolidColor(3),
        }),
        Some(PaintMsg::StreamFrame { rect: area, pixels: RegionPixels::SolidColor(3) })
    );
    assert_eq!(
        display_event_to_paint(DisplayEvent::CopyRect {
            surface_id: 0,
            src_x: 1,
            src_y: 2,
            dest_rect: area,
        }),
        Some(PaintMsg::CopyRect { src_x: 1, src_y: 2, dest_rect: area })
    );
}

#[test]
fn messages_are_painted() {
    let mut fb = Framebuffer::new();
    let e = apply(&mut fb, PaintMsg::SurfaceCreated { width: 2, height: 2 });
    assert!(e.redraw && !e.exit);
    let fill = PaintMsg::Region {
        rect: rect(0, 0, 1, 2),
        pixels: RegionPixels::SolidColor(0xFFAA_BBCC),
    };
    assert!(accepts(&fb, &fill));
    apply(&mut fb, fill);
    let blit = PaintMsg::StreamFrame {
        rect: rect(1, 0, 2, 1),
        pixels: RegionPixels::Raw { data: vec![1, 2, 3, 4], stride: 4 },
    };
    assert!(accepts(&fb, &blit));
    apply(&mut fb, blit);
    assert_eq!(pixels(&fb), vec![0xAABBCC, 0xAABBCC, 0x030201, 0]);
    apply(&mut fb, PaintMsg::CopyRect { src_x: 0, src_y: 1, dest_rect: rect(0, 1, 1, 2) });
    assert_eq!(pixels(&fb), vec![0xAABBCC, 0x030201, 0x030201, 0]);
    let short = PaintMsg::Region {
        rect: rect(0, 0, 2, 2),
        pixels: RegionPixels::Raw { data: vec![0; 8], stride: 8 },
    };
    assert!(!accepts(&fb, &short));
    let e = apply(&mut fb, PaintMsg::Closed { error: Some(ClientError::Closed) });
    assert!(e.exit && !e.redraw);
}

#[test]
fn keys_have_set_one_scancodes() {
    assert_eq!(scancode(Key::Escape), 0x01);
    assert_eq!(scancode(Key::KeyA), 0x1e);
    assert_eq!(scancode(Key::F10), 0x44);
    assert_eq!(scancode(Key::ArrowRight), 0xe04d);
    assert_eq!(scancode(Key::SuperRight), 0xe05c);
}

#[test]
fn releases_carry_the_break_bit_in_the_low_byte() {
    assert_eq!(key_event(Key::KeyA, true), InputEvent::KeyDown(0x1e));
    assert_eq!(key_event(Key::KeyA, false), InputEvent::KeyUp(0x9e));
    assert_eq!(key_event(Key::ArrowRight, true), InputEvent::KeyDown(0xe04d));
    assert_eq!(key_event(Key::ArrowRight, false), InputEvent::KeyUp(0xe0cd));
    assert_eq!(break_code(0x80), 0x80);
}

#[test]
fn buttons_follow_presses_and_releases() {
    let mut p = Pointer::new();
    assert_eq!(
        p.button(MouseKey::Left, true),
        Some(InputEvent::MousePress { button: 1, buttons: 1 })
    );
    assert_eq!(
        p.button(MouseKey::Right, true),
        Some(InputEvent::MousePress { button: 3, buttons: 5 })
    );
    assert_eq!(
        p.button(MouseKey::Left, false),
        Some(InputEvent::MouseRelease { button: 1, buttons: 4 })
    );
    assert_eq!(
        p.button(MouseKey::Middle, true),
        Some(InputEvent::MousePress { button: 2, buttons: 6 })
    );
    assert_eq!(p.button(MouseKey::Other, true), None);
    assert_eq!(
        p.moved(5, 6, 10, 10),
        InputEvent::MousePosition { x: 5, y: 6, buttons: 6, display: 0 }
    );
}

#[test]
fn the_pointer_stays_on_the_surface() {
    let mut p = Pointer::new();
    assert_eq!(
        p.moved(-4, 99, 10, 20),
        InputEvent::MousePosition { x: 0, y: 19, buttons: 0, display: 0 }
    );
    assert_eq!((p.x, p.y), (0, 19));
}
