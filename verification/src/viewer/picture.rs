//! What the screen shows after a display event, pixel by pixel.

use vstd::prelude::*;

use crate::client::events::{DisplayEvent, RegionPixels, SurfaceFormat};
use crate::proto::types::Rect;
use crate::viewer::framebuffer;
use crate::viewer::framebuffer::Framebuffer;
use crate::viewer::paint;

verus! {

/// A pixel lies in a rectangle. The right and bottom edges are outside it.
pub open spec fn within(rect: Rect, x: int, y: int) -> bool {
    rect.left <= x < rect.right && rect.top <= y < rect.bottom
}

/// A place on the screen is painted if it lies in the rectangle, and only
/// then: what lies off the screen is cut away.
pub proof fn only_the_rectangle_is_painted(rect: Rect, w: int, h: int, x: int, y: int)
    requires
        0 <= x < w,
        0 <= y < h,
    ensures
        framebuffer::inside(rect, w, h, x, y) <==> within(rect, x, y),
{
}

/// A region of one colour, as it reaches the screen: red in the third byte of
/// the colour, green in the second, blue in the lowest. The fourth is left
/// out. The rest of the screen stays.
pub proof fn solid_region_is_shown(
    before: Framebuffer,
    after: Framebuffer,
    surface_id: u32,
    surface_format: SurfaceFormat,
    rect: Rect,
    red: u8,
    green: u8,
    blue: u8,
    high: u8,
    x: int,
    y: int,
)
    requires
        before.wf(),
        before.on(x, y),
        ({
            let colour = (16777216 * high + 65536 * red + 256 * green + blue) as u32;
            let pixels = RegionPixels::SolidColor(colour);
            paint::paint_of(
                DisplayEvent::Region { surface_id, surface_format, rect, pixels },
            ) matches Some(msg)
                && paint::applies(before, msg, after)
        }),
    ensures
        after.width() == before.width(),
        after.height() == before.height(),
        within(rect, x, y) ==> after.pixel(x, y) == 65536 * red + 256 * green + blue,
        !within(rect, x, y) ==> after.pixel(x, y) == before.pixel(x, y),
{
}

/// A region of bytes, or a frame of a stream, as it reaches the screen: four
/// bytes for each pixel, of which the first is blue, the second green and the
/// third red; and `stride` bytes for each row. The rest of the screen stays.
pub proof fn raw_region_is_shown(
    before: Framebuffer,
    after: Framebuffer,
    event: DisplayEvent,
    rect: Rect,
    data: Vec<u8>,
    stride: u32,
    x: int,
    y: int,
)
    requires
        before.wf(),
        before.on(x, y),
        match event {
            DisplayEvent::Region { rect: r, pixels, .. } => r == rect && pixels == (
            RegionPixels::Raw { data, stride }),
            DisplayEvent::StreamFrame { dest_rect: r, pixels, .. } => r == rect && pixels == (
            RegionPixels::Raw { data, stride }),
            _ => false,
        },
        paint::paint_of(event) matches Some(msg) && paint::applies(before, msg, after),
    ensures
        after.width() == before.width(),
        after.height() == before.height(),
        ({
            let at = (y - rect.top) * stride + 4 * (x - rect.left);
            within(rect, x, y) ==> after.pixel(x, y) == 65536 * data@[at + 2] + 256 * data@[at + 1]
                + data@[at]
        }),
        !within(rect, x, y) ==> after.pixel(x, y) == before.pixel(x, y),
{
}

/// A copy within the screen: each pixel of the destination shows what stood as
/// far from the source's corner as it stands from the destination's, before
/// anything was copied. The rest of the screen stays. A copy of which a part
/// that would be seen comes from off the screen copies nothing.
pub proof fn copied_region_is_shown(
    before: Framebuffer,
    after: Framebuffer,
    surface_id: u32,
    src_x: i32,
    src_y: i32,
    dest_rect: Rect,
    x: int,
    y: int,
)
    requires
        before.wf(),
        before.on(x, y),
        paint::paint_of(DisplayEvent::CopyRect { surface_id, src_x, src_y, dest_rect }) matches Some(
            msg,
        ) && paint::applies(before, msg, after),
    ensures
        after.width() == before.width(),
        after.height() == before.height(),
        !within(dest_rect, x, y) ==> after.pixel(x, y) == before.pixel(x, y),
        within(dest_rect, x, y) ==> {
            let dx = src_x - dest_rect.left;
            let dy = src_y - dest_rect.top;
            let first = before.on(
                larger(dest_rect.left as int, 0) + dx,
                larger(dest_rect.top as int, 0) + dy,
            );
            let last = before.on(
                smaller(dest_rect.right as int, before.width() as int) - 1 + dx,
                smaller(dest_rect.bottom as int, before.height() as int) - 1 + dy,
            );
            after.pixel(x, y) == if first && last {
                before.pixel(x + dx, y + dy)
            } else {
                before.pixel(x, y)
            }
        },
{
    if within(dest_rect, x, y) {
        assert(x + (src_x - dest_rect.left) == src_x + (x - dest_rect.left));
        assert(y + (src_y - dest_rect.top) == src_y + (y - dest_rect.top));
    }
}

/// The larger of two numbers.
pub open spec fn larger(a: int, b: int) -> int {
    if a > b {
        a
    } else {
        b
    }
}

/// The smaller of two numbers.
pub open spec fn smaller(a: int, b: int) -> int {
    if a < b {
        a
    } else {
        b
    }
}

/// A primary surface of a new size makes the screen that large and black; one
/// that is not primary changes nothing.
pub proof fn new_surface_clears_the_screen(
    before: Framebuffer,
    after: Framebuffer,
    id: u32,
    width: u32,
    height: u32,
    format: SurfaceFormat,
    x: int,
    y: int,
)
    requires
        before.wf(),
        after.wf(),
        0 < width <= 8192,
        0 < height <= 8192,
        (width, height) != (before.width(), before.height()),
        paint::paint_of(
            DisplayEvent::SurfaceCreated { id, width, height, format, primary: true },
        ) matches Some(msg) && paint::applies(before, msg, after),
    ensures
        after.width() == width,
        after.height() == height,
        0 <= x < width && 0 <= y < height ==> after.pixel(x, y) == 0,
        paint::paint_of(
            DisplayEvent::SurfaceCreated { id, width, height, format, primary: false },
        ) is None,
{
    assert(width * height <= 67108864) by (nonlinear_arith)
        requires
            0 < width <= 8192,
            0 < height <= 8192,
    ;
    if 0 <= x < width && 0 <= y < height {
        assert(0 <= y * width + x < width * height) by (nonlinear_arith)
            requires
                0 <= x < width,
                0 <= y < height,
        ;
    }
}

/// Shown `k` times as wide and `m` times as high, each pixel becomes a block of
/// `k` by `m`.
pub proof fn whole_scales_repeat_pixels(f: Framebuffer, k: int, m: int, x: int, y: int)
    requires
        f.wf(),
        0 < f.width(),
        0 < f.height(),
        0 < k,
        0 < m,
        0 <= x < k * f.width(),
        0 <= y < m * f.height(),
    ensures
        ({
            let sw = k * f.width();
            let sh = m * f.height();
            &&& f.shown(sw, sh).len() == sw * sh
            &&& 0 <= y * sw + x < sw * sh
            &&& f.shown(sw, sh)[y * sw + x] == f.pixel(x / k, y / m)
        }),
{
    let w = f.width() as int;
    let h = f.height() as int;
    let sw = k * w;
    let sh = m * h;
    let i = y * sw + x;
    assert(0 < sw && 0 < sh) by (nonlinear_arith)
        requires
            0 < k,
            0 < m,
            0 < w,
            0 < h,
            sw == k * w,
            sh == m * h,
    ;
    assert(0 <= i < sw * sh) by (nonlinear_arith)
        requires
            0 <= x < sw,
            0 <= y < sh,
            i == y * sw + x,
    ;
    assert(i % sw == x && i / sw == y) by {
        vstd::arithmetic::div_mod::lemma_fundamental_div_mod_converse(i, sw, y, x);
    }
    assert(x * w / sw == x / k) by {
        vstd::arithmetic::div_mod::lemma_div_denominator(x * w, w, k);
        assert(w * k == sw) by (nonlinear_arith)
            requires
                sw == k * w,
        ;
        vstd::arithmetic::div_mod::lemma_div_multiples_vanish(x, w);
        assert(x * w == w * x) by (nonlinear_arith);
    }
    assert(y * h / sh == y / m) by {
        vstd::arithmetic::div_mod::lemma_div_denominator(y * h, h, m);
        assert(h * m == sh) by (nonlinear_arith)
            requires
                sh == m * h,
        ;
        vstd::arithmetic::div_mod::lemma_div_multiples_vanish(y, h);
        assert(y * h == h * y) by (nonlinear_arith);
    }
    assert(f.pixels().len() > 0) by {
        assert(w * h > 0) by (nonlinear_arith)
            requires
                0 < w,
                0 < h,
        ;
    }
}

/// Shown in any size, a place shows the pixel whose share of the width and of
/// the height it falls into.
pub proof fn places_show_the_pixel_they_fall_into(
    f: Framebuffer,
    sw: int,
    sh: int,
    x: int,
    y: int,
    px: int,
    py: int,
)
    requires
        f.wf(),
        0 < sw,
        0 < sh,
        0 <= x < sw,
        0 <= y < sh,
        0 <= px < f.width(),
        0 <= py < f.height(),
        px * sw <= x * f.width() < (px + 1) * sw,
        py * sh <= y * f.height() < (py + 1) * sh,
    ensures
        0 <= y * sw + x < f.shown(sw, sh).len(),
        f.shown(sw, sh)[y * sw + x] == f.pixel(px, py),
{
    let w = f.width() as int;
    let h = f.height() as int;
    let i = y * sw + x;
    assert(0 <= i < sw * sh) by (nonlinear_arith)
        requires
            0 <= x < sw,
            0 <= y < sh,
            i == y * sw + x,
    ;
    vstd::arithmetic::div_mod::lemma_fundamental_div_mod_converse(i, sw, y, x);
    assert((px + 1) * sw == px * sw + sw) by (nonlinear_arith);
    assert((py + 1) * sh == py * sh + sh) by (nonlinear_arith);
    vstd::arithmetic::div_mod::lemma_fundamental_div_mod_converse(
        x * w,
        sw,
        px,
        x * w - px * sw,
    );
    vstd::arithmetic::div_mod::lemma_fundamental_div_mod_converse(
        y * h,
        sh,
        py,
        y * h - py * sh,
    );
    assert(w * h > 0) by (nonlinear_arith)
        requires
            0 < w,
            0 < h,
    ;
}

/// A screen is up to 16384 pixels wide and high, and has up to 64 Mi pixels.
pub proof fn screens_are_bounded(w: u32, h: u32)
    ensures
        framebuffer::fb_dims_ok(w, h) <==> {
            &&& 1 <= w <= 16384
            &&& 1 <= h <= 16384
            &&& w * h <= 64 * 1024 * 1024
        },
{
}

} // verus!
