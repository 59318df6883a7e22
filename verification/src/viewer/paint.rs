//! What display events paint.

use vstd::prelude::*;

use crate::client::error::ClientError;
use crate::client::events::{DisplayEvent, Rect, RegionPixels};
use crate::viewer::framebuffer;
use crate::viewer::framebuffer::{bgra32_to_softbuffer, Framebuffer};

verus! {

/// What the connection pushes to the window.
#[derive(Debug, Clone, PartialEq, Eq)]
pub enum PaintMsg {
    SurfaceCreated { width: u32, height: u32 },
    Region { rect: Rect, pixels: RegionPixels },
    StreamFrame { rect: Rect, pixels: RegionPixels },
    /// Copy a rectangle from `(src_x, src_y)` to `dest_rect` within the
    /// framebuffer. Used by SPICE `COPY_BITS`.
    CopyRect { src_x: i32, src_y: i32, dest_rect: Rect },
    Closed { error: Option<ClientError> },
}

/// What a display event paints. Only the primary surface is shown; events that
/// paint nothing are left out.
pub open spec fn paint_of(evt: DisplayEvent) -> Option<PaintMsg> {
    match evt {
        DisplayEvent::SurfaceCreated { width, height, primary, .. } => if primary {
            Some(PaintMsg::SurfaceCreated { width, height })
        } else {
            None
        },
        DisplayEvent::Region { rect, pixels, .. } => Some(PaintMsg::Region { rect, pixels }),
        DisplayEvent::StreamFrame { dest_rect, pixels, .. } => Some(
            PaintMsg::StreamFrame { rect: dest_rect, pixels },
        ),
        DisplayEvent::CopyRect { src_x, src_y, dest_rect, .. } => Some(
            PaintMsg::CopyRect { src_x, src_y, dest_rect },
        ),
        _ => None,
    }
}

/// What a display event paints.
pub fn display_event_to_paint(evt: DisplayEvent) -> (m: Option<PaintMsg>)
    ensures
        m == paint_of(evt),
{
    match evt {
        DisplayEvent::SurfaceCreated { width, height, primary, .. } => if primary {
            Some(PaintMsg::SurfaceCreated { width, height })
        } else {
            None
        },
        DisplayEvent::Region { rect, pixels, .. } => Some(PaintMsg::Region { rect, pixels }),
        DisplayEvent::StreamFrame { dest_rect, pixels, .. } => Some(
            PaintMsg::StreamFrame { rect: dest_rect, pixels },
        ),
        DisplayEvent::CopyRect { src_x, src_y, dest_rect, .. } => Some(
            PaintMsg::CopyRect { src_x, src_y, dest_rect },
        ),
        _ => None,
    }
}

/// Pixels can be painted into a rectangle.
pub open spec fn pixels_fit(rect: Rect, pixels: RegionPixels, w: int, h: int) -> bool {
    match pixels {
        RegionPixels::SolidColor(_) => framebuffer::fillable(rect, w, h),
        RegionPixels::Raw { data, stride } => framebuffer::blittable(
            rect,
            data@.len(),
            stride,
            w,
            h,
        ),
    }
}

/// A message can be painted.
pub open spec fn paintable(msg: PaintMsg, w: int, h: int) -> bool {
    match msg {
        PaintMsg::Region { rect, pixels } => pixels_fit(rect, pixels, w, h),
        PaintMsg::StreamFrame { rect, pixels } => pixels_fit(rect, pixels, w, h),
        PaintMsg::CopyRect { src_x, src_y, dest_rect } => framebuffer::copyable(
            src_x,
            src_y,
            dest_rect,
            w,
            h,
        ),
        _ => true,
    }
}

/// The colour of a pixel inside a painted rectangle.
pub open spec fn painted(rect: Rect, pixels: RegionPixels, x: int, y: int) -> u32 {
    match pixels {
        RegionPixels::SolidColor(c) => c % 16777216,
        RegionPixels::Raw { data, stride } => framebuffer::bgra_pixel(
            data@,
            (y - rect.top) * stride + 4 * (x - rect.left),
        ),
    }
}

/// Painting pixels into a rectangle leads from one framebuffer to another.
pub open spec fn paints(
    before: Framebuffer,
    rect: Rect,
    pixels: RegionPixels,
    after: Framebuffer,
) -> bool {
    &&& after.width() == before.width()
    &&& after.height() == before.height()
    &&& forall|x: int, y: int|
        before.on(x, y) ==> #[trigger] after.pixel(x, y) == (if framebuffer::inside(
            rect,
            before.width() as int,
            before.height() as int,
            x,
            y,
        ) {
            painted(rect, pixels, x, y)
        } else {
            before.pixel(x, y)
        })
}

/// A message leads from one framebuffer to another.
pub open spec fn applies(before: Framebuffer, msg: PaintMsg, after: Framebuffer) -> bool {
    match msg {
        PaintMsg::SurfaceCreated { width, height } => if framebuffer::fb_dims_ok(width, height)
            && !(width == before.width() && height == before.height()) {
            &&& after.width() == width
            &&& after.height() == height
            &&& after.pixels() == Seq::new((width * height) as nat, |i: int| 0u32)
        } else {
            after == before
        },
        PaintMsg::Region { rect, pixels } => paints(before, rect, pixels, after),
        PaintMsg::StreamFrame { rect, pixels } => paints(before, rect, pixels, after),
        PaintMsg::CopyRect { src_x, src_y, dest_rect } => {
            &&& after.width() == before.width()
            &&& after.height() == before.height()
            &&& forall|x: int, y: int|
                before.on(x, y) ==> #[trigger] after.pixel(x, y) == (
                if framebuffer::copy_source_fits(
                    src_x,
                    src_y,
                    dest_rect,
                    before.width() as int,
                    before.height() as int,
                ) && framebuffer::inside(
                    dest_rect,
                    before.width() as int,
                    before.height() as int,
                    x,
                    y,
                ) {
                    before.pixel(src_x + (x - dest_rect.left), src_y + (y - dest_rect.top))
                } else {
                    before.pixel(x, y)
                })
        },
        PaintMsg::Closed { .. } => after == before,
    }
}

/// The message can be painted: what it carries reaches every pixel that it
/// would set.
pub fn accepts(fb: &Framebuffer, msg: &PaintMsg) -> (b: bool)
    requires
        fb.wf(),
    ensures
        b == paintable(*msg, fb.width() as int, fb.height() as int),
{
    match msg {
        PaintMsg::Region { rect, pixels } => pixels_accepted(fb, rect, pixels),
        PaintMsg::StreamFrame { rect, pixels } => pixels_accepted(fb, rect, pixels),
        PaintMsg::CopyRect { src_x, src_y, dest_rect } => fb.fits_copy(*src_x, *src_y, dest_rect),
        _ => true,
    }
}

fn pixels_accepted(fb: &Framebuffer, rect: &Rect, pixels: &RegionPixels) -> (b: bool)
    requires
        fb.wf(),
    ensures
        b == pixels_fit(*rect, *pixels, fb.width() as int, fb.height() as int),
{
    match pixels {
        RegionPixels::SolidColor(_) => fb.fits_fill(rect),
        RegionPixels::Raw { data, stride } => fb.fits_blit(rect, data.len(), *stride),
    }
}

fn paint_pixels(fb: &mut Framebuffer, rect: Rect, pixels: RegionPixels)
    requires
        old(fb).wf(),
        pixels_fit(rect, pixels, old(fb).width() as int, old(fb).height() as int),
    ensures
        final(fb).wf(),
        paints(*old(fb), rect, pixels, *final(fb)),
{
    match pixels {
        RegionPixels::SolidColor(c) => fb.fill_rect(rect, bgra32_to_softbuffer(c)),
        RegionPixels::Raw { data, stride } => fb.blit_raw(rect, data.as_slice(), stride),
    }
}

/// What a message asks of the window after it was painted.
#[derive(Debug, Clone, PartialEq, Eq)]
pub struct Effect {
    /// Show the framebuffer again.
    pub redraw: bool,
    /// Close the window.
    pub exit: bool,
}

/// Paint a message.
pub fn apply(fb: &mut Framebuffer, msg: PaintMsg) -> (e: Effect)
    requires
        old(fb).wf(),
        paintable(msg, old(fb).width() as int, old(fb).height() as int),
    ensures
        final(fb).wf(),
        applies(*old(fb), msg, *final(fb)),
        e.exit == (msg is Closed),
        e.redraw == !(msg is Closed),
{
    match msg {
        PaintMsg::SurfaceCreated { width, height } => {
            fb.resize_fb(width, height);
            Effect { redraw: true, exit: false }
        },
        PaintMsg::Region { rect, pixels } => {
            paint_pixels(fb, rect, pixels);
            Effect { redraw: true, exit: false }
        },
        PaintMsg::StreamFrame { rect, pixels } => {
            paint_pixels(fb, rect, pixels);
            Effect { redraw: true, exit: false }
        },
        PaintMsg::CopyRect { src_x, src_y, dest_rect } => {
            fb.copy_rect(src_x, src_y, dest_rect);
            Effect { redraw: true, exit: false }
        },
        PaintMsg::Closed { .. } => Effect { redraw: false, exit: true },
    }
}

} // verus!
