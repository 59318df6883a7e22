//! The framebuffer: fills, blits, copies within it, and scaling to a window.

use vstd::prelude::*;

use crate::client::events::Rect;

verus! {

/// Cap on each axis.
pub const MAX_FB_DIM: u32 = 16384;

/// Cap on the pixels: 256 MiB of them.
pub const MAX_FB_PIXELS: u64 = 67_108_864;

/// A value brought into `0..=max`.
pub open spec fn clamped(v: int, max: int) -> int {
    if v < 0 {
        0
    } else if v > max {
        max
    } else {
        v
    }
}

/// A pixel lies in the part of a rectangle that is on the framebuffer.
pub open spec fn inside(rect: Rect, w: int, h: int, x: int, y: int) -> bool {
    &&& clamped(rect.left as int, w) <= x < clamped(rect.right as int, w)
    &&& clamped(rect.top as int, h) <= y < clamped(rect.bottom as int, h)
}

/// A fill can be drawn: on the framebuffer, its edges are in order.
pub open spec fn fillable(rect: Rect, w: int, h: int) -> bool {
    ||| clamped(rect.left as int, w) <= clamped(rect.right as int, w)
    ||| clamped(rect.top as int, h) >= clamped(rect.bottom as int, h)
}

/// A blit can be drawn: `len` bytes, with rows `stride` apart, reach every
/// pixel of the rectangle that is on the framebuffer.
pub open spec fn blittable(rect: Rect, len: nat, stride: u32, w: int, h: int) -> bool {
    let r = clamped(rect.right as int, w);
    let b = clamped(rect.bottom as int, h);
    let col = r - 1 - rect.left;
    let row = b - 1 - rect.top;
    &&& i32::MIN <= rect.right - rect.left <= i32::MAX
    &&& i32::MIN <= rect.bottom - rect.top <= i32::MAX
    &&& clamped(rect.left as int, w) < r && clamped(rect.top as int, h) < b ==> {
        &&& 4 * col <= u32::MAX
        &&& row * stride <= u32::MAX
        &&& row * stride + 4 * col + 3 <= len
    }
}

/// A copy within the framebuffer can be drawn: the edges of the destination
/// are in order, and the source corner can be computed.
pub open spec fn copyable(src_x: i32, src_y: i32, dest: Rect, w: int, h: int) -> bool {
    let l = clamped(dest.left as int, w);
    let t = clamped(dest.top as int, h);
    &&& l <= clamped(dest.right as int, w)
    &&& t <= clamped(dest.bottom as int, h)
    &&& i32::MIN <= l - dest.left <= i32::MAX
    &&& i32::MIN <= t - dest.top <= i32::MAX
    &&& i32::MIN <= src_x + (l - dest.left) <= i32::MAX
    &&& i32::MIN <= src_y + (t - dest.top) <= i32::MAX
}

/// The source of a copy, for the part of the destination that is on the
/// framebuffer, is all on the framebuffer.
pub open spec fn copy_source_fits(src_x: i32, src_y: i32, dest: Rect, w: int, h: int) -> bool {
    let l = clamped(dest.left as int, w);
    let t = clamped(dest.top as int, h);
    let x0 = src_x + (l - dest.left);
    let y0 = src_y + (t - dest.top);
    &&& 0 <= x0
    &&& 0 <= y0
    &&& x0 + (clamped(dest.right as int, w) - l) <= w
    &&& y0 + (clamped(dest.bottom as int, h) - t) <= h
}

/// Bytes as a `0RGB` pixel.
pub open spec fn packed(r: u8, g: u8, b: u8) -> u32 {
    (65536 * r + 256 * g + b) as u32
}

/// The pixel that starts at byte `i` of BGRA data.
pub open spec fn bgra_pixel(data: Seq<u8>, i: int) -> u32 {
    packed(data[i + 2], data[i + 1], data[i])
}

/// Dimensions that a framebuffer may have.
pub open spec fn fb_dims_ok(w: u32, h: u32) -> bool {
    &&& 0 < w <= MAX_FB_DIM
    &&& 0 < h <= MAX_FB_DIM
    &&& w * h <= MAX_FB_PIXELS
}

proof fn lemma_index(w: int, h: int, x: int, y: int)
    requires
        0 <= x < w <= MAX_FB_DIM,
        0 <= y < h <= MAX_FB_DIM,
    ensures
        0 <= y * w <= y * w + x < h * w <= 268435456,
        w * h == h * w,
{
    assert(0 <= y * w <= y * w + x < h * w <= 268435456 && w * h == h * w) by (nonlinear_arith)
        requires
            0 <= x < w <= 16384,
            0 <= y < h <= 16384,
    ;
}

proof fn lemma_distinct(w: int, x: int, y: int, x2: int, y2: int)
    requires
        0 <= x < w,
        0 <= x2 < w,
        y * w + x == y2 * w + x2,
    ensures
        x == x2,
        y == y2,
{
    assert(x == x2 && y == y2) by (nonlinear_arith)
        requires
            0 <= x < w,
            0 <= x2 < w,
            y * w + x == y2 * w + x2,
    ;
}

/// A rectangle, cut to the framebuffer: left, top, right, bottom.
pub fn clamp_rect(rect: &Rect, fb_w: u32, fb_h: u32) -> (r: (u32, u32, u32, u32))
    requires
        fb_w <= i32::MAX,
        fb_h <= i32::MAX,
    ensures
        r.0 == clamped(rect.left as int, fb_w as int),
        r.1 == clamped(rect.top as int, fb_h as int),
        r.2 == clamped(rect.right as int, fb_w as int),
        r.3 == clamped(rect.bottom as int, fb_h as int),
{
    (
        clamp(rect.left, fb_w),
        clamp(rect.top, fb_h),
        clamp(rect.right, fb_w),
        clamp(rect.bottom, fb_h),
    )
}

fn clamp(v: i32, max: u32) -> (r: u32)
    requires
        max <= i32::MAX,
    ensures
        r == clamped(v as int, max as int),
{
    if v < 0 {
        0
    } else if v > max as i32 {
        max
    } else {
        v as u32
    }
}

/// Pack colour bytes into a `0RGB` pixel.
pub fn bgra_to_softbuffer(r: u8, g: u8, b: u8) -> (c: u32)
    ensures
        c == packed(r, g, b),
{
    65536 * r as u32 + 256 * g as u32 + b as u32
}

/// Convert a SPICE 32-bit `0xAARRGGBB` color to a `0RGB` pixel.
pub fn bgra32_to_softbuffer(spice_color: u32) -> (c: u32)
    ensures
        c == spice_color % 16777216,
        c == packed(
            (spice_color / 65536 % 256) as u8,
            (spice_color / 256 % 256) as u8,
            (spice_color % 256) as u8,
        ),
{
    spice_color % 16777216
}

/// Pixels in rows.
pub struct Framebuffer {
    fb: Vec<u32>,
    fb_w: u32,
    fb_h: u32,
}

impl Framebuffer {
    /// Pixels per row.
    pub closed spec fn width(self) -> u32 {
        self.fb_w
    }

    /// Rows.
    pub closed spec fn height(self) -> u32 {
        self.fb_h
    }

    /// All pixels, row by row.
    pub closed spec fn pixels(self) -> Seq<u32> {
        self.fb@
    }

    /// The pixel at a place.
    pub open spec fn pixel(self, x: int, y: int) -> u32 {
        self.pixels()[y * self.width() + x]
    }

    /// There are as many pixels as the dimensions say, and not too many.
    pub open spec fn wf(self) -> bool {
        &&& self.pixels().len() == self.width() * self.height()
        &&& self.width() <= MAX_FB_DIM
        &&& self.height() <= MAX_FB_DIM
    }

    /// A place on the framebuffer.
    pub open spec fn on(self, x: int, y: int) -> bool {
        0 <= x < self.width() && 0 <= y < self.height()
    }

    /// Pixel `i` of a window of `sw` by `sh`: black while there is nothing to
    /// show, else the nearest pixel at that place of the framebuffer.
    pub open spec fn shown_at(self, sw: int, sh: int, i: int) -> u32 {
        if self.pixels().len() == 0 {
            0
        } else {
            self.pixel((i % sw) * self.width() / sw, (i / sw) * self.height() / sh)
        }
    }

    /// What a window of `sw` by `sh` shows.
    pub open spec fn shown(self, sw: int, sh: int) -> Seq<u32> {
        Seq::new((sw * sh) as nat, |i: int| self.shown_at(sw, sh, i))
    }

    /// An empty framebuffer.
    pub fn new() -> (f: Self)
        ensures
            f.wf(),
            f.width() == 0,
            f.height() == 0,
            f.pixels() == Seq::<u32>::empty(),
    {
        Self { fb: Vec::new(), fb_w: 0, fb_h: 0 }
    }

    /// Width and height.
    pub fn size(&self) -> (s: (u32, u32))
        ensures
            s == (self.width(), self.height()),
    {
        (self.fb_w, self.fb_h)
    }

    /// The pixel at a place, or `None` off the framebuffer.
    pub fn get(&self, x: u32, y: u32) -> (p: Option<u32>)
        requires
            self.wf(),
        ensures
            p == (if self.on(x as int, y as int) {
                Some(self.pixel(x as int, y as int))
            } else {
                None
            }),
    {
        if x < self.fb_w && y < self.fb_h {
            proof {
                lemma_index(self.fb_w as int, self.fb_h as int, x as int, y as int);
            }
            Some(self.fb[y as usize * self.fb_w as usize + x as usize])
        } else {
            None
        }
    }

    /// Give the framebuffer new dimensions, all black. Nothing changes where
    /// it has them already, or where they are out of range.
    pub fn resize_fb(&mut self, w: u32, h: u32)
        requires
            old(self).wf(),
        ensures
            final(self).wf(),
            if fb_dims_ok(w, h) && !(w == old(self).width() && h == old(self).height()) {
                &&& final(self).width() == w
                &&& final(self).height() == h
                &&& final(self).pixels() == Seq::new((w * h) as nat, |i: int| 0u32)
            } else {
                *final(self) == *old(self)
            },
    {
        if w == self.fb_w && h == self.fb_h {
            return;
        }
        if w == 0 || h == 0 || w > MAX_FB_DIM || h > MAX_FB_DIM {
            return;
        }
        assert(w * h <= 16384 * 16384) by (nonlinear_arith)
            requires
                w <= 16384,
                h <= 16384,
        ;
        let pixels: u64 = w as u64 * h as u64;
        if pixels > MAX_FB_PIXELS {
            return;
        }
        self.fb_w = w;
        self.fb_h = h;
        self.fb = vec![0u32; pixels as usize];
        assert(self.fb@ =~= Seq::new((w * h) as nat, |i: int| 0u32));
    }

    /// Set one pixel.
    fn put(&mut self, x: u32, y: u32, color: u32)
        requires
            old(self).wf(),
            old(self).on(x as int, y as int),
        ensures
            final(self).wf(),
            final(self).width() == old(self).width(),
            final(self).height() == old(self).height(),
            forall|i: int, j: int| #[trigger]
                final(self).pixel(i, j) == (if i == x && j == y {
                    color
                } else {
                    old(self).pixel(i, j)
                }) || !old(self).on(i, j),
    {
        let ghost w = self.fb_w as int;
        proof {
            lemma_index(w, self.fb_h as int, x as int, y as int);
        }
        let at: usize = y as usize * self.fb_w as usize + x as usize;
        self.fb[at] = color;
        proof {
            assert forall|i: int, j: int| #[trigger]
                self.pixel(i, j) == (if i == x && j == y {
                    color
                } else {
                    old(self).pixel(i, j)
                }) || !old(self).on(i, j) by {
                if old(self).on(i, j) {
                    lemma_index(w, self.fb_h as int, i, j);
                    if j * w + i == y * w + x {
                        lemma_distinct(w, i, j, x as int, y as int);
                    }
                }
            }
        }
    }

    /// Paint a rectangle in one colour.
    pub fn fill_rect(&mut self, rect: Rect, color: u32)
        requires
            old(self).wf(),
            fillable(rect, old(self).width() as int, old(self).height() as int),
        ensures
            final(self).wf(),
            final(self).width() == old(self).width(),
            final(self).height() == old(self).height(),
            forall|x: int, y: int|
                old(self).on(x, y) ==> #[trigger] final(self).pixel(x, y) == (if inside(
                    rect,
                    old(self).width() as int,
                    old(self).height() as int,
                    x,
                    y,
                ) {
                    color
                } else {
                    old(self).pixel(x, y)
                }),
    {
        let (l, t, r, b) = clamp_rect(&rect, self.fb_w, self.fb_h);
        let ghost before = *self;
        let mut y: u32 = t;
        while y < b
            invariant
                before.wf(),
                self.wf(),
                self.width() == before.width(),
                self.height() == before.height(),
                r <= before.width(),
                t <= y,
                b <= before.height(),
                forall|i: int, j: int|
                    before.on(i, j) ==> #[trigger] self.pixel(i, j) == (if l <= i < r && t <= j < b
                        && j < y {
                        color
                    } else {
                        before.pixel(i, j)
                    }),
            decreases b - y,
        {
            let mut x: u32 = l;
            while x < r
                invariant
                    before.wf(),
                    self.wf(),
                    self.width() == before.width(),
                    self.height() == before.height(),
                    l <= x,
                    r <= before.width(),
                    t <= y < b <= before.height(),
                    forall|i: int, j: int|
                        before.on(i, j) ==> #[trigger] self.pixel(i, j) == (if l <= i < r && t <= j
                            < b && (j < y || j == y && i < x) {
                            color
                        } else {
                            before.pixel(i, j)
                        }),
                decreases r - x,
            {
                self.put(x, y, color);
                x = x + 1;
            }
            y = y + 1;
        }
    }

    /// The rectangle can be filled.
    pub fn fits_fill(&self, rect: &Rect) -> (b: bool)
        requires
            self.wf(),
        ensures
            b == fillable(*rect, self.width() as int, self.height() as int),
    {
        let (l, t, r, b) = clamp_rect(rect, self.fb_w, self.fb_h);
        l <= r || t >= b
    }

    /// The data reaches every pixel that a blit would paint.
    pub fn fits_blit(&self, rect: &Rect, len: usize, stride: u32) -> (b: bool)
        requires
            self.wf(),
        ensures
            b == blittable(*rect, len as nat, stride, self.width() as int, self.height() as int),
    {
        let (l, t, r, b) = clamp_rect(rect, self.fb_w, self.fb_h);
        let across: i64 = rect.right as i64 - rect.left as i64;
        let down: i64 = rect.bottom as i64 - rect.top as i64;
        if across < i32::MIN as i64 || across > i32::MAX as i64 || down < i32::MIN as i64 || down
            > i32::MAX as i64 {
            return false;
        }
        if l >= r || t >= b {
            return true;
        }
        let col: i64 = r as i64 - 1 - rect.left as i64;
        let row: i64 = b as i64 - 1 - rect.top as i64;
        assert(0 <= col <= 4294967295 && 0 <= row <= 2147483647);
        assert(0 <= row * stride <= 2147483647 * 4294967295) by (nonlinear_arith)
            requires
                0 <= row <= 2147483647,
                0 <= stride <= 4294967295,
        ;
        let down_bytes: u64 = row as u64 * stride as u64;
        4 * col <= u32::MAX as i64 && down_bytes <= u32::MAX as u64 && down_bytes + 4 * col as u64
            + 3 <= len as u64
    }

    /// The corners of a copy can be computed.
    pub fn fits_copy(&self, src_x: i32, src_y: i32, dest: &Rect) -> (ok: bool)
        requires
            self.wf(),
        ensures
            ok == copyable(src_x, src_y, *dest, self.width() as int, self.height() as int),
    {
        let (l, t, r, b) = clamp_rect(dest, self.fb_w, self.fb_h);
        let dx: i64 = l as i64 - dest.left as i64;
        let dy: i64 = t as i64 - dest.top as i64;
        let x0: i64 = src_x as i64 + dx;
        let y0: i64 = src_y as i64 + dy;
        l <= r && t <= b && i32::MIN as i64 <= dx && dx <= i32::MAX as i64 && i32::MIN as i64 <= dy
            && dy <= i32::MAX as i64 && i32::MIN as i64 <= x0 && x0 <= i32::MAX as i64
            && i32::MIN as i64 <= y0 && y0 <= i32::MAX as i64
    }

    /// Paint a rectangle from BGRA data with rows `stride` bytes apart. What
    /// lies off the framebuffer is cut away.
    pub fn blit_raw(&mut self, rect: Rect, data: &[u8], stride: u32)
        requires
            old(self).wf(),
            blittable(
                rect,
                data@.len(),
                stride,
                old(self).width() as int,
                old(self).height() as int,
            ),
        ensures
            final(self).wf(),
            final(self).width() == old(self).width(),
            final(self).height() == old(self).height(),
            forall|x: int, y: int|
                old(self).on(x, y) ==> #[trigger] final(self).pixel(x, y) == (if inside(
                    rect,
                    old(self).width() as int,
                    old(self).height() as int,
                    x,
                    y,
                ) {
                    bgra_pixel(data@, (y - rect.top) * stride + 4 * (x - rect.left))
                } else {
                    old(self).pixel(x, y)
                }),
    {
        let (l, t, r, b) = clamp_rect(&rect, self.fb_w, self.fb_h);
        let ghost before = *self;
        if l >= r || t >= b {
            return;
        }
        assert(data@.len() == data.len());
        let ghost top = rect.top as int;
        let ghost left = rect.left as int;
        let mut y: u32 = t;
        while y < b
            invariant
                before.wf(),
                self.wf(),
                self.width() == before.width(),
                self.height() == before.height(),
                l < r <= before.width(),
                t <= y <= b <= before.height(),
                top == rect.top,
                left == rect.left,
                left <= l,
                top <= t,
                (b - 1 - top) * stride + 4 * (r - 1 - left) + 3 <= data@.len() <= usize::MAX,
                forall|i: int, j: int|
                    before.on(i, j) ==> #[trigger] self.pixel(i, j) == (if l <= i < r && t <= j < b
                        && j < y {
                        bgra_pixel(data@, (j - top) * stride + 4 * (i - left))
                    } else {
                        before.pixel(i, j)
                    }),
            decreases b - y,
        {
            let row: usize = (y as i64 - rect.top as i64) as usize;
            assert(0 <= row * stride <= (b - 1 - top) * stride) by (nonlinear_arith)
                requires
                    0 <= row <= b - 1 - top,
                    0 <= stride,
            ;
            let base: usize = row * stride as usize;
            let mut x: u32 = l;
            while x < r
                invariant
                    before.wf(),
                    self.wf(),
                    self.width() == before.width(),
                    self.height() == before.height(),
                    l <= x <= r <= before.width(),
                    t <= y < b <= before.height(),
                    top == rect.top,
                    left == rect.left,
                    left <= l,
                    base == (y - top) * stride,
                    base + 4 * (r - 1 - left) + 3 <= data@.len() <= usize::MAX,
                    forall|i: int, j: int|
                        before.on(i, j) ==> #[trigger] self.pixel(i, j) == (if l <= i < r && t <= j
                            < b && (j < y || j == y && i < x) {
                            bgra_pixel(data@, (j - top) * stride + 4 * (i - left))
                        } else {
                            before.pixel(i, j)
                        }),
                decreases r - x,
            {
                let col: usize = (x as i64 - rect.left as i64) as usize;
                let at: usize = base + 4 * col;
                self.put(x, y, bgra_to_softbuffer(data[at + 2], data[at + 1], data[at]));
                x = x + 1;
            }
            y = y + 1;
        }
    }

    /// Copy one row of a rectangle, in the order of columns that does not
    /// overwrite what is still to be read.
    fn copy_row(&mut self, sx: u32, sy: u32, dx: u32, dy: u32, n: u32)
        requires
            old(self).wf(),
            sx + n <= old(self).width(),
            dx + n <= old(self).width(),
            sy < old(self).height(),
            dy < old(self).height(),
        ensures
            final(self).wf(),
            final(self).width() == old(self).width(),
            final(self).height() == old(self).height(),
            forall|x: int, y: int|
                old(self).on(x, y) ==> #[trigger] final(self).pixel(x, y) == (if y == dy && dx <= x
                    < dx + n {
                    old(self).pixel(sx + (x - dx), sy as int)
                } else {
                    old(self).pixel(x, y)
                }),
    {
        let ghost before = *self;
        let mut k: u32 = 0;
        let reverse: bool = dx > sx;
        while k < n
            invariant
                before.wf(),
                self.wf(),
                self.width() == before.width(),
                self.height() == before.height(),
                k <= n,
                sx + n <= before.width(),
                dx + n <= before.width(),
                sy < before.height(),
                dy < before.height(),
                reverse == (dx > sx),
                forall|x: int, y: int|
                    before.on(x, y) ==> #[trigger] self.pixel(x, y) == (if y == dy && dx <= x < dx
                        + n && (if reverse {
                        x >= dx + n - k
                    } else {
                        x < dx + k
                    }) {
                        before.pixel(sx + (x - dx), sy as int)
                    } else {
                        before.pixel(x, y)
                    }),
            decreases n - k,
        {
            let c: u32 = if reverse {
                n - 1 - k
            } else {
                k
            };
            proof {
                lemma_index(
                    self.fb_w as int,
                    self.fb_h as int,
                    sx as int + c as int,
                    sy as int,
                );
                assert(before.on(sx as int + c as int, sy as int));
                assert(self.pixel(sx as int + c as int, sy as int) == before.pixel(
                    sx as int + c as int,
                    sy as int,
                ));
            }
            let v: u32 = self.fb[sy as usize * self.fb_w as usize + sx as usize + c as usize];
            let ghost mid = *self;
            self.put(dx + c, dy, v);
            proof {
                assert(v == before.pixel(sx as int + c as int, sy as int));
                assert forall|x: int, y: int| before.on(x, y) implies #[trigger] self.pixel(x, y)
                    == (if y == dy && dx <= x < dx + n && (if reverse {
                    x >= dx + n - (k + 1)
                } else {
                    x < dx + (k + 1)
                }) {
                    before.pixel(sx + (x - dx), sy as int)
                } else {
                    before.pixel(x, y)
                }) by {
                    assert(mid.on(x, y));
                    if x == dx + c && y == dy {
                        assert(sx + (x - dx) == sx + c);
                    } else {
                        assert(self.pixel(x, y) == mid.pixel(x, y));
                    }
                }
            }
            k = k + 1;
        }
    }

    /// Copy a rectangle from `(src_x, src_y)` to `dest` within the framebuffer.
    /// Every pixel gets what the source held before the copy, however the two
    /// overlap. Nothing is copied where the source is not all on the
    /// framebuffer.
    pub fn copy_rect(&mut self, src_x: i32, src_y: i32, dest: Rect)
        requires
            old(self).wf(),
            copyable(src_x, src_y, dest, old(self).width() as int, old(self).height() as int),
        ensures
            final(self).wf(),
            final(self).width() == old(self).width(),
            final(self).height() == old(self).height(),
            forall|x: int, y: int|
                old(self).on(x, y) ==> #[trigger] final(self).pixel(x, y) == (if copy_source_fits(
                    src_x,
                    src_y,
                    dest,
                    old(self).width() as int,
                    old(self).height() as int,
                ) && inside(dest, old(self).width() as int, old(self).height() as int, x, y) {
                    old(self).pixel(src_x + (x - dest.left), src_y + (y - dest.top))
                } else {
                    old(self).pixel(x, y)
                }),
    {
        let (l, t, r, b) = clamp_rect(&dest, self.fb_w, self.fb_h);
        let ghost before = *self;
        let n: u32 = r - l;
        let m: u32 = b - t;
        if n == 0 || m == 0 {
            return;
        }
        let x0: i64 = src_x as i64 + (l as i64 - dest.left as i64);
        let y0: i64 = src_y as i64 + (t as i64 - dest.top as i64);
        if x0 < 0 || y0 < 0 || x0 + n as i64 > self.fb_w as i64 || y0 + m as i64
            > self.fb_h as i64 {
            return;
        }
        let sx: u32 = x0 as u32;
        let sy: u32 = y0 as u32;
        let reverse: bool = t > sy;
        let mut k: u32 = 0;
        while k < m
            invariant
                before.wf(),
                self.wf(),
                self.width() == before.width(),
                self.height() == before.height(),
                k <= m,
                sx + n <= before.width(),
                l + n <= before.width(),
                sy + m <= before.height(),
                t + m <= before.height(),
                reverse == (t > sy),
                forall|x: int, y: int|
                    before.on(x, y) ==> #[trigger] self.pixel(x, y) == (if l <= x < l + n && t <= y
                        < t + m && (if reverse {
                        y >= t + m - k
                    } else {
                        y < t + k
                    }) {
                        before.pixel(sx + (x - l), sy + (y - t))
                    } else {
                        before.pixel(x, y)
                    }),
            decreases m - k,
        {
            let c: u32 = if reverse {
                m - 1 - k
            } else {
                k
            };
            let ghost mid = *self;
            self.copy_row(sx, sy + c, l, t + c, n);
            proof {
                assert forall|x: int, y: int| before.on(x, y) implies #[trigger] self.pixel(x, y)
                    == (if l <= x < l + n && t <= y < t + m && (if reverse {
                    y >= t + m - (k + 1)
                } else {
                    y < t + (k + 1)
                }) {
                    before.pixel(sx + (x - l), sy + (y - t))
                } else {
                    before.pixel(x, y)
                }) by {
                    assert(mid.on(x, y));
                    if y == t + c && l <= x < l + n {
                        let i = sx + (x - l);
                        let j = (sy + c) as int;
                        assert(self.pixel(x, y) == mid.pixel(i, j));
                        assert(before.on(i, j));
                        assert(mid.pixel(i, j) == before.pixel(i, j));
                    } else {
                        assert(self.pixel(x, y) == mid.pixel(x, y));
                    }
                }
            }
            k = k + 1;
        }
        proof {
            assert forall|x: int, y: int| before.on(x, y) implies #[trigger] self.pixel(x, y) == (
            if inside(dest, before.width() as int, before.height() as int, x, y) {
                before.pixel(src_x + (x - dest.left), src_y + (y - dest.top))
            } else {
                before.pixel(x, y)
            }) by {
                assert(sx + (x - l) == src_x + (x - dest.left));
                assert(sy + (y - t) == src_y + (y - dest.top));
            }
        }
    }

    /// The framebuffer at the size of a window: a copy where the sizes agree,
    /// else scaled to the nearest pixel; black while there is nothing to show.
    pub fn render(&self, sw: u32, sh: u32) -> (out: Vec<u32>)
        requires
            self.wf(),
            0 < sw,
            0 < sh,
            sw * sh <= u32::MAX,
        ensures
            out@ == self.shown(sw as int, sh as int),
    {
        let mut out: Vec<u32> = Vec::new();
        let empty: bool = self.fb.len() == 0;
        let mut y: u32 = 0;
        assert(0 * (sw as int) == 0);
        while y < sh
            invariant
                self.wf(),
                empty == (self.pixels().len() == 0),
                0 < sw,
                0 < sh,
                y <= sh,
                out@.len() == y * sw,
                forall|i: int| 0 <= i < y * sw ==> #[trigger] out@[i] == self.shown_at(sw as int, sh as int, i),
            decreases sh - y,
        {
            let mut x: u32 = 0;
            while x < sw
                invariant
                    self.wf(),
                    empty == (self.pixels().len() == 0),
                    0 < sw,
                    0 < sh,
                    y < sh,
                    x <= sw,
                    out@.len() == y * sw + x,
                    forall|i: int| 0 <= i < y * sw + x ==> #[trigger] out@[i] == self.shown_at(sw as int, sh as int, i),
                decreases sw - x,
            {
                proof {
                    lemma_cell(y as int, x as int, sw as int);
                }
                if empty {
                    out.push(0);
                } else {
                    proof {
                        lemma_scaled(x as int, self.fb_w as int, sw as int);
                        lemma_scaled(y as int, self.fb_h as int, sh as int);
                        lemma_nonempty(self.fb_w as int, self.fb_h as int);
                        lemma_index(
                            self.fb_w as int,
                            self.fb_h as int,
                            x * self.fb_w / (sw as int),
                            y * self.fb_h / (sh as int),
                        );
                    }
                    let src_y: u64 = y as u64 * self.fb_h as u64 / sh as u64;
                    let src_x: u64 = x as u64 * self.fb_w as u64 / sw as u64;
                    let at: usize = src_y as usize * self.fb_w as usize + src_x as usize;
                    out.push(self.fb[at]);
                }
                x = x + 1;
            }
            assert((y + 1) * sw == y * sw + sw) by (nonlinear_arith);
            y = y + 1;
        }
        assert(sh * sw == sw * sh) by (nonlinear_arith);
        assert(out@ =~= self.shown(sw as int, sh as int));
        out
    }
}

proof fn lemma_cell(y: int, x: int, w: int)
    requires
        0 <= y,
        0 <= x < w,
    ensures
        (y * w + x) / w == y,
        (y * w + x) % w == x,
        y * w + x >= 0,
{
    assert((y * w + x) / w == y && (y * w + x) % w == x && y * w + x >= 0) by (nonlinear_arith)
        requires
            0 <= y,
            0 <= x < w,
    ;
}

proof fn lemma_scaled(x: int, from: int, to: int)
    requires
        0 <= x < to <= u32::MAX,
        0 <= from <= MAX_FB_DIM,
    ensures
        0 <= x * from <= u64::MAX,
        from > 0 ==> 0 <= x * from / to < from,
{
    assert(0 <= x * from <= u64::MAX) by (nonlinear_arith)
        requires
            0 <= x <= u32::MAX,
            0 <= from <= 16384,
    ;
    if from > 0 {
        assert(0 <= x * from / to < from) by (nonlinear_arith)
            requires
                0 <= x < to,
                0 < from,
        ;
    }
}

proof fn lemma_nonempty(w: int, h: int)
    ensures
        w == 0 || h == 0 ==> w * h == 0,
{
    assert(w == 0 || h == 0 ==> w * h == 0) by (nonlinear_arith);
}

proof fn lemma_own_place(w: int, h: int, i: int)
    requires
        0 < w,
        0 < h,
        0 <= i < w * h,
    ensures
        ((i / w) * h / h) * w + (i % w) * w / w == i,
{
    let x = i % w;
    let y = i / w;
    assert(x * w / w == x) by (nonlinear_arith)
        requires
            0 < w,
    ;
    assert(y * h / h == y) by (nonlinear_arith)
        requires
            0 < h,
    ;
    assert(y * w + x == i) by (nonlinear_arith)
        requires
            0 < w,
            x == i % w,
            y == i / w,
    ;
}

/// At its own size a framebuffer is shown as it is.
pub proof fn own_size_is_shown_unscaled(f: Framebuffer)
    requires
        f.wf(),
    ensures
        f.shown(f.width() as int, f.height() as int) == f.pixels(),
{
    let w = f.width() as int;
    let h = f.height() as int;
    lemma_nonempty(w, h);
    assert forall|i: int| 0 <= i < f.pixels().len() implies f.shown_at(w, h, i)
        == #[trigger] f.pixels()[i] by {
        lemma_own_place(w, h, i);
    }
    assert(f.shown(w, h) =~= f.pixels());
}

} // verus!
