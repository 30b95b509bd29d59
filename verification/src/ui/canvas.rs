//! Software canvas on borrowed RGBA memory, top-down, without padding.
//!
//! Every primitive is clipped: what lies outside the canvas is not drawn, for
//! any coordinates whatever.
use vstd::prelude::*;

verus! {

/// A colour, in the byte order of the frame buffer.
#[derive(Debug, Clone, Copy, PartialEq, Eq, Structural)]
pub struct Color {
    pub r: u8,
    pub g: u8,
    pub b: u8,
    /// 255 is opaque.
    pub a: u8,
}

/// A channel on the straight line from `a` (at 0) to `b` (at `tm`), at `t`,
/// rounded towards `a` and held within a channel.
pub open spec fn mixed(a: u8, b: u8, t: u32, tm: u32) -> int {
    if b >= a {
        let v = a + (b - a) * t / (tm as int);
        if v > 255 {
            255
        } else {
            v
        }
    } else {
        let v = a - (a - b) * t / (tm as int);
        if v < 0 {
            0
        } else {
            v
        }
    }
}

fn mix_u8(a: u8, b: u8, t: u32, tm: u32) -> (r: u8)
    requires
        tm > 0,
    ensures
        r == mixed(a, b, t, tm),
{
    if b >= a {
        let d: u64 = (b - a) as u64;
        assert(d * t <= 255 * 0xffff_ffff) by (nonlinear_arith)
            requires
                d <= 255,
                t <= 0xffff_ffff,
        ;
        let step: u64 = d * (t as u64) / (tm as u64);
        if step > 255 - a as u64 {
            255
        } else {
            a + step as u8
        }
    } else {
        let d: u64 = (a - b) as u64;
        assert(d * t <= 255 * 0xffff_ffff) by (nonlinear_arith)
            requires
                d <= 255,
                t <= 0xffff_ffff,
        ;
        let step: u64 = d * (t as u64) / (tm as u64);
        if step > a as u64 {
            0
        } else {
            a - step as u8
        }
    }
}

impl Color {
    /// An opaque colour.
    pub fn rgb(r: u8, g: u8, b: u8) -> (c: Color)
        ensures
            c == (Color { r, g, b, a: 255 }),
    {
        Color { r, g, b, a: 255 }
    }

    /// Linear mix of `self` and `other`.
    pub open spec fn mix(self, other: Color, t: u32, t_max: u32) -> Color {
        let tm = if t_max == 0 {
            1u32
        } else {
            t_max
        };
        Color {
            r: mixed(self.r, other.r, t, tm) as u8,
            g: mixed(self.g, other.g, t, tm) as u8,
            b: mixed(self.b, other.b, t, tm) as u8,
            a: mixed(self.a, other.a, t, tm) as u8,
        }
    }

    /// Linear mix from `self` to `other` at `t / t_max`, for gradients. A
    /// `t_max` of 0 counts as 1.
    pub fn lerp(self, other: Color, t: u32, t_max: u32) -> (c: Color)
        ensures
            c == self.mix(other, t, t_max),
    {
        let tm: u32 = if t_max == 0 {
            1
        } else {
            t_max
        };
        Color {
            r: mix_u8(self.r, other.r, t, tm),
            g: mix_u8(self.g, other.g, t, tm),
            b: mix_u8(self.b, other.b, t, tm),
            a: mix_u8(self.a, other.a, t, tm),
        }
    }

    /// The same colour, opaque.
    pub open spec fn opaque(self) -> Color {
        Color { a: 255, ..self }
    }

    /// `self` laid over `under` with its own alpha.
    pub open spec fn over(self, under: Color) -> Color {
        let a = self.a as int;
        Color {
            r: ((a * self.r + (255 - a) * under.r) / 255) as u8,
            g: ((a * self.g + (255 - a) * under.g) / 255) as u8,
            b: ((a * self.b + (255 - a) * under.b) / 255) as u8,
            a: 255,
        }
    }

    /// What filling a pixel with `self` leaves there.
    pub open spec fn filled(self, under: Color) -> Color {
        if self.a == 255 {
            self
        } else {
            self.over(under)
        }
    }

    /// What setting a pixel to `self` leaves there: a fully transparent colour
    /// leaves the pixel alone.
    pub open spec fn set_on(self, under: Color) -> Color {
        if self.a == 255 {
            self
        } else if self.a > 0 {
            self.over(under)
        } else {
            under
        }
    }
}

/// At the ends of the line a mix is one of the two colours, and in between
/// every channel lies between theirs.
pub proof fn law_mix_is_between(a: Color, b: Color, t: u32, t_max: u32)
    requires
        t <= t_max,
        t_max > 0,
    ensures
        a.mix(b, 0, t_max) == a,
        a.mix(b, t_max, t_max) == b,
        a.r <= b.r ==> a.r <= a.mix(b, t, t_max).r <= b.r,
        a.r >= b.r ==> b.r <= a.mix(b, t, t_max).r <= a.r,
        a.g <= b.g ==> a.g <= a.mix(b, t, t_max).g <= b.g,
        a.g >= b.g ==> b.g <= a.mix(b, t, t_max).g <= a.g,
        a.b <= b.b ==> a.b <= a.mix(b, t, t_max).b <= b.b,
        a.b >= b.b ==> b.b <= a.mix(b, t, t_max).b <= a.b,
        a.a <= b.a ==> a.a <= a.mix(b, t, t_max).a <= b.a,
        a.a >= b.a ==> b.a <= a.mix(b, t, t_max).a <= a.a,
        a.mix(a, t, t_max) == a,
{
    lemma_mixed_ends(a.r, b.r, t, t_max);
    lemma_mixed_ends(a.g, b.g, t, t_max);
    lemma_mixed_ends(a.b, b.b, t, t_max);
    lemma_mixed_ends(a.a, b.a, t, t_max);
    lemma_mixed_ends(a.r, a.r, t, t_max);
    lemma_mixed_ends(a.g, a.g, t, t_max);
    lemma_mixed_ends(a.b, a.b, t, t_max);
    lemma_mixed_ends(a.a, a.a, t, t_max);
}

proof fn lemma_mixed_ends(a: u8, b: u8, t: u32, tm: u32)
    requires
        t <= tm,
        tm > 0,
    ensures
        mixed(a, b, 0, tm) == a,
        mixed(a, b, tm, tm) == b,
        a <= b ==> a <= mixed(a, b, t, tm) <= b,
        a >= b ==> b <= mixed(a, b, t, tm) <= a,
{
    let d: int = if b >= a {
        b - a
    } else {
        a - b
    };
    assert(d * 0 / (tm as int) == 0) by (nonlinear_arith)
        requires
            tm > 0,
    ;
    assert(d * tm / (tm as int) == d) by (nonlinear_arith)
        requires
            tm > 0,
    ;
    assert(0 <= d * t / (tm as int) <= d) by (nonlinear_arith)
        requires
            tm > 0,
            0 <= t <= tm,
            d >= 0,
    ;
}

/// A borrowed image, top-down, without padding.
#[derive(Debug, Clone, Copy)]
pub struct RgbaImg<'a> {
    pub w: u32,
    pub h: u32,
    /// `w × h × 4` bytes.
    pub data: &'a [u8],
}

impl<'a> RgbaImg<'a> {
    /// Wraps a buffer of the right size.
    pub fn new(w: u32, h: u32, data: &'a [u8]) -> (r: Option<RgbaImg<'a>>)
        ensures
            r is Some <==> w > 0 && h > 0 && data@.len() == w * h * 4,
            r matches Some(img) ==> img.w == w && img.h == h && img.data@ == data@,
    {
        assert(w * h <= 0xffff_ffff * 0xffff_ffff) by (nonlinear_arith)
            requires
                w <= 0xffff_ffff,
                h <= 0xffff_ffff,
        ;
        if w == 0 || h == 0 || data.len() as u128 != w as u128 * h as u128 * 4 {
            return None;
        }
        Some(RgbaImg { w, h, data })
    }

    /// The pixel number `n`, in reading order.
    pub open spec fn sample(&self, n: int) -> Color {
        Color {
            r: self.data@[4 * n],
            g: self.data@[4 * n + 1],
            b: self.data@[4 * n + 2],
            a: self.data@[4 * n + 3],
        }
    }
}

/// Errors of [`Canvas`].
#[derive(Debug, PartialEq, Eq)]
pub enum CanvasError {
    /// The buffer does not hold `w × h` pixels, or there are none to hold.
    BadSize { w: u32, h: u32, want: usize, got: usize },
}

/// A canvas on borrowed memory.
pub struct Canvas<'a> {
    pub buf: &'a mut [u8],
    pub w: u32,
    pub h: u32,
}

proof fn lemma_index(w: int, h: int, x: int, y: int)
    requires
        0 <= x < w,
        0 <= y < h,
    ensures
        0 <= y * w,
        0 <= y * w + x < w * h,
        (y * w + x) * 4 + 4 <= w * h * 4,
{
    assert(0 <= y * w) by (nonlinear_arith)
        requires
            0 <= y,
            0 < w,
    ;
    assert(y * w + x < w * h) by (nonlinear_arith)
        requires
            0 <= x < w,
            0 <= y < h,
    ;
}

proof fn lemma_index_injective(w: int, x: int, y: int, i: int, j: int)
    requires
        0 <= x < w,
        0 <= i < w,
        y * w + x == j * w + i,
    ensures
        x == i,
        y == j,
{
    assert(y == j) by (nonlinear_arith)
        requires
            0 <= x < w,
            0 <= i < w,
            y * w + x == j * w + i,
    ;
}

impl<'a> Canvas<'a> {
    /// The buffer holds exactly the pixels.
    pub open spec fn wf(&self) -> bool {
        self.w > 0 && self.h > 0 && self.buf@.len() == self.w * self.h * 4
    }

    /// The point lies on the canvas.
    pub open spec fn inside(&self, x: int, y: int) -> bool {
        0 <= x < self.w && 0 <= y < self.h
    }

    /// Where the pixel starts in the buffer.
    pub open spec fn at(&self, x: int, y: int) -> int {
        (y * self.w + x) * 4
    }

    /// The pixel at a point of the canvas.
    pub open spec fn pixel(&self, x: int, y: int) -> Color {
        Color {
            r: self.buf@[self.at(x, y)],
            g: self.buf@[self.at(x, y) + 1],
            b: self.buf@[self.at(x, y) + 2],
            a: self.buf@[self.at(x, y) + 3],
        }
    }

    /// `self` is `before` with every pixel passed through `f`.
    pub open spec fn repainted(
        &self,
        before: Canvas<'a>,
        f: spec_fn(int, int, Color) -> Color,
    ) -> bool {
        &&& self.wf()
        &&& self.w == before.w
        &&& self.h == before.h
        &&& forall|x: int, y: int|
            self.inside(x, y) ==> #[trigger] self.pixel(x, y) == f(x, y, before.pixel(x, y))
    }

    /// Wraps `buf` as a bitmap of `w × h` pixels.
    pub fn new_rgba(buf: &'a mut [u8], w: u32, h: u32) -> (r: Result<Canvas<'a>, CanvasError>)
        ensures
            r is Ok <==> w > 0 && h > 0 && old(buf)@.len() == w * h * 4,
            r matches Ok(c) ==> c.wf() && c.w == w && c.h == h && c.buf@ == old(buf)@
                && final(buf)@ == final(c.buf)@,
            r is Err ==> final(buf)@ == old(buf)@,
            r matches Err(CanvasError::BadSize { w: ew, h: eh, want, got }) ==> ew == w && eh == h
                && got == old(buf)@.len() && want == (if w * h * 4 > usize::MAX {
                usize::MAX as int
            } else {
                w * h * 4
            }),
    {
        assert(w * h <= 0xffff_ffff * 0xffff_ffff) by (nonlinear_arith)
            requires
                w <= 0xffff_ffff,
                h <= 0xffff_ffff,
        ;
        let got: usize = buf.len();
        let exact: u128 = w as u128 * h as u128 * 4;
        let want: usize = if exact > usize::MAX as u128 {
            usize::MAX
        } else {
            exact as usize
        };
        if w == 0 || h == 0 {
            assert(w * h == 0) by (nonlinear_arith)
                requires
                    w == 0 || h == 0,
            ;
            return Err(CanvasError::BadSize { w, h, want, got });
        }
        if got as u128 != exact {
            return Err(CanvasError::BadSize { w, h, want, got });
        }
        Ok(Canvas { buf, w, h })
    }

    pub fn width(&self) -> (r: u32)
        ensures
            r == self.w,
    {
        self.w
    }

    pub fn height(&self) -> (r: u32)
        ensures
            r == self.h,
    {
        self.h
    }

    fn get_at(&self, x: u32, y: u32) -> (c: Color)
        requires
            self.wf(),
            self.inside(x as int, y as int),
        ensures
            c == self.pixel(x as int, y as int),
    {
        proof {
            lemma_index(self.w as int, self.h as int, x as int, y as int);
        }
        let n: usize = self.buf.len();
        let at: usize = (y as usize * self.w as usize + x as usize) * 4;
        Color { r: self.buf[at], g: self.buf[at + 1], b: self.buf[at + 2], a: self.buf[at + 3] }
    }

    fn put_at(&mut self, x: u32, y: u32, c: Color)
        requires
            old(self).wf(),
            old(self).inside(x as int, y as int),
        ensures
            final(self).repainted(
                *old(self),
                |i: int, j: int, p: Color|
                    if i == x && j == y {
                        c
                    } else {
                        p
                    },
            ),
            final(final(self).buf)@ == final(old(self).buf)@,
    {
        let ghost before = *self;
        proof {
            lemma_index(self.w as int, self.h as int, x as int, y as int);
        }
        let n: usize = self.buf.len();
        let at: usize = (y as usize * self.w as usize + x as usize) * 4;
        self.buf[at] = c.r;
        self.buf[at + 1] = c.g;
        self.buf[at + 2] = c.b;
        self.buf[at + 3] = c.a;
        proof {
            assert forall|i: int, j: int| self.inside(i, j) implies #[trigger] self.pixel(i, j) == (
            if i == x && j == y {
                c
            } else {
                before.pixel(i, j)
            }) by {
                lemma_index(self.w as int, self.h as int, i, j);
                if self.at(i, j) == at {
                    lemma_index_injective(self.w as int, x as int, y as int, i, j);
                }
            }
        }
    }

    /// Passes every pixel of the clipped area `[x0, x1) × [y0, y1)` through `f`.
    pub(crate) fn repaint<F: Fn(u32, u32, Color) -> Color>(
        &mut self,
        xs: (u32, u32),
        ys: (u32, u32),
        f: F,
        Ghost(g): Ghost<spec_fn(int, int, Color) -> Color>,
    )
        requires
            old(self).wf(),
            xs.1 <= old(self).w,
            ys.1 <= old(self).h,
            forall|i: u32, j: u32, p: Color|
                xs.0 <= i < xs.1 && ys.0 <= j < ys.1 ==> #[trigger] call_requires(f, (i, j, p)),
            forall|i: u32, j: u32, p: Color, c: Color| #[trigger]
                call_ensures(f, (i, j, p), c) ==> c == g(i as int, j as int, p),
        ensures
            final(self).repainted(
                *old(self),
                |i: int, j: int, p: Color|
                    if xs.0 <= i < xs.1 && ys.0 <= j < ys.1 {
                        g(i, j, p)
                    } else {
                        p
                    },
            ),
            final(final(self).buf)@ == final(old(self).buf)@,
    {
        let ghost before = *self;
        let (x0, x1) = xs;
        let (y0, y1) = ys;
        let mut y: u32 = y0;
        while y < y1
            invariant
                y0 <= y,
                y <= y1 || y == y0,
                xs == (x0, x1),
                ys == (y0, y1),
                x1 <= self.w,
                y1 <= self.h,
                final(self.buf)@ == final(before.buf)@,
                forall|i: u32, j: u32, p: Color|
                    x0 <= i < x1 && y0 <= j < y1 ==> #[trigger] call_requires(f, (i, j, p)),
                forall|i: u32, j: u32, p: Color, c: Color| #[trigger]
                    call_ensures(f, (i, j, p), c) ==> c == g(i as int, j as int, p),
                self.repainted(
                    before,
                    |i: int, j: int, p: Color|
                        if x0 <= i < x1 && y0 <= j < y {
                            g(i, j, p)
                        } else {
                            p
                        },
                ),
            decreases y1 - y,
        {
            let mut x: u32 = x0;
            while x < x1
                invariant
                    x0 <= x,
                    x <= x1 || x == x0,
                    y0 <= y < y1,
                    x1 <= self.w,
                    y1 <= self.h,
                    final(self.buf)@ == final(before.buf)@,
                    forall|i: u32, j: u32, p: Color|
                        x0 <= i < x1 && y0 <= j < y1 ==> #[trigger] call_requires(f, (i, j, p)),
                    forall|i: u32, j: u32, p: Color, c: Color| #[trigger]
                        call_ensures(f, (i, j, p), c) ==> c == g(i as int, j as int, p),
                    self.repainted(
                        before,
                        |i: int, j: int, p: Color|
                            if x0 <= i < x1 && (y0 <= j < y || (j == y && i < x)) {
                                g(i, j, p)
                            } else {
                                p
                            },
                    ),
                decreases x1 - x,
            {
                let p: Color = self.get_at(x, y);
                let c: Color = f(x, y, p);
                self.put_at(x, y, c);
                x += 1;
            }
            y += 1;
        }
    }
}

/// Laying a colour over another keeps every channel within bounds.
fn blend(c: Color, under: Color) -> (r: Color)
    ensures
        r == c.over(under),
{
    let a: u32 = c.a as u32;
    let inv: u32 = 255 - a;
    Color {
        r: blend_channel(a, inv, c.r, under.r),
        g: blend_channel(a, inv, c.g, under.g),
        b: blend_channel(a, inv, c.b, under.b),
        a: 255,
    }
}

fn blend_channel(a: u32, inv: u32, c: u8, d: u8) -> (r: u8)
    requires
        a <= 255,
        inv == 255 - a,
    ensures
        r == ((a * c + inv * d) / 255) as u8,
        (a * c + inv * d) / 255 <= 255,
{
    assert(a * c + inv * d <= 255 * 255 && 0 <= a * c && 0 <= inv * d) by (nonlinear_arith)
        requires
            a <= 255,
            inv == 255 - a,
            c <= 255,
            d <= 255,
            0 <= c,
            0 <= d,
    ;
    ((a * c as u32 + inv * d as u32) / 255) as u8
}

pub(crate) fn filled_color(c: Color, under: Color) -> (r: Color)
    ensures
        r == c.filled(under),
{
    if c.a == 255 {
        c
    } else {
        blend(c, under)
    }
}

pub(crate) fn set_color(c: Color, under: Color) -> (r: Color)
    ensures
        r == c.set_on(under),
{
    if c.a == 255 {
        c
    } else if c.a > 0 {
        blend(c, under)
    } else {
        under
    }
}

/// The point of `[0, limit]` nearest to `v`.
pub open spec fn clamped(v: int, limit: int) -> int {
    if v <= 0 {
        0
    } else if v >= limit {
        limit
    } else {
        v
    }
}

/// The part of `[lo, hi)` that lies in `[0, limit)`.
pub(crate) fn clip(lo: i64, hi: i64, limit: u32) -> (r: (u32, u32))
    ensures
        r.0 == clamped(lo as int, limit as int),
        r.1 == clamped(hi as int, limit as int),
{
    let a: u32 = if lo <= 0 {
        0
    } else if lo >= limit as i64 {
        limit
    } else {
        lo as u32
    };
    let b: u32 = if hi <= 0 {
        0
    } else if hi >= limit as i64 {
        limit
    } else {
        hi as u32
    };
    (a, b)
}

/// The point lies in the rectangle with corner `(x, y)` and size `w × h`.
pub open spec fn in_rect(i: int, j: int, x: int, y: int, w: int, h: int) -> bool {
    x <= i < x + w && y <= j < y + h
}

/// What filling a rectangle makes of a pixel.
pub open spec fn rect_fill(
    x: int,
    y: int,
    w: int,
    h: int,
    c: Color,
) -> spec_fn(int, int, Color) -> Color {
    |i: int, j: int, p: Color|
        if in_rect(i, j, x, y, w, h) {
            c.filled(p)
        } else {
            p
        }
}

impl<'a> Canvas<'a> {
    /// Fills the whole canvas. The alpha of the colour is ignored: there is
    /// nothing under a background.
    pub fn fill(&mut self, color: Color)
        requires
            old(self).wf(),
        ensures
            final(self).repainted(*old(self), |i: int, j: int, p: Color| color.opaque()),
            final(final(self).buf)@ == final(old(self).buf)@,
    {
        let px: Color = Color { r: color.r, g: color.g, b: color.b, a: 255 };
        let f = |i: u32, j: u32, p: Color| -> (c: Color)
            ensures
                c == px,
            { px };
        let w: u32 = self.w;
        let h: u32 = self.h;
        self.repaint((0, w), (0, h), f, Ghost(|i: int, j: int, p: Color| px));
    }

    /// Fills the canvas with a vertical gradient.
    pub fn fill_vgrad(&mut self, top: Color, bottom: Color)
        requires
            old(self).wf(),
        ensures
            final(self).repainted(
                *old(self),
                |i: int, j: int, p: Color|
                    top.mix(
                        bottom,
                        j as u32,
                        if old(self).h > 1 {
                            (old(self).h - 1) as u32
                        } else {
                            1
                        },
                    ).opaque(),
            ),
            final(final(self).buf)@ == final(old(self).buf)@,
    {
        let w: u32 = self.w;
        let h: u32 = self.h;
        let last: u32 = if h > 1 {
            h - 1
        } else {
            1
        };
        let f = |i: u32, j: u32, p: Color| -> (c: Color)
            ensures
                c == top.mix(bottom, j, last).opaque(),
            {
                let m: Color = top.lerp(bottom, j, last);
                Color { r: m.r, g: m.g, b: m.b, a: 255 }
            };
        self.repaint(
            (0, w),
            (0, h),
            f,
            Ghost(|i: int, j: int, p: Color| top.mix(bottom, j as u32, last).opaque()),
        );
    }

    pub(crate) fn fill_area(&mut self, x: i64, y: i64, w: i64, h: i64, color: Color)
        requires
            old(self).wf(),
            -0x1_0000_0000_0000 < x < 0x1_0000_0000_0000,
            -0x1_0000_0000_0000 < y < 0x1_0000_0000_0000,
            -0x1_0000_0000_0000 < w < 0x1_0000_0000_0000,
            -0x1_0000_0000_0000 < h < 0x1_0000_0000_0000,
        ensures
            final(self).repainted(
                *old(self),
                rect_fill(x as int, y as int, w as int, h as int, color),
            ),
            final(final(self).buf)@ == final(old(self).buf)@,
    {
        let xs: (u32, u32) = clip(x, x + w, self.w);
        let ys: (u32, u32) = clip(y, y + h, self.h);
        let f = |i: u32, j: u32, p: Color| -> (c: Color)
            ensures
                c == color.filled(p),
            { filled_color(color, p) };
        self.repaint(xs, ys, f, Ghost(|i: int, j: int, p: Color| color.filled(p)));
    }

    /// Solid rectangle. A translucent colour is blended.
    pub fn fill_rect(&mut self, x: i32, y: i32, w: i32, h: i32, color: Color)
        requires
            old(self).wf(),
        ensures
            final(self).repainted(
                *old(self),
                rect_fill(x as int, y as int, w as int, h as int, color),
            ),
            final(final(self).buf)@ == final(old(self).buf)@,
    {
        self.fill_area(x as i64, y as i64, w as i64, h as i64, color);
    }

    /// One pixel, if it lies on the canvas.
    pub fn set_pixel(&mut self, x: i32, y: i32, color: Color)
        requires
            old(self).wf(),
        ensures
            final(self).repainted(
                *old(self),
                |i: int, j: int, p: Color|
                    if i == x && j == y {
                        color.set_on(p)
                    } else {
                        p
                    },
            ),
            final(final(self).buf)@ == final(old(self).buf)@,
    {
        if x < 0 || y < 0 || x as i64 >= self.w as i64 || y as i64 >= self.h as i64 {
            return;
        }
        let p: Color = self.get_at(x as u32, y as u32);
        self.put_at(x as u32, y as u32, set_color(color, p));
    }

    /// Outline of a rectangle, `thick` pixels inwards: top, bottom, left and
    /// right edge, one after the other.
    pub fn draw_rect_outline(
        &mut self,
        x: i32,
        y: i32,
        w: i32,
        h: i32,
        thick: i32,
        color: Color,
    )
        requires
            old(self).wf(),
        ensures
            final(self).repainted(
                *old(self),
                outline_fill(x as int, y as int, w as int, h as int, thick as int, color),
            ),
            final(final(self).buf)@ == final(old(self).buf)@,
    {
        if w <= 0 || h <= 0 || thick <= 0 {
            return;
        }
        let half_w: i32 = w / 2;
        let half_h: i32 = h / 2;
        let a: i32 = if thick < half_w {
            thick
        } else {
            half_w
        };
        let b: i32 = if a < 1 {
            1
        } else {
            a
        };
        let c: i32 = if b < half_h {
            b
        } else {
            half_h
        };
        let t: i64 = if c < 1 {
            1
        } else {
            c as i64
        };
        let (x, y, w, h) = (x as i64, y as i64, w as i64, h as i64);
        self.fill_area(x, y, w, t, color);
        self.fill_area(x, y + h - t, w, t, color);
        self.fill_area(x, y + t, t, h - 2 * t, color);
        self.fill_area(x + w - t, y + t, t, h - 2 * t, color);
    }

    /// Solid rectangle with rounded corners. The radius is at most half the
    /// shorter side.
    pub fn fill_round_rect(&mut self, x: i32, y: i32, w: i32, h: i32, radius: i32, color: Color)
        requires
            old(self).wf(),
        ensures
            final(self).repainted(
                *old(self),
                round_fill(x as int, y as int, w as int, h as int, radius as int, color),
            ),
            final(final(self).buf)@ == final(old(self).buf)@,
    {
        if w <= 0 || h <= 0 {
            return;
        }
        let short: i32 = if w < h {
            w
        } else {
            h
        };
        let half: i32 = short / 2;
        let r: i64 = if radius < 0 {
            0
        } else if radius > half {
            half as i64
        } else {
            radius as i64
        };
        if r == 0 {
            self.fill_rect(x, y, w, h, color);
            return;
        }
        let (x, y, w, h) = (x as i64, y as i64, w as i64, h as i64);
        let xs: (u32, u32) = clip(x, x + w, self.w);
        let ys: (u32, u32) = clip(y, y + h, self.h);
        let f = |i: u32, j: u32, p: Color| -> (c: Color)
            requires
                x <= i < x + w,
                y <= j < y + h,
            ensures
                c == (if corner_cut(
                    corner_gap(i as int, x as int, w as int, r as int),
                    corner_gap(j as int, y as int, h as int, r as int),
                    r as int,
                ) {
                    p
                } else {
                    color.set_on(p)
                }),
            {
                let dx: i64 = gap(i as i64, x, w, r);
                let dy: i64 = gap(j as i64, y, h, r);
                proof {
                    lemma_square_bound(dx as int, r as int);
                    lemma_square_bound(dy as int, r as int);
                    lemma_square_bound(r as int, r as int);
                }
                if dx > 0 && dy > 0 && dx * dx + dy * dy > r * r {
                    p
                } else {
                    set_color(color, p)
                }
            };
        self.repaint(
            xs,
            ys,
            f,
            Ghost(
                |i: int, j: int, p: Color|
                    if corner_cut(
                        corner_gap(i, x as int, w as int, r as int),
                        corner_gap(j, y as int, h as int, r as int),
                        r as int,
                    ) {
                        p
                    } else {
                        color.set_on(p)
                    },
            ),
        );
    }

    /// Solid disc.
    pub fn fill_disc(&mut self, cx: i32, cy: i32, radius: i32, color: Color)
        requires
            old(self).wf(),
        ensures
            final(self).repainted(
                *old(self),
                |i: int, j: int, p: Color|
                    if radius > 0 && in_disc(i, j, cx as int, cy as int, radius as int) {
                        color.set_on(p)
                    } else {
                        p
                    },
            ),
            final(final(self).buf)@ == final(old(self).buf)@,
    {
        if radius <= 0 {
            return;
        }
        let (cx, cy, r) = (cx as i64, cy as i64, radius as i64);
        let xs: (u32, u32) = clip(cx - r, cx + r + 1, self.w);
        let ys: (u32, u32) = clip(cy - r, cy + r + 1, self.h);
        let f = |i: u32, j: u32, p: Color| -> (c: Color)
            requires
                cx - r <= i <= cx + r,
                cy - r <= j <= cy + r,
            ensures
                c == (if in_disc(i as int, j as int, cx as int, cy as int, r as int) {
                    color.set_on(p)
                } else {
                    p
                }),
            {
                let dx: i64 = i as i64 - cx;
                let dy: i64 = j as i64 - cy;
                proof {
                    lemma_square_bound(dx as int, 0x7fff_ffff);
                    lemma_square_bound(dy as int, 0x7fff_ffff);
                    lemma_square_bound(r as int, 0x7fff_ffff);
                }
                if dx * dx + dy * dy <= r * r {
                    set_color(color, p)
                } else {
                    p
                }
            };
        self.repaint(
            xs,
            ys,
            f,
            Ghost(
                |i: int, j: int, p: Color|
                    if in_disc(i, j, cx as int, cy as int, r as int) {
                        color.set_on(p)
                    } else {
                        p
                    },
            ),
        );
        proof {
            assert forall|i: int, j: int|
                in_disc(i, j, cx as int, cy as int, r as int) implies cx - r <= i <= cx + r && cy
                - r <= j <= cy + r by {
                lemma_disc_bound(i - cx, j - cy, r as int);
            }
        }
    }

    /// Draws an image with its alpha. An image whose data is too short is
    /// drawn as far as its data goes.
    pub fn blit(&mut self, x: i32, y: i32, img: RgbaImg)
        requires
            old(self).wf(),
        ensures
            final(self).repainted(
                *old(self),
                |i: int, j: int, p: Color|
                    if in_rect(i, j, x as int, y as int, img.w as int, img.h as int) && (j - y)
                        * img.w + (i - x) < img.data@.len() / 4 {
                        img.sample((j - y) * img.w + (i - x)).set_on(p)
                    } else {
                        p
                    },
            ),
            final(final(self).buf)@ == final(old(self).buf)@,
    {
        let (x, y) = (x as i64, y as i64);
        let xs: (u32, u32) = clip(x, x + img.w as i64, self.w);
        let ys: (u32, u32) = clip(y, y + img.h as i64, self.h);
        let f = |i: u32, j: u32, p: Color| -> (c: Color)
            requires
                x <= i < x + img.w,
                y <= j < y + img.h,
            ensures
                c == (if (j - y) * img.w + (i - x) < img.data@.len() / 4 {
                    img.sample((j - y) * img.w + (i - x)).set_on(p)
                } else {
                    p
                }),
            {
                let col: u64 = (i as i64 - x) as u64;
                let row: u64 = (j as i64 - y) as u64;
                proof {
                    lemma_index(img.w as int, img.h as int, col as int, row as int);
                    lemma_area_bound(img.w as int, img.h as int);
                }
                sample_on(img, row * img.w as u64 + col, p)
            };
        self.repaint(
            xs,
            ys,
            f,
            Ghost(
                |i: int, j: int, p: Color|
                    if (j - y) * img.w + (i - x) < img.data@.len() / 4 {
                        img.sample((j - y) * img.w + (i - x)).set_on(p)
                    } else {
                        p
                    },
            ),
        );
    }

    /// Draws an image stretched to `dw × dh`, without interpolation. Drawing
    /// stops where the data of the image ends.
    pub fn blit_scaled(&mut self, x: i32, y: i32, dw: i32, dh: i32, img: RgbaImg)
        requires
            old(self).wf(),
        ensures
            final(self).repainted(
                *old(self),
                |i: int, j: int, p: Color|
                    if in_rect(i, j, x as int, y as int, dw as int, dh as int) && img.w > 0
                        && img.h > 0 && scaled_reached(img, dw as int, dh as int, i - x, j - y) {
                        img.sample(
                            scaled_index(img, dw as int, dh as int, i - x, j - y),
                        ).set_on(p)
                    } else {
                        p
                    },
            ),
            final(final(self).buf)@ == final(old(self).buf)@,
    {
        if dw <= 0 || dh <= 0 || img.w == 0 || img.h == 0 {
            return;
        }
        let (x, y) = (x as i64, y as i64);
        let xs: (u32, u32) = clip(x, x + dw as i64, self.w);
        let ys: (u32, u32) = clip(y, y + dh as i64, self.h);
        let f = |i: u32, j: u32, p: Color| -> (c: Color)
            requires
                x <= i < x + dw,
                y <= j < y + dh,
            ensures
                c == (if scaled_reached(img, dw as int, dh as int, i - x, j - y) {
                    img.sample(scaled_index(img, dw as int, dh as int, i - x, j - y)).set_on(p)
                } else {
                    p
                }),
            {
                let dx: u32 = (i as i64 - x) as u32;
                let dy: u32 = (j as i64 - y) as u32;
                if dy > 0 && scaled_at(img, dw as u32, dh as u32, dw as u32 - 1, dy - 1)
                    >= (img.data.len() / 4) as u64 {
                    p
                } else {
                    sample_on(img, scaled_at(img, dw as u32, dh as u32, dx, dy), p)
                }
            };
        self.repaint(
            xs,
            ys,
            f,
            Ghost(
                |i: int, j: int, p: Color|
                    if scaled_reached(img, dw as int, dh as int, i - x, j - y) {
                        img.sample(scaled_index(img, dw as int, dh as int, i - x, j - y)).set_on(
                            p,
                        )
                    } else {
                        p
                    },
            ),
        );
    }
}

/// Thickness of an outline: at least 1, and at most half of either side.
pub open spec fn outline_thickness(w: int, h: int, thick: int) -> int {
    let a = if thick < w / 2 {
        thick
    } else {
        w / 2
    };
    let b = if a < 1 {
        1
    } else {
        a
    };
    let c = if b < h / 2 {
        b
    } else {
        h / 2
    };
    if c < 1 {
        1
    } else {
        c
    }
}

/// What drawing an outline makes of a pixel: the four edges in turn.
pub open spec fn outline_fill(
    x: int,
    y: int,
    w: int,
    h: int,
    thick: int,
    c: Color,
) -> spec_fn(int, int, Color) -> Color {
    |i: int, j: int, p: Color|
        if w <= 0 || h <= 0 || thick <= 0 {
            p
        } else {
            let t = outline_thickness(w, h, thick);
            let top = rect_fill(x, y, w, t, c)(i, j, p);
            let bottom = rect_fill(x, y + h - t, w, t, c)(i, j, top);
            let left = rect_fill(x, y + t, t, h - 2 * t, c)(i, j, bottom);
            rect_fill(x + w - t, y + t, t, h - 2 * t, c)(i, j, left)
        }
}

/// How far `i` lies beyond the straight part of a side from `x` with length
/// `w` and corners of radius `r`.
pub open spec fn corner_gap(i: int, x: int, w: int, r: int) -> int {
    if i < x + r {
        x + r - i
    } else if i > x + w - 1 - r {
        i - (x + w - 1 - r)
    } else {
        0
    }
}

/// The point lies in a corner, outside the disc that rounds it.
pub open spec fn corner_cut(dx: int, dy: int, r: int) -> bool {
    dx > 0 && dy > 0 && dx * dx + dy * dy > r * r
}

/// The radius that is used: between 0 and half the shorter side.
pub open spec fn round_radius(w: int, h: int, radius: int) -> int {
    let half = (if w < h {
        w
    } else {
        h
    }) / 2;
    if radius < 0 {
        0
    } else if radius > half {
        half
    } else {
        radius
    }
}

/// What filling a rounded rectangle makes of a pixel.
pub open spec fn round_fill(
    x: int,
    y: int,
    w: int,
    h: int,
    radius: int,
    c: Color,
) -> spec_fn(int, int, Color) -> Color {
    |i: int, j: int, p: Color|
        {
            let r = round_radius(w, h, radius);
            if w <= 0 || h <= 0 || !in_rect(i, j, x, y, w, h) {
                p
            } else if r == 0 {
                c.filled(p)
            } else if corner_cut(corner_gap(i, x, w, r), corner_gap(j, y, h, r), r) {
                p
            } else {
                c.set_on(p)
            }
        }
}

/// The point lies in the disc.
pub open spec fn in_disc(i: int, j: int, cx: int, cy: int, r: int) -> bool {
    (i - cx) * (i - cx) + (j - cy) * (j - cy) <= r * r
}

/// Which pixel of the image a stretched drawing shows at `(dx, dy)`.
pub open spec fn scaled_index(img: RgbaImg, dw: int, dh: int, dx: int, dy: int) -> int {
    (dy * img.h / dh) * img.w + dx * img.w / dw
}

/// The data of the image reaches `(dx, dy)` and every point drawn before it.
pub open spec fn scaled_reached(img: RgbaImg, dw: int, dh: int, dx: int, dy: int) -> bool {
    &&& scaled_index(img, dw, dh, dx, dy) < img.data@.len() / 4
    &&& dy > 0 ==> scaled_index(img, dw, dh, dw - 1, dy - 1) < img.data@.len() / 4
}

fn gap(i: i64, x: i64, w: i64, r: i64) -> (d: i64)
    requires
        -0x8000_0000 <= x <= 0x7fff_ffff,
        0 < w <= 0x7fff_ffff,
        0 < r <= w / 2,
        x <= i < x + w,
    ensures
        d == corner_gap(i as int, x as int, w as int, r as int),
        0 <= d <= r,
{
    if i < x + r {
        x + r - i
    } else if i > x + w - 1 - r {
        i - (x + w - 1 - r)
    } else {
        0
    }
}

proof fn lemma_square_bound(d: int, m: int)
    requires
        -m <= d <= m,
        m <= 0x7fff_ffff,
    ensures
        0 <= d * d <= m * m,
        m * m <= 0x7fff_ffff * 0x7fff_ffff,
{
    assert(0 <= d * d <= m * m) by (nonlinear_arith)
        requires
            -m <= d <= m,
    ;
    assert(m * m <= 0x7fff_ffff * 0x7fff_ffff) by (nonlinear_arith)
        requires
            0 <= m <= 0x7fff_ffff,
    ;
}

proof fn lemma_disc_bound(dx: int, dy: int, r: int)
    requires
        dx * dx + dy * dy <= r * r,
        r > 0,
    ensures
        -r <= dx <= r,
        -r <= dy <= r,
{
    assert(-r <= dx <= r) by (nonlinear_arith)
        requires
            dx * dx + dy * dy <= r * r,
            r > 0,
    ;
    assert(-r <= dy <= r) by (nonlinear_arith)
        requires
            dx * dx + dy * dy <= r * r,
            r > 0,
    ;
}

proof fn lemma_area_bound(w: int, h: int)
    requires
        0 <= w <= 0xffff_ffff,
        0 <= h <= 0xffff_ffff,
    ensures
        w * h <= 0xffff_ffff * 0xffff_ffff,
{
    assert(w * h <= 0xffff_ffff * 0xffff_ffff) by (nonlinear_arith)
        requires
            0 <= w <= 0xffff_ffff,
            0 <= h <= 0xffff_ffff,
    ;
}

/// Lays pixel `n` of the image over `p`, if the image has it.
fn sample_on(img: RgbaImg, n: u64, p: Color) -> (c: Color)
    ensures
        c == (if n < img.data@.len() / 4 {
            img.sample(n as int).set_on(p)
        } else {
            p
        }),
{
    if n < (img.data.len() / 4) as u64 {
        let at: usize = n as usize * 4;
        let s: Color = Color {
            r: img.data[at],
            g: img.data[at + 1],
            b: img.data[at + 2],
            a: img.data[at + 3],
        };
        set_color(s, p)
    } else {
        p
    }
}

proof fn lemma_scaled(n: int, d: int, k: int)
    requires
        0 <= k < d,
        0 < n,
    ensures
        0 <= k * n,
        k * n <= d * n,
        0 <= k * n / d < n,
{
    assert(0 <= k * n <= d * n) by (nonlinear_arith)
        requires
            0 <= k < d,
            0 < n,
    ;
    assert(0 <= k * n / d < n) by (nonlinear_arith)
        requires
            0 <= k < d,
            0 < n,
    ;
}

fn scaled_at(img: RgbaImg, dw: u32, dh: u32, dx: u32, dy: u32) -> (n: u64)
    requires
        dx < dw <= 0x7fff_ffff,
        dy < dh <= 0x7fff_ffff,
        img.w > 0,
        img.h > 0,
    ensures
        n == scaled_index(img, dw as int, dh as int, dx as int, dy as int),
        n < img.w * img.h,
{
    proof {
        lemma_scaled(img.h as int, dh as int, dy as int);
        lemma_scaled(img.w as int, dw as int, dx as int);
        lemma_area_bound(dh as int, img.h as int);
        lemma_area_bound(dw as int, img.w as int);
        lemma_area_bound(img.w as int, img.h as int);
        lemma_index(
            img.w as int,
            img.h as int,
            (dx * img.w) / (dw as int),
            (dy * img.h) / (dh as int),
        );
    }
    let sy: u64 = dy as u64 * img.h as u64 / dh as u64;
    let sx: u64 = dx as u64 * img.w as u64 / dw as u64;
    sy * img.w as u64 + sx
}

/// A stretched drawing is complete when the image has all its data, and stops
/// at the first point whose pixel is missing otherwise: a point is drawn
/// exactly if no point before it in reading order lacks its pixel.
pub proof fn law_stretching_stops_at_first_gap(
    img: RgbaImg,
    dw: int,
    dh: int,
    dx: int,
    dy: int,
)
    requires
        img.w > 0,
        img.h > 0,
        0 <= dx < dw,
        0 <= dy < dh,
    ensures
        scaled_reached(img, dw, dh, dx, dy) <==> forall|a: int, b: int|
            0 <= a < dw && 0 <= b && (b < dy || (b == dy && a <= dx)) ==> #[trigger] scaled_index(
                img,
                dw,
                dh,
                a,
                b,
            ) < img.data@.len() / 4,
        img.data@.len() >= img.w * img.h * 4 ==> scaled_reached(img, dw, dh, dx, dy),
{
    let n = (img.data@.len() / 4) as int;
    if scaled_reached(img, dw, dh, dx, dy) {
        assert forall|a: int, b: int|
            0 <= a < dw && 0 <= b && (b < dy || (b == dy && a <= dx)) implies #[trigger] scaled_index(
            img,
            dw,
            dh,
            a,
            b,
        ) < n by {
            if b == dy {
                lemma_scaled_monotone(img, dw, dh, a, b, dx, dy);
            } else {
                lemma_scaled_monotone(img, dw, dh, a, b, dw - 1, dy - 1);
            }
        }
    }
    if img.data@.len() >= img.w * img.h * 4 {
        lemma_scaled(img.h as int, dh, dy);
        lemma_scaled(img.w as int, dw, dx);
        lemma_index(img.w as int, img.h as int, (dx * img.w) / dw, (dy * img.h) / dh);
        if dy > 0 {
            lemma_scaled(img.h as int, dh, dy - 1);
            lemma_scaled(img.w as int, dw, dw - 1);
            lemma_index(
                img.w as int,
                img.h as int,
                ((dw - 1) * img.w) / dw,
                ((dy - 1) * img.h) / dh,
            );
        }
    }
}

proof fn lemma_scaled_monotone(img: RgbaImg, dw: int, dh: int, a: int, b: int, dx: int, dy: int)
    requires
        img.w > 0,
        0 <= a <= dx,
        0 <= b <= dy,
        0 < dw,
        0 < dh,
    ensures
        scaled_index(img, dw, dh, a, b) <= scaled_index(img, dw, dh, dx, dy),
{
    let w = img.w as int;
    let h = img.h as int;
    assert(a * w / dw <= dx * w / dw) by (nonlinear_arith)
        requires
            0 <= a <= dx,
            0 < w,
            0 < dw,
    ;
    assert(b * h / dh <= dy * h / dh) by (nonlinear_arith)
        requires
            0 <= b <= dy,
            0 <= h,
            0 < dh,
    ;
    assert((b * h / dh) * w <= (dy * h / dh) * w) by (nonlinear_arith)
        requires
            b * h / dh <= dy * h / dh,
            0 < w,
    ;
}

} // verus!
