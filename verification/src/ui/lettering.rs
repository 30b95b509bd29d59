//! Drawing text on a canvas.
use vstd::prelude::*;
use vstd::std_specs::iter::IteratorSpec;

use crate::ui::canvas::{clip, filled_color, set_color, Canvas, Color};
use crate::ui::font::{has_ink, ink, pattern, pattern_of};

verus! {

/// The pattern that stands for a character: its own, or that of `?` where the
/// font does not have it.
pub open spec fn shown_pattern(ch: char) -> u64 {
    match pattern_of(ch) {
        Some(p) => p,
        None => pattern_of('?')->0,
    }
}

/// Pixel `(u, v)` of a line of text carries ink, at the size of the font.
pub open spec fn text_ink(text: Seq<char>, u: int, v: int) -> bool {
    ink(shown_pattern(text[u / 12]), u % 12, v)
}

/// What drawing a text makes of a pixel: every pixel of the font becomes a
/// square with a side of `scale`.
pub open spec fn text_fill(
    x: int,
    y: int,
    text: Seq<char>,
    scale: int,
    c: Color,
) -> spec_fn(int, int, Color) -> Color {
    |i: int, j: int, p: Color|
        if scale > 0 && x <= i < x + text.len() * 12 * scale && y <= j < y + 16 * scale && text_ink(
            text,
            (i - x) / scale,
            (j - y) / scale,
        ) {
            if scale == 1 {
                c.set_on(p)
            } else {
                c.filled(p)
            }
        } else {
            p
        }
}

fn pattern_shown(ch: char) -> (p: u64)
    ensures
        p == shown_pattern(ch),
{
    match pattern(ch) {
        Some(p) => p,
        None => match pattern('?') {
            Some(p) => p,
            None => 0,
        },
    }
}

proof fn lemma_cell(d: int, scale: int, n: int)
    requires
        0 < scale,
        0 <= d < n * scale,
    ensures
        0 <= d / scale < n,
{
    assert(0 <= d / scale < n) by (nonlinear_arith)
        requires
            0 < scale,
            0 <= d < n * scale,
    ;
}

proof fn lemma_later_cell(k: int, d: int, scale: int)
    requires
        0 < scale,
        0 <= d < 12 * scale,
    ensures
        (k * 12 * scale + d) / scale == k * 12 + d / scale,
        (k * 12 + d / scale) / 12 == k,
        (k * 12 + d / scale) % 12 == d / scale,
        0 <= d / scale < 12,
{
    lemma_cell(d, scale, 12);
    vstd::arithmetic::div_mod::lemma_hoist_over_denominator(d, k * 12, scale as nat);
}

impl<'a> Canvas<'a> {
    /// One character, `scale > 0`, with its cell at `(x, y)`.
    fn draw_cell(&mut self, x: i64, y: i64, pattern: u64, scale: u32, color: Color)
        requires
            old(self).wf(),
            scale > 0,
            -0x8000_0000 <= x <= 0x2_0000_0000,
            -0x8000_0000 <= y <= 0x1_0000_0000,
        ensures
            final(self).repainted(
                *old(self),
                |i: int, j: int, p: Color|
                    if x <= i < x + 12 * scale && y <= j < y + 16 * scale && ink(
                        pattern,
                        (i - x) / (scale as int),
                        (j - y) / (scale as int),
                    ) {
                        if scale == 1 {
                            color.set_on(p)
                        } else {
                            color.filled(p)
                        }
                    } else {
                        p
                    },
            ),
            final(final(self).buf)@ == final(old(self).buf)@,
    {
        let s: i64 = scale as i64;
        let xs: (u32, u32) = clip(x, x + 12 * s, self.w);
        let ys: (u32, u32) = clip(y, y + 16 * s, self.h);
        let f = |i: u32, j: u32, p: Color| -> (c: Color)
            requires
                x <= i < x + 12 * s,
                y <= j < y + 16 * s,
            ensures
                c == (if ink(pattern, (i - x) / (s as int), (j - y) / (s as int)) {
                    if scale == 1 {
                        color.set_on(p)
                    } else {
                        color.filled(p)
                    }
                } else {
                    p
                }),
            {
                proof {
                    lemma_cell(i - x, s as int, 12);
                    lemma_cell(j - y, s as int, 16);
                }
                let u: u64 = (i as i64 - x) as u64 / s as u64;
                let v: u64 = (j as i64 - y) as u64 / s as u64;
                if has_ink(pattern, u as u32, v as u32) {
                    if scale == 1 {
                        set_color(color, p)
                    } else {
                        filled_color(color, p)
                    }
                } else {
                    p
                }
            };
        self.repaint(
            xs,
            ys,
            f,
            Ghost(
                |i: int, j: int, p: Color|
                    if ink(pattern, (i - x) / (s as int), (j - y) / (s as int)) {
                        if scale == 1 {
                            color.set_on(p)
                        } else {
                            color.filled(p)
                        }
                    } else {
                        p
                    },
            ),
        );
    }

    /// Draws a text with its top left corner at `(x, y)`, and gives its width.
    /// At scale 1 a character takes 12 × 16 pixels; `?` stands for the
    /// characters that the font does not have.
    pub fn draw_text(&mut self, x: i32, y: i32, text: &str, scale: u32, color: Color) -> (r: u32)
        requires
            old(self).wf(),
            text@.len() * 12 * scale <= u32::MAX,
        ensures
            final(self).repainted(
                *old(self),
                text_fill(x as int, y as int, text@, scale as int, color),
            ),
            final(final(self).buf)@ == final(old(self).buf)@,
            r == text@.len() * 12 * scale,
    {
        self.draw_text_at(x as i64, y as i64, text, scale, color)
    }

    /// Draws a text at coordinates that may lie beyond 32 bits.
    pub(crate) fn draw_text_at(
        &mut self,
        x: i64,
        y: i64,
        text: &str,
        scale: u32,
        color: Color,
    ) -> (r: u32)
        requires
            old(self).wf(),
            -0x8000_0000 <= x <= 0x1_0000_0000,
            -0x8000_0000 <= y <= 0x1_0000_0000,
            text@.len() * 12 * scale <= u32::MAX,
        ensures
            final(self).repainted(
                *old(self),
                text_fill(x as int, y as int, text@, scale as int, color),
            ),
            final(final(self).buf)@ == final(old(self).buf)@,
            r == text@.len() * 12 * scale,
    {
        let ghost before = *self;
        if scale == 0 {
            assert(text@.len() * 12 * scale == 0) by (nonlinear_arith)
                requires
                    scale == 0,
            ;
            return 0;
        }
        let mut width: u32 = 0;
        for ch in it: text.chars()
            invariant
                it.seq() == text@,
                text@.len() * 12 * scale <= u32::MAX,
                scale > 0,
                -0x8000_0000 <= x <= 0x1_0000_0000,
                -0x8000_0000 <= y <= 0x1_0000_0000,
                width == it.index() * 12 * scale,
                final(self.buf)@ == final(before.buf)@,
                self.repainted(
                    before,
                    text_fill(x as int, y as int, text@.take(it.index() as int), scale as int, color),
                ),
        {
            let ghost k: int = it.index() as int;
            let ghost mid = *self;
            assert(k * 12 * scale + 12 * scale <= text@.len() * 12 * scale) by (nonlinear_arith)
                requires
                    0 <= k < text@.len(),
                    scale > 0,
            ;
            assert((k + 1) * 12 * scale == k * 12 * scale + 12 * scale) by (nonlinear_arith);
            let pattern: u64 = pattern_shown(ch);
            self.draw_cell(x + width as i64, y, pattern, scale, color);
            proof {
                let s = scale as int;
                let shown = text_fill(x as int, y as int, text@.take(k), s, color);
                let next = text_fill(x as int, y as int, text@.take(k + 1), s, color);
                assert forall|i: int, j: int| self.inside(i, j) implies #[trigger] self.pixel(i, j)
                    == next(i, j, before.pixel(i, j)) by {
                    assert(mid.pixel(i, j) == shown(i, j, before.pixel(i, j)));
                    let d = i - x - width;
                    if 0 <= d < 12 * s {
                        lemma_later_cell(k, d, s);
                    } else if 0 <= i - x < width {
                        lemma_cell(i - x, s, k * 12);
                    }
                }
            }
            width = width + 12 * scale;
        }
        assert(text@.take(text@.len() as int) =~= text@);
        width
    }
}

} // verus!
