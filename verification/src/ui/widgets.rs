//! Buttons.
use vstd::prelude::*;

use crate::ui::canvas::{in_rect, rect_fill, round_fill, Canvas, Color};
use crate::ui::lettering::text_fill;

verus! {

/// A rectangular button with a label. Whether it is pressed is the
/// application's business.
#[derive(Debug, Clone, Copy)]
pub struct Button {
    /// Top left corner.
    pub x: i32,
    pub y: i32,
    pub w: i32,
    pub h: i32,
    pub label: &'static str,
    /// Colour of the body.
    pub base: Color,
    /// Colour of the label.
    pub ink: Color,
}

/// The larger of two numbers.
pub open spec fn larger(a: int, b: int) -> int {
    if a >= b {
        a
    } else {
        b
    }
}

fn larger_of(a: i64, b: i64) -> (r: i64)
    ensures
        r == larger(a as int, b as int),
{
    if a >= b {
        a
    } else {
        b
    }
}

/// A number of 32 bits, read as a signed one.
pub open spec fn signed_32(n: int) -> int {
    if n >= 0x8000_0000 {
        n - 0x1_0000_0000
    } else {
        n
    }
}

/// The room that a side leaves beside a label, in 32 bits: none where the label
/// is longer. A negative side counts as an unsigned number, and what is left as
/// a signed one, where a negative number is no room either.
pub open spec fn room(side: int, label: int) -> int {
    let unsigned = if side < 0 {
        side + 0x1_0000_0000
    } else {
        side
    };
    larger(signed_32(larger(unsigned - label, 0)), 0)
}

fn room_beside(side: i64, label: i64) -> (r: i64)
    requires
        -0x8000_0000 <= side < 0x8000_0000,
        0 <= label <= u32::MAX,
    ensures
        r == room(side as int, label as int),
        0 <= r < 0x8000_0000,
{
    let unsigned: i64 = if side < 0 {
        side + 0x1_0000_0000
    } else {
        side
    };
    let left: i64 = larger_of(unsigned - label, 0);
    if left >= 0x8000_0000 {
        0
    } else {
        left
    }
}

impl Button {
    /// Radius of the corners.
    pub open spec fn radius(&self) -> int {
        larger(self.h as int / 4, 3)
    }

    /// Colour of the body: lighter by a third while pressed.
    pub open spec fn body(&self, pressed: bool) -> Color {
        if pressed {
            self.base.mix(Color { r: 255, g: 255, b: 255, a: 255 }, 1, 3)
        } else {
            self.base
        }
    }

    /// Scale of the label: 2 where it fits with room to spare.
    pub open spec fn label_scale(&self) -> int {
        if self.w >= signed_32((self.label@.len() * 24) as int) + 8 && self.h >= 36 {
            2
        } else {
            1
        }
    }

    /// Where the label starts: centred, and at least two pixels inside.
    pub open spec fn label_x(&self) -> int {
        self.x + larger(
            room(self.w as int, self.label@.len() * 12 * self.label_scale()) / 2,
            2,
        )
    }

    /// The top of the label: centred, one pixel lower while pressed, and at
    /// least two pixels inside.
    pub open spec fn label_y(&self, pressed: bool) -> int {
        self.y + larger(
            room(self.h as int, 16 * self.label_scale()) / 2 + if pressed {
                1int
            } else {
                0
            },
            2,
        )
    }

    /// What drawing the button makes of a pixel: the body, its lower edge, and
    /// the label, one after the other.
    pub open spec fn paints(&self, pressed: bool) -> spec_fn(int, int, Color) -> Color {
        |i: int, j: int, p: Color|
            {
                let (x, y, w, h) = (self.x as int, self.y as int, self.w as int, self.h as int);
                let r = self.radius();
                let body = round_fill(x, y, w, h, r, self.body(pressed))(i, j, p);
                let edge = rect_fill(
                    x + r,
                    y + h - 2,
                    w - 2 * r,
                    2,
                    Color { r: 0, g: 0, b: 0, a: 255 },
                )(i, j, body);
                text_fill(
                    self.label_x(),
                    self.label_y(pressed),
                    self.label@,
                    self.label_scale(),
                    self.ink,
                )(i, j, edge)
            }
    }

    /// Whether the point lies on the button.
    pub fn contains(&self, x: i32, y: i32) -> (r: bool)
        ensures
            r == in_rect(
                x as int,
                y as int,
                self.x as int,
                self.y as int,
                self.w as int,
                self.h as int,
            ),
    {
        x >= self.x && (x as i64) < self.x as i64 + self.w as i64 && y >= self.y && (y as i64)
            < self.y as i64 + self.h as i64
    }

    /// Draws the button.
    pub fn draw(&self, canvas: &mut Canvas, pressed: bool)
        requires
            old(canvas).wf(),
            self.label@.len() * 24 <= u32::MAX,
        ensures
            final(canvas).repainted(*old(canvas), self.paints(pressed)),
            final(final(canvas).buf)@ == final(old(canvas).buf)@,
    {
        let white: Color = Color::rgb(255, 255, 255);
        let body: Color = if pressed {
            self.base.lerp(white, 1, 3)
        } else {
            self.base
        };
        let radius: i32 = if self.h >= 12 {
            self.h / 4
        } else {
            3
        };
        canvas.fill_round_rect(self.x, self.y, self.w, self.h, radius, body);
        let (x, y, w, h) = (self.x as i64, self.y as i64, self.w as i64, self.h as i64);
        let r: i64 = radius as i64;
        canvas.fill_area(x + r, y + h - 2, w - 2 * r, 2, Color::rgb(0, 0, 0));
        let chars: i64 = self.label.unicode_len() as i64;
        let wide: i64 = if chars * 24 >= 0x8000_0000 {
            chars * 24 - 0x1_0000_0000
        } else {
            chars * 24
        };
        let scale: i64 = if w >= wide + 8 && h >= 36 {
            2
        } else {
            1
        };
        let tx: i64 = x + larger_of(room_beside(w, chars * 12 * scale) / 2, 2);
        let press: i64 = if pressed {
            1
        } else {
            0
        };
        let ty: i64 = y + larger_of(room_beside(h, 16 * scale) / 2 + press, 2);
        canvas.draw_text_at(tx, ty, self.label, scale as u32, self.ink);
    }
}

} // verus!
