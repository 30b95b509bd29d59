//! What holds of drawing: which pixels a shape covers, and what becomes of
//! them.
use vstd::prelude::*;

use crate::ui::canvas::{
    corner_gap, in_disc, in_rect, law_mix_is_between, mixed, outline_fill, outline_thickness,
    rect_fill, round_fill, round_radius, scaled_index, Canvas, Color, RgbaImg,
};
use crate::ui::font::{dot_set, glyph_pixel, ink, pattern_of};
use crate::ui::lettering::{shown_pattern, text_fill};
use crate::ui::paint::FrameHeader;
use crate::ui::widgets::Button;

verus! {

/// Where a pixel lies in memory: row by row from the top, four bytes each, red,
/// green, blue and alpha.
pub proof fn law_bytes_of_a_pixel(c: Canvas, bytes: Seq<u8>, x: int, y: int)
    requires
        c.buf@ == bytes,
    ensures
        c.pixel(x, y).r == bytes[4 * (y * c.w + x)],
        c.pixel(x, y).g == bytes[4 * (y * c.w + x) + 1],
        c.pixel(x, y).b == bytes[4 * (y * c.w + x) + 2],
        c.pixel(x, y).a == bytes[4 * (y * c.w + x) + 3],
        c.inside(x, y) <==> 0 <= x && x < c.w && 0 <= y && y < c.h,
{
}

/// The pixels of an image lie one behind the other, in the same byte order.
pub proof fn law_bytes_of_an_image(img: RgbaImg, n: int)
    ensures
        img.sample(n).r == img.data@[4 * n],
        img.sample(n).g == img.data@[4 * n + 1],
        img.sample(n).b == img.data@[4 * n + 2],
        img.sample(n).a == img.data@[4 * n + 3],
{
}

proof fn lemma_blend(a: int, c: int, d: int)
    requires
        0 <= a <= 255,
        0 <= c <= 255,
        0 <= d <= 255,
    ensures
        0 <= (a * c + (255 - a) * d) / 255 <= 255,
        a == 255 ==> (a * c + (255 - a) * d) / 255 == c,
        a == 0 ==> (a * c + (255 - a) * d) / 255 == d,
        c <= d ==> c <= (a * c + (255 - a) * d) / 255 <= d,
        d <= c ==> d <= (a * c + (255 - a) * d) / 255 <= c,
        255 * ((a * c + (255 - a) * d) / 255) <= a * c + (255 - a) * d,
        a * c + (255 - a) * d < 255 * ((a * c + (255 - a) * d) / 255) + 255,
{
    let s = a * c + (255 - a) * d;
    assert(a == 255 ==> s == 255 * c) by (nonlinear_arith)
        requires
            s == a * c + (255 - a) * d,
    ;
    assert(a == 0 ==> s == 255 * d) by (nonlinear_arith)
        requires
            s == a * c + (255 - a) * d,
    ;
    assert(c <= d ==> 255 * c <= s && s <= 255 * d) by (nonlinear_arith)
        requires
            0 <= a <= 255,
            s == a * c + (255 - a) * d,
    ;
    assert(d <= c ==> 255 * d <= s && s <= 255 * c) by (nonlinear_arith)
        requires
            0 <= a <= 255,
            s == a * c + (255 - a) * d,
    ;
}

/// Laying a colour over another: the result is opaque, and each channel is the
/// weighted mean of the two, rounded down. An opaque colour hides what is under
/// it, and a transparent one shows it.
pub proof fn law_laying_over(c: Color, under: Color)
    ensures
        c.over(under).a == 255,
        255 * c.over(under).r <= c.a * c.r + (255 - c.a) * under.r < 255 * c.over(under).r + 255,
        255 * c.over(under).g <= c.a * c.g + (255 - c.a) * under.g < 255 * c.over(under).g + 255,
        255 * c.over(under).b <= c.a * c.b + (255 - c.a) * under.b < 255 * c.over(under).b + 255,
        c.a == 255 ==> c.over(under) == c,
        c.a == 0 ==> c.over(under) == (Color { a: 255, ..under }),
{
    lemma_blend(c.a as int, c.r as int, under.r as int);
    lemma_blend(c.a as int, c.g as int, under.g as int);
    lemma_blend(c.a as int, c.b as int, under.b as int);
}

/// Filling and setting a pixel: both leave an opaque colour as it is and blend
/// a translucent one; a transparent colour leaves a pixel alone that is set,
/// and makes one opaque that is filled.
pub proof fn law_filling_and_setting(c: Color, under: Color)
    ensures
        c.a == 255 ==> c.filled(under) == c && c.set_on(under) == c,
        0 < c.a < 255 ==> c.filled(under) == c.over(under) && c.set_on(under) == c.over(under),
        c.a == 0 ==> c.set_on(under) == under && c.filled(under) == (Color { a: 255, ..under }),
        c.opaque().a == 255 && c.opaque().r == c.r && c.opaque().g == c.g && c.opaque().b == c.b,
{
    law_laying_over(c, under);
}

/// A mix goes along the straight line from one channel to the other, by the
/// share `t / t_max` of the way, rounded towards the start.
pub proof fn law_mix_is_linear(a: u8, b: u8, t: u32, t_max: u32)
    requires
        t <= t_max,
        t_max > 0,
    ensures
        a <= b ==> (mixed(a, b, t, t_max) - a) * t_max <= (b - a) * t < (mixed(a, b, t, t_max) - a
            + 1) * t_max,
        a >= b ==> (a - mixed(a, b, t, t_max)) * t_max <= (a - b) * t < (a - mixed(a, b, t, t_max)
            + 1) * t_max,
{
    let d: int = if b >= a {
        b - a
    } else {
        a - b
    };
    let q = d * t / (t_max as int);
    assert(0 <= q <= d && q * t_max <= d * t && d * t < (q + 1) * t_max) by (nonlinear_arith)
        requires
            t_max > 0,
            0 <= t <= t_max,
            d >= 0,
            q == d * t / (t_max as int),
    ;
}

/// A point lies in a rectangle if it is neither left of it nor above it, and
/// nearer to its corner than its width and its height.
pub proof fn law_points_of_a_rectangle(i: int, j: int, x: int, y: int, w: int, h: int)
    ensures
        in_rect(i, j, x, y, w, h) <==> 0 <= i - x && i - x < w && 0 <= j - y && j - y < h,
        w <= 0 || h <= 0 ==> !in_rect(i, j, x, y, w, h),
        in_rect(x, y, x, y, w, h) <==> w > 0 && h > 0,
{
}

/// Filling a rectangle fills the points in it, and no others.
pub proof fn law_filled_rectangle(
    i: int,
    j: int,
    x: int,
    y: int,
    w: int,
    h: int,
    c: Color,
    p: Color,
)
    ensures
        0 <= i - x < w && 0 <= j - y < h ==> rect_fill(x, y, w, h, c)(i, j, p) == c.filled(p),
        !(0 <= i - x < w && 0 <= j - y < h) ==> rect_fill(x, y, w, h, c)(i, j, p) == p,
{
}

/// How thick an outline is: as asked for, if that is at most half of either
/// side, and never less than one pixel.
pub proof fn law_thickness_of_an_outline(w: int, h: int, thick: int)
    requires
        w > 0,
        h > 0,
        thick > 0,
    ensures
        outline_thickness(w, h, thick) >= 1,
        thick <= w / 2 && thick <= h / 2 ==> outline_thickness(w, h, thick) == thick,
        w >= 2 && h >= 2 ==> 2 * outline_thickness(w, h, thick) <= w && 2 * outline_thickness(
            w,
            h,
            thick,
        ) <= h,
        outline_thickness(w, h, thick) <= thick,
{
}

/// An outline covers the points of its rectangle that lie less than its
/// thickness from an edge, each once, and no others: the inside stays.
pub proof fn law_outline_leaves_the_inside(
    i: int,
    j: int,
    x: int,
    y: int,
    w: int,
    h: int,
    thick: int,
    c: Color,
    p: Color,
)
    requires
        thick > 0,
        w >= 2,
        h >= 2,
    ensures
        ({
            let t = outline_thickness(w, h, thick);
            let whole = 0 <= i - x < w && 0 <= j - y < h;
            let within = t <= i - x < w - t && t <= j - y < h - t;
            &&& whole && !within ==> outline_fill(x, y, w, h, thick, c)(i, j, p) == c.filled(p)
            &&& !whole || within ==> outline_fill(x, y, w, h, thick, c)(i, j, p) == p
        }),
{
    law_thickness_of_an_outline(w, h, thick);
}

/// An outline without width, height or thickness draws nothing.
pub proof fn law_empty_outline(
    i: int,
    j: int,
    x: int,
    y: int,
    w: int,
    h: int,
    thick: int,
    c: Color,
    p: Color,
)
    requires
        w <= 0 || h <= 0 || thick <= 0,
    ensures
        outline_fill(x, y, w, h, thick, c)(i, j, p) == p,
{
}

/// The radius of rounded corners: as asked for, but not below zero nor above
/// half the shorter side.
pub proof fn law_radius_of_corners(w: int, h: int, radius: int)
    requires
        w > 0,
        h > 0,
    ensures
        0 <= round_radius(w, h, radius),
        2 * round_radius(w, h, radius) <= w && 2 * round_radius(w, h, radius) <= h,
        radius >= 0 && 2 * radius <= w && 2 * radius <= h ==> round_radius(w, h, radius) == radius,
        radius < 0 ==> round_radius(w, h, radius) == 0,
        2 * radius > w || 2 * radius > h ==> round_radius(w, h, radius) == if w < h {
            w / 2
        } else {
            h / 2
        },
{
}

/// A rounded rectangle looks the same mirrored at either of its middles.
pub proof fn law_rounded_rectangle_is_symmetric(
    i: int,
    j: int,
    x: int,
    y: int,
    w: int,
    h: int,
    radius: int,
    c: Color,
    p: Color,
)
    requires
        w > 0,
        h > 0,
    ensures
        round_fill(x, y, w, h, radius, c)(i, j, p) == round_fill(x, y, w, h, radius, c)(
            x + (x + w - 1 - i),
            j,
            p,
        ),
        round_fill(x, y, w, h, radius, c)(i, j, p) == round_fill(x, y, w, h, radius, c)(
            i,
            y + (y + h - 1 - j),
            p,
        ),
{
    law_radius_of_corners(w, h, radius);
    let r = round_radius(w, h, radius);
    if in_rect(i, j, x, y, w, h) {
        assert(corner_gap(x + (x + w - 1 - i), x, w, r) == corner_gap(i, x, w, r));
        assert(corner_gap(y + (y + h - 1 - j), y, h, r) == corner_gap(j, y, h, r));
    }
}

/// A rounded rectangle covers its rectangle but for the corners: in the square
/// of the radius at the top left corner a point is covered exactly if it is not
/// farther from the inner end of the square than the radius; above, below and
/// beside the corners everything is covered. Without a radius it is the
/// rectangle, and nothing outside is ever covered.
pub proof fn law_rounded_rectangle_cuts_corners(
    i: int,
    j: int,
    x: int,
    y: int,
    w: int,
    h: int,
    radius: int,
    c: Color,
    p: Color,
)
    requires
        w > 0,
        h > 0,
    ensures
        ({
            let r = round_radius(w, h, radius);
            let painted = round_fill(x, y, w, h, radius, c)(i, j, p);
            let (u, v) = (x + r - i, y + r - j);
            &&& !(0 <= i - x < w && 0 <= j - y < h) ==> painted == p
            &&& r == 0 ==> painted == rect_fill(x, y, w, h, c)(i, j, p)
            &&& 0 < u <= r && 0 < v <= r ==> painted == (if u * u + v * v <= r * r {
                c.set_on(p)
            } else {
                p
            })
            &&& r > 0 && r <= i - x < w - r && 0 <= j - y < h ==> painted == c.set_on(p)
            &&& r > 0 && 0 <= i - x < w && r <= j - y < h - r ==> painted == c.set_on(p)
        }),
{
    law_radius_of_corners(w, h, radius);
}

/// A disc covers the points whose distance from its centre is at most its
/// radius: it holds the centre and the four points straight out at the radius,
/// none farther out in a row or a column, and is the same in all directions.
pub proof fn law_points_of_a_disc(cx: int, cy: int, dx: int, dy: int, r: int)
    requires
        r > 0,
    ensures
        in_disc(cx + dx, cy + dy, cx, cy, r) <==> dx * dx + dy * dy <= r * r,
        in_disc(cx, cy, cx, cy, r),
        in_disc(cx + r, cy, cx, cy, r) && in_disc(cx - r, cy, cx, cy, r),
        in_disc(cx, cy + r, cx, cy, r) && in_disc(cx, cy - r, cx, cy, r),
        in_disc(cx + dx, cy + dy, cx, cy, r) ==> -r <= dx <= r && -r <= dy <= r,
        in_disc(cx + dx, cy + dy, cx, cy, r) == in_disc(cx - dx, cy + dy, cx, cy, r),
        in_disc(cx + dx, cy + dy, cx, cy, r) == in_disc(cx + dy, cy + dx, cx, cy, r),
{
    assert((-dx) * (-dx) == dx * dx) by (nonlinear_arith);
    assert((-r) * (-r) == r * r) by (nonlinear_arith);
    assert(0 <= r * r) by (nonlinear_arith);
    assert(dx * dx + dy * dy <= r * r ==> -r <= dx <= r) by (nonlinear_arith)
        requires
            r > 0,
    ;
    assert(dx * dx + dy * dy <= r * r ==> -r <= dy <= r) by (nonlinear_arith)
        requires
            r > 0,
    ;
}

/// A stretched image shows, at every point, the pixel at the same share of the
/// way across and down, rounded down: `u` across and `v` down. At its own size
/// each point shows its own pixel.
pub proof fn law_stretching_keeps_the_share(
    img: RgbaImg,
    dw: int,
    dh: int,
    dx: int,
    dy: int,
    u: int,
    v: int,
)
    requires
        0 <= dx < dw,
        0 <= dy < dh,
        u * dw <= dx * img.w < (u + 1) * dw,
        v * dh <= dy * img.h < (v + 1) * dh,
    ensures
        scaled_index(img, dw, dh, dx, dy) == v * img.w + u,
        dw == img.w && dh == img.h ==> scaled_index(img, dw, dh, dx, dy) == dy * img.w + dx,
{
    lemma_share(dx * img.w, dw, u);
    lemma_share(dy * img.h, dh, v);
    if dw == img.w && dh == img.h {
        assert(dx * dw / dw == dx) by (nonlinear_arith)
            requires
                dw > 0,
        ;
        assert(dy * dh / dh == dy) by (nonlinear_arith)
            requires
                dh > 0,
        ;
    }
}

proof fn lemma_share(n: int, d: int, u: int)
    requires
        d > 0,
        u * d <= n < (u + 1) * d,
    ensures
        n / d == u,
{
    let r = n - u * d;
    assert((u + 1) * d == u * d + d) by (nonlinear_arith);
    assert(n == d * u + r) by (nonlinear_arith)
        requires
            r == n - u * d,
    ;
    vstd::arithmetic::div_mod::lemma_fundamental_div_mod_converse(n, d, u, r);
}

/// The cell of a character: no ink at its margins; each dot is two pixels high,
/// and the five columns of dots are two, one, two, one and two pixels wide.
pub proof fn law_dots_of_a_cell(pattern: u64, x: int, y: int, row: int)
    requires
        0 <= row < 7,
    ensures
        x < 1 || x > 8 || y < 1 || y > 14 ==> !ink(pattern, x, y),
        ink(pattern, x, 2 * row + 1) == ink(pattern, x, 2 * row + 2),
        ink(pattern, 1, y) == ink(pattern, 2, y),
        ink(pattern, 4, y) == ink(pattern, 5, y),
        ink(pattern, 7, y) == ink(pattern, 8, y),
        ink(pattern, 1, 2 * row + 1) == dot_set(pattern, row, 0),
        ink(pattern, 3, 2 * row + 1) == dot_set(pattern, row, 1),
        ink(pattern, 4, 2 * row + 1) == dot_set(pattern, row, 2),
        ink(pattern, 6, 2 * row + 1) == dot_set(pattern, row, 3),
        ink(pattern, 7, 2 * row + 1) == dot_set(pattern, row, 4),
{
}

/// The dots of a pattern are its 35 lowest bits, row by row from the top, the
/// highest of them the left dot of the top row.
pub proof fn law_dots_are_bits(pattern: u64)
    ensures
        dot_set(pattern, 0, 0) == ((pattern >> 34u64) & 1 == 1),
        dot_set(pattern, 0, 4) == ((pattern >> 30u64) & 1 == 1),
        dot_set(pattern, 1, 0) == ((pattern >> 29u64) & 1 == 1),
        dot_set(pattern, 6, 0) == ((pattern >> 4u64) & 1 == 1),
        dot_set(pattern, 6, 4) == ((pattern >> 0u64) & 1 == 1),
{
}

/// A character that the font does not have is drawn as a question mark, and one
/// that it has as itself.
pub proof fn law_unknown_characters_are_question_marks(ch: char)
    ensures
        pattern_of(ch) is None ==> shown_pattern(ch) == shown_pattern('?'),
        pattern_of(ch) matches Some(p) ==> shown_pattern(ch) == p,
        32 <= ch as u32 <= 126 ==> pattern_of(ch) is Some,
{
}

proof fn lemma_cell_of(k: int, u: int)
    requires
        0 <= u < 12,
    ensures
        (12 * k + u) / 12 == k,
        (12 * k + u) % 12 == u,
{
}

/// A text is drawn character by character from the left, each in a cell of 12 by
/// 16 pixels; where a character has no ink the pixel stays.
pub proof fn law_text_is_drawn_in_cells(
    text: Seq<char>,
    k: int,
    u: int,
    v: int,
    c: Color,
    p: Color,
)
    requires
        0 <= k < text.len(),
        0 <= u < 12,
        0 <= v < 16,
    ensures
        text_fill(0, 0, text, 1, c)(12 * k + u, v, p) == (if ink(shown_pattern(text[k]), u, v) {
            c.set_on(p)
        } else {
            p
        }),
{
    lemma_cell_of(k, u);
    assert((12 * k + u - 0) / 1 == 12 * k + u);
    assert(12 * k + u < text.len() * 12 * 1);
}

/// A larger text is the small one with every pixel grown to a square, wherever
/// it stands.
pub proof fn law_larger_text_is_grown(
    x: int,
    y: int,
    text: Seq<char>,
    scale: int,
    u: int,
    v: int,
    a: int,
    b: int,
    c: Color,
    p: Color,
)
    requires
        scale > 0,
        0 <= u < 12 * text.len(),
        0 <= v < 16,
        0 <= a < scale,
        0 <= b < scale,
        c.a == 255,
    ensures
        text_fill(x, y, text, scale, c)(x + scale * u + a, y + scale * v + b, p) == text_fill(
            0,
            0,
            text,
            1,
            c,
        )(u, v, p),
{
    assert((scale * u + a) / scale == u && 0 <= scale * u) by (nonlinear_arith)
        requires
            scale > 0,
            0 <= a < scale,
            0 <= u,
    ;
    assert((scale * v + b) / scale == v && 0 <= scale * v) by (nonlinear_arith)
        requires
            scale > 0,
            0 <= b < scale,
            0 <= v,
    ;
    assert(scale * u + a < text.len() * 12 * scale) by (nonlinear_arith)
        requires
            scale > 0,
            0 <= a < scale,
            0 <= u < 12 * text.len(),
    ;
    assert(scale * v + b < 16 * scale) by (nonlinear_arith)
        requires
            scale > 0,
            0 <= b < scale,
            0 <= v < 16,
    ;
}

/// A text draws nothing outside its cells, and nothing at all at scale zero.
pub proof fn law_text_stays_in_its_cells(
    x: int,
    y: int,
    text: Seq<char>,
    scale: int,
    i: int,
    j: int,
    c: Color,
    p: Color,
)
    requires
        scale <= 0 || i < x || i >= x + text.len() * 12 * scale || j < y || j >= y + 16 * scale,
    ensures
        text_fill(x, y, text, scale, c)(i, j, p) == p,
{
}

/// The corners of a button are rounded by a quarter of its height, at least by
/// three pixels.
pub proof fn law_corners_of_a_button(b: Button)
    ensures
        b.h >= 12 ==> b.radius() == b.h as int / 4,
        b.h < 12 ==> b.radius() == 3,
{
}

/// A pressed button is a third of the way to white; one that is not pressed has
/// its own colour.
pub proof fn law_pressed_button_is_lighter(b: Button)
    ensures
        b.body(false) == b.base,
        b.body(true).r == b.base.r + (255 - b.base.r) / 3,
        b.body(true).g == b.base.g + (255 - b.base.g) / 3,
        b.body(true).b == b.base.b + (255 - b.base.b) / 3,
{
}

/// The label of a button is drawn twice as large where it then leaves eight
/// pixels of the width and the button is at least 36 pixels high.
pub proof fn law_size_of_a_label(b: Button)
    requires
        b.label@.len() * 24 < 0x8000_0000,
    ensures
        b.label_scale() == 1 || b.label_scale() == 2,
        b.label_scale() == 2 <==> b.label@.len() * 24 + 8 <= b.w && 36 <= b.h,
{
}

/// A label that fits stands in the middle: the room left and right of it, and
/// above and below it, differs by one pixel at most; while the button is pressed
/// the label is one pixel lower.
pub proof fn law_label_is_centred(b: Button)
    requires
        b.label@.len() * 24 < 0x8000_0000,
        b.label@.len() * 12 * b.label_scale() + 4 <= b.w,
        16 * b.label_scale() + 4 <= b.h,
    ensures
        ({
            let wide = b.label@.len() * 12 * b.label_scale();
            let left = b.label_x() - b.x;
            let right = b.x + b.w - (b.label_x() + wide);
            0 <= right - left <= 1
        }),
        ({
            let high = 16 * b.label_scale();
            let above = b.label_y(false) - b.y;
            let below = b.y + b.h - (b.label_y(false) + high);
            0 <= below - above <= 1
        }),
        b.label_y(true) == b.label_y(false) + 1,
{
    assert(b.label_scale() == 1 || b.label_scale() == 2);
}

/// A label never starts less than two pixels inside its button.
pub proof fn law_label_keeps_inside(b: Button, pressed: bool)
    ensures
        b.label_x() >= b.x + 2,
        b.label_y(pressed) >= b.y + 2,
{
}

/// A button is painted body first, then a black edge of two pixels along the
/// straight part of its bottom, then the label: outside its rectangle and its
/// label nothing changes.
pub proof fn law_button_paints_in_turn(b: Button, pressed: bool, i: int, j: int, p: Color)
    ensures
        ({
            let (x, y, w, h) = (b.x as int, b.y as int, b.w as int, b.h as int);
            let r = b.radius();
            let body = round_fill(x, y, w, h, r, b.body(pressed))(i, j, p);
            let black = Color { r: 0, g: 0, b: 0, a: 255 };
            let on_edge = r <= i - x < w - r && h - 2 <= j - y < h;
            let under = if on_edge {
                black
            } else {
                body
            };
            b.paints(pressed)(i, j, p) == text_fill(
                b.label_x(),
                b.label_y(pressed),
                b.label@,
                b.label_scale(),
                b.ink,
            )(i, j, under)
        }),
{
}

/// A frame takes 32 bytes for its header and four for each pixel.
pub proof fn law_size_of_a_frame(hdr: FrameHeader)
    ensures
        hdr.size() == 32 + 4 * (hdr.width * hdr.height),
{
}

/// The pixels of a glyph in memory: two bytes for each row, the first of the 12
/// pixels in bit 3 of the first byte, the last in bit 0 of the second.
pub proof fn law_pixels_of_a_glyph(g: Seq<u8>, y: int)
    ensures
        glyph_pixel(g, 0, y) <==> g[2 * y] & 8 != 0,
        glyph_pixel(g, 3, y) <==> g[2 * y] & 1 != 0,
        glyph_pixel(g, 4, y) <==> g[2 * y + 1] & 128 != 0,
        glyph_pixel(g, 11, y) <==> g[2 * y + 1] & 1 != 0,
{
    let (a, b) = (g[2 * y], g[2 * y + 1]);
    let w: u16 = (a * 256 + b) as u16;
    assert(((w >> 11u16) & 1 == 1) == (a & 8 != 0)) by (bit_vector)
        requires
            w == a * 256 + b,
    ;
    assert(((w >> 8u16) & 1 == 1) == (a & 1 != 0)) by (bit_vector)
        requires
            w == a * 256 + b,
    ;
    assert(((w >> 7u16) & 1 == 1) == (b & 128 != 0)) by (bit_vector)
        requires
            w == a * 256 + b,
    ;
    assert(((w >> 0u16) & 1 == 1) == (b & 1 != 0)) by (bit_vector)
        requires
            w == a * 256 + b,
    ;
}

/// Without a range, one step goes all the way, as with a range of one.
pub proof fn law_mix_without_a_range(a: Color, b: Color, t: u32)
    ensures
        a.mix(b, t, 0) == a.mix(b, t, 1),
        a.mix(b, 0, 0) == a,
        a.mix(b, 1, 0) == b,
{
    law_mix_is_between(a, b, 0, 1);
}

} // verus!
