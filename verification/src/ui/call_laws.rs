//! What callers of the drawing code can rely on, told by what goes into a call
//! and what comes out of it.
use vstd::prelude::*;

use crate::ui::canvas::{law_mix_is_between, Canvas, Color, RgbaImg};
use crate::ui::widgets::Button;

verus! {

/// A canvas that is filled shows the colour everywhere, and nothing shines
/// through.
pub proof fn law_filled_canvas(c: &mut Canvas, color: Color, x: int, y: int)
    requires
        old(c).wf(),
        call_ensures(Canvas::fill, (c, color), ()),
        0 <= x < old(c).w,
        0 <= y < old(c).h,
    ensures
        final(c).w == old(c).w && final(c).h == old(c).h,
        final(c).pixel(x, y) == (Color { r: color.r, g: color.g, b: color.b, a: 255 }),
{
    assert(final(c).inside(x, y));
    assert(final(c).pixel(x, y) == color.opaque());
}

/// A gradient goes from the first colour in the top row to the second in the
/// bottom row, and is the same all along a row.
pub proof fn law_gradient_goes_down(
    c: &mut Canvas,
    top: Color,
    bottom: Color,
    x: int,
    x2: int,
    y: int,
)
    requires
        old(c).wf(),
        old(c).h > 1,
        call_ensures(Canvas::fill_vgrad, (c, top, bottom), ()),
        0 <= x < old(c).w,
        0 <= x2 < old(c).w,
        0 <= y < old(c).h,
    ensures
        final(c).pixel(x, y) == final(c).pixel(x2, y),
        final(c).pixel(x, y).a == 255,
        final(c).pixel(x, 0) == (Color { a: 255, ..top }),
        final(c).pixel(x, old(c).h - 1) == (Color { a: 255, ..bottom }),
{
    let last = (old(c).h - 1) as u32;
    assert(final(c).inside(x, y) && final(c).inside(x2, y));
    assert(final(c).inside(x, 0) && final(c).inside(x, last as int));
    law_mix_is_between(top, bottom, 0, last);
    law_mix_is_between(top, bottom, last, last);
    assert(final(c).pixel(x, 0) == top.mix(bottom, 0, last).opaque());
    assert(final(c).pixel(x, last as int) == top.mix(bottom, last, last).opaque());
    assert(final(c).pixel(x, y) == top.mix(bottom, y as u32, last).opaque());
    assert(final(c).pixel(x2, y) == top.mix(bottom, y as u32, last).opaque());
}

/// A point that is set changes no other; a colour that is opaque replaces what
/// was there, and one that is not there at all leaves it.
pub proof fn law_one_point_is_set(
    c: &mut Canvas,
    x: i32,
    y: i32,
    color: Color,
    i: int,
    j: int,
)
    requires
        old(c).wf(),
        call_ensures(Canvas::set_pixel, (c, x, y, color), ()),
        0 <= i < old(c).w,
        0 <= j < old(c).h,
    ensures
        i != x || j != y ==> final(c).pixel(i, j) == old(c).pixel(i, j),
        i == x && j == y && color.a == 255 ==> final(c).pixel(i, j) == color,
        i == x && j == y && color.a == 0 ==> final(c).pixel(i, j) == old(c).pixel(i, j),
{
    assert(final(c).inside(i, j));
    let f = |i: int, j: int, p: Color|
        if i == x && j == y {
            color.set_on(p)
        } else {
            p
        };
    assert(final(c).pixel(i, j) == f(i, j, old(c).pixel(i, j)));
}

/// A rectangle covers its points and no others, also where it sticks out of the
/// canvas.
pub proof fn law_rectangle_covers_its_points(
    c: &mut Canvas,
    x: i32,
    y: i32,
    w: i32,
    h: i32,
    color: Color,
    i: int,
    j: int,
)
    requires
        old(c).wf(),
        color.a == 255,
        call_ensures(Canvas::fill_rect, (c, x, y, w, h, color), ()),
        0 <= i < old(c).w,
        0 <= j < old(c).h,
    ensures
        x <= i && i < x + w && y <= j && j < y + h ==> final(c).pixel(i, j) == color,
        !(x <= i && i < x + w && y <= j && j < y + h) ==> final(c).pixel(i, j) == old(c).pixel(
            i,
            j,
        ),
{
    assert(final(c).inside(i, j));
    assert(final(c).pixel(i, j) == crate::ui::canvas::rect_fill(
        x as int,
        y as int,
        w as int,
        h as int,
        color,
    )(i, j, old(c).pixel(i, j)));
}

/// A disc covers the points that are no farther from its middle than its radius,
/// and one without a radius covers none.
pub proof fn law_disc_covers_its_points(
    c: &mut Canvas,
    cx: i32,
    cy: i32,
    radius: i32,
    color: Color,
    i: int,
    j: int,
)
    requires
        old(c).wf(),
        color.a == 255,
        call_ensures(Canvas::fill_disc, (c, cx, cy, radius, color), ()),
        0 <= i < old(c).w,
        0 <= j < old(c).h,
    ensures
        radius > 0 && (i - cx) * (i - cx) + (j - cy) * (j - cy) <= radius * radius ==> final(c).pixel(i, j) == color,
        radius <= 0 || (i - cx) * (i - cx) + (j - cy) * (j - cy) > radius * radius ==> final(c).pixel(i, j) == old(c).pixel(i, j),
{
    assert(final(c).inside(i, j));
    let f = |i: int, j: int, p: Color|
        if radius > 0 && crate::ui::canvas::in_disc(
            i,
            j,
            cx as int,
            cy as int,
            radius as int,
        ) {
            color.set_on(p)
        } else {
            p
        };
    assert(final(c).pixel(i, j) == f(i, j, old(c).pixel(i, j)));
}

/// An image that is put on a canvas shows its points in rows from its upper left
/// corner, and leaves the points beside it.
pub proof fn law_image_is_put_row_by_row(
    c: &mut Canvas,
    x: i32,
    y: i32,
    img: RgbaImg,
    i: int,
    j: int,
)
    requires
        old(c).wf(),
        call_ensures(Canvas::blit, (c, x, y, img), ()),
        img.data@.len() == 4 * (img.w * img.h),
        0 <= i < old(c).w,
        0 <= j < old(c).h,
    ensures
        !(x <= i && i < x + img.w && y <= j && j < y + img.h) ==> final(c).pixel(i, j) == old(c).pixel(i, j),
        x <= i && i < x + img.w && y <= j && j < y + img.h ==> final(c).pixel(i, j) == img.sample(
            (j - y) * img.w + (i - x),
        ).set_on(old(c).pixel(i, j)),
{
    assert(final(c).inside(i, j));
    let f = |i: int, j: int, p: Color|
        if crate::ui::canvas::in_rect(
            i,
            j,
            x as int,
            y as int,
            img.w as int,
            img.h as int,
        ) && (j - y) * img.w + (i - x) < img.data@.len() / 4 {
            img.sample((j - y) * img.w + (i - x)).set_on(p)
        } else {
            p
        };
    assert(final(c).pixel(i, j) == f(i, j, old(c).pixel(i, j)));
    if x <= i && i < x + img.w && y <= j && j < y + img.h {
        let (dx, dy, w, h) = (i - x, j - y, img.w as int, img.h as int);
        assert(dy * w + dx < w * h) by (nonlinear_arith)
            requires
                0 <= dx < w,
                0 <= dy < h,
        ;
    }
}

/// A touch is on a button exactly if it is within its width and height from its
/// upper left corner.
pub proof fn law_touch_is_on_the_button(b: Button, x: i32, y: i32, r: bool)
    requires
        call_ensures(Button::contains, (&b, x, y), r),
    ensures
        r <==> b.x <= x && x < b.x + b.w && b.y <= y && y < b.y + b.h,
{
}

} // verus!
