//! The bitmap font: monospaced cells of 12 × 16 pixels.
use vstd::prelude::*;

use crate::ui::font_data::{ascii_pattern, ascii_patterns, extra_pattern, find_extra};

verus! {

/// Width of a cell: how far the pen advances per character.
pub fn cell_w() -> (r: usize)
    ensures
        r == 12,
{
    12
}

/// Height of a cell.
pub fn cell_h() -> (r: usize)
    ensures
        r == 16,
{
    16
}

/// Bytes per row of a glyph.
pub fn row_bytes() -> (r: usize)
    ensures
        r == 2,
{
    2
}

/// A glyph: 16 rows of two bytes. Read as a big-endian number, a row has the
/// leftmost of its 12 pixels in bit 11.
pub type Glyph = [u8; 32];

/// The dot pattern of a character that the font has.
pub open spec fn pattern_of(ch: char) -> Option<u64> {
    if 32 <= ch as u32 <= 126 {
        Some(ascii_patterns()[ch as u32 - 32])
    } else {
        extra_pattern(ch)
    }
}

/// Which dot of the pattern a pixel of the cell shows, if any: the pattern
/// stands one pixel from the left and from the top; its dots are two pixels
/// high and alternately two and one wide.
pub open spec fn dot_column(x: int) -> Option<int> {
    if x == 1 || x == 2 {
        Some(0)
    } else if x == 3 {
        Some(1)
    } else if x == 4 || x == 5 {
        Some(2)
    } else if x == 6 {
        Some(3)
    } else if x == 7 || x == 8 {
        Some(4)
    } else {
        None
    }
}

/// The dot in `row` and `col` of a pattern is set.
pub open spec fn dot_set(pattern: u64, row: int, col: int) -> bool {
    (pattern >> ((34 - (row * 5 + col)) as u64)) & 1 == 1
}

/// The pixel of the cell of a pattern carries ink.
pub open spec fn ink(pattern: u64, x: int, y: int) -> bool {
    1 <= y <= 14 && (dot_column(x) matches Some(col) && dot_set(pattern, (y - 1) / 2, col))
}

/// The pixel of a glyph is set.
pub open spec fn glyph_pixel(g: Seq<u8>, x: int, y: int) -> bool {
    ((g[2 * y] * 256 + g[2 * y + 1]) as u16 >> ((11 - x) as u16)) & 1 == 1
}

/// Position of a printable ASCII character in the table.
fn ascii_index(ch: char) -> (r: Option<usize>)
    ensures
        r == (if 32 <= ch as u32 <= 126 {
            Some((ch as u32 - 32) as usize)
        } else {
            None
        }),
{
    let c: u32 = ch as u32;
    if c >= 32 && c <= 126 {
        Some((c - 32) as usize)
    } else {
        None
    }
}

/// The dot pattern of a character, if the font has it.
pub fn pattern(ch: char) -> (r: Option<u64>)
    ensures
        r == pattern_of(ch),
{
    match ascii_index(ch) {
        Some(n) => Some(ascii_pattern(n)),
        None => find_extra(ch),
    }
}

/// Whether the pixel of the cell of a pattern carries ink.
pub fn has_ink(pattern: u64, x: u32, y: u32) -> (r: bool)
    requires
        x < 12,
        y < 16,
    ensures
        r == ink(pattern, x as int, y as int),
{
    if y < 1 || y > 14 {
        return false;
    }
    let row: u64 = ((y - 1) / 2) as u64;
    let col: u64 = if x == 1 || x == 2 {
        0
    } else if x == 3 {
        1
    } else if x == 4 || x == 5 {
        2
    } else if x == 6 {
        3
    } else if x == 7 || x == 8 {
        4
    } else {
        return false;
    };
    (pattern >> (34 - (row * 5 + col))) & 1 == 1
}

fn row_bits(c0: bool, c1: bool, c2: bool, c3: bool, c4: bool) -> (v: u16)
    ensures
        v < 0x1000,
        forall|x: u16|
            x < 12 ==> (#[trigger] (v >> ((11 - x) as u16)) & 1 == 1) == ((c0 && (x == 1 || x == 2))
                || (c1 && x == 3) || (c2 && (x == 4 || x == 5)) || (c3 && x == 6) || (c4 && (x == 7
                || x == 8))),
{
    let a0: u16 = if c0 {
        0x600
    } else {
        0
    };
    let a1: u16 = if c1 {
        0x100
    } else {
        0
    };
    let a2: u16 = if c2 {
        0x0c0
    } else {
        0
    };
    let a3: u16 = if c3 {
        0x020
    } else {
        0
    };
    let a4: u16 = if c4 {
        0x018
    } else {
        0
    };
    let v: u16 = a0 | a1 | a2 | a3 | a4;
    assert(v < 0x1000) by (bit_vector)
        requires
            v == a0 | a1 | a2 | a3 | a4,
            a0 <= 0x600,
            a1 <= 0x100,
            a2 <= 0xc0,
            a3 <= 0x20,
            a4 <= 0x18,
    ;
    assert forall|x: u16| x < 12 implies (#[trigger] (v >> ((11 - x) as u16)) & 1 == 1) == ((c0 && (x
        == 1 || x == 2)) || (c1 && x == 3) || (c2 && (x == 4 || x == 5)) || (c3 && x == 6) || (c4
        && (x == 7 || x == 8))) by {
        let s: u16 = (11 - x) as u16;
        assert(((v >> s) & 1 == 1) == ((c0 && (s == 10 || s == 9)) || (c1 && s == 8) || (c2 && (s
            == 7 || s == 6)) || (c3 && s == 5) || (c4 && (s == 4 || s == 3)))) by (bit_vector)
            requires
                v == a0 | a1 | a2 | a3 | a4,
                a0 == (if c0 { 0x600u16 } else { 0u16 }),
                a1 == (if c1 { 0x100u16 } else { 0u16 }),
                a2 == (if c2 { 0x0c0u16 } else { 0u16 }),
                a3 == (if c3 { 0x020u16 } else { 0u16 }),
                a4 == (if c4 { 0x018u16 } else { 0u16 }),
                s < 12,
        ;
    }
    v
}

/// The glyph of a character, or nothing if the font does not have it.
pub fn glyph(ch: char) -> (r: Option<Glyph>)
    ensures
        r is Some <==> pattern_of(ch) is Some,
        r matches Some(g) ==> forall|x: int, y: int|
            0 <= x < 12 && 0 <= y < 16 ==> #[trigger] glyph_pixel(g@, x, y) == ink(
                pattern_of(ch)->0,
                x,
                y,
            ),
{
    let p: u64 = match pattern(ch) {
        Some(p) => p,
        None => {
            return None;
        },
    };
    let mut g: Glyph = [0u8; 32];
    let mut y: usize = 0;
    while y < 16
        invariant
            y <= 16,
            forall|i: int, j: int|
                0 <= i < 12 && 0 <= j < y ==> #[trigger] glyph_pixel(g@, i, j) == ink(p, i, j),
        decreases 16 - y,
    {
        let ghost before = g@;
        let r: u32 = y as u32;
        let v: u16 = row_bits(
            has_ink(p, 1, r),
            has_ink(p, 3, r),
            has_ink(p, 4, r),
            has_ink(p, 6, r),
            has_ink(p, 7, r),
        );
        g[2 * y] = (v / 256) as u8;
        g[2 * y + 1] = (v % 256) as u8;
        assert forall|i: int, j: int| 0 <= i < 12 && 0 <= j < y + 1 implies #[trigger] glyph_pixel(
            g@,
            i,
            j,
        ) == ink(p, i, j) by {
            if j < y {
                assert(glyph_pixel(before, i, j) == ink(p, i, j));
                assert(g@[2 * j] == before[2 * j] && g@[2 * j + 1] == before[2 * j + 1]);
            } else {
                assert(g@[2 * j] * 256 + g@[2 * j + 1] == v);
                let x: u16 = i as u16;
                assert((v >> ((11 - x) as u16)) & 1 == 1 <==> glyph_pixel(g@, i, j));
            }
        }
        y += 1;
    }
    Some(g)
}

/// Width of `n` characters, for centring.
pub fn text_width(n: usize, scale: u32) -> (r: u32)
    requires
        n * 12 * scale <= u32::MAX,
        n <= u32::MAX,
        n * 12 <= u32::MAX,
    ensures
        r == n * 12 * scale,
{
    n as u32 * 12 * scale
}

} // verus!
