//! Drawing into a row-major pixel buffer of `w * h` 32-bit pixels.
//! Everything is clipped to the buffer.

use vstd::prelude::*;
use vstd::arithmetic::div_mod::lemma_fundamental_div_mod_converse;
use crate::font::{get_mini_glyph, glyph_bit, glyph_lit, mini_glyph};

verus! {

/// Pixel column of buffer index `i`.
pub open spec fn col_of(i: int, w: int) -> int {
    i % w
}

/// Pixel row of buffer index `i`.
pub open spec fn row_of(i: int, w: int) -> int {
    i / w
}

/// `(px, py)` lies in the rectangle at `(x, y)` of size `rw` by `rh`.
pub open spec fn in_rect(px: int, py: int, x: int, y: int, rw: int, rh: int) -> bool {
    x <= px < x + rw && y <= py < y + rh
}

/// `buf` (of width `w`) with the rectangle at `(x, y)` of size `rw` by `rh`
/// painted `c`, clipped to the buffer.
pub open spec fn fill_spec(buf: Seq<u32>, w: int, x: int, y: int, rw: int, rh: int, c: u32) -> Seq<u32> {
    Seq::new(
        buf.len(),
        |i: int| if in_rect(col_of(i, w), row_of(i, w), x, y, rw, rh) { c } else { buf[i] },
    )
}

/// Pixel `(px, py)` is lit by glyph `g` drawn at `(x, y)`.
pub open spec fn glyph_covers(g: [u8; 7], x: int, y: int, px: int, py: int) -> bool {
    glyph_lit(g, py - y, px - x)
}

/// `buf` with glyph `g` drawn at `(x, y)` in colour `c` (unlit pixels kept).
pub open spec fn glyph_spec(buf: Seq<u32>, w: int, x: int, y: int, g: [u8; 7], c: u32) -> Seq<u32> {
    Seq::new(
        buf.len(),
        |i: int| if glyph_covers(g, x, y, col_of(i, w), row_of(i, w)) { c } else { buf[i] },
    )
}

/// Pixel `(px, py)` is lit by `text` drawn at `(x, y)` with the window
/// system's font, one 5-pixel glyph every 7 pixels.
pub open spec fn text_covers(text: Seq<u8>, x: int, y: int, px: int, py: int) -> bool {
    let d = px - x;
    d >= 0 && d / 7 < text.len() && glyph_covers(mini_glyph(text[d / 7]), x + (d / 7) * 7, y, px, py)
}

/// `buf` with `text` drawn at `(x, y)` in colour `c`.
pub open spec fn text_spec(buf: Seq<u32>, w: int, x: int, y: int, text: Seq<u8>, c: u32) -> Seq<u32> {
    Seq::new(
        buf.len(),
        |i: int| if text_covers(text, x, y, col_of(i, w), row_of(i, w)) { c } else { buf[i] },
    )
}

/// The buffer holds exactly `w * h` pixels.
pub open spec fn sized(buf: Seq<u32>, w: int, h: int) -> bool {
    buf.len() == w * h
}

/// Index arithmetic of a row-major buffer.
pub proof fn lemma_index(w: int, h: int, px: int, py: int)
    requires
        0 <= px < w,
        0 <= py < h,
    ensures
        0 <= py * w + px < w * h,
        (py * w + px) % w == px,
        (py * w + px) / w == py,
{
    lemma_fundamental_div_mod_converse(py * w + px, w, py, px);
    assert(py * w + px < w * h) by (nonlinear_arith)
        requires 0 <= px < w, 0 <= py < h;
    assert(0 <= py * w) by (nonlinear_arith)
        requires 0 <= py, 0 <= w;
}

/// Every index of a sized buffer is a pixel inside it.
pub proof fn lemma_pixel_of(w: int, h: int, i: int)
    requires
        0 <= w,
        0 <= h,
        0 <= i < w * h,
    ensures
        w > 0,
        0 <= col_of(i, w) < w,
        0 <= row_of(i, w) < h,
        i == row_of(i, w) * w + col_of(i, w),
{
    if w == 0 {
        assert(w * h == 0);
    }
    assert(i == (i / w) * w + i % w) by (nonlinear_arith)
        requires w > 0;
    assert(i / w < h) by (nonlinear_arith)
        requires w > 0, 0 <= i < w * h;
}

/// Paint one pixel, if it lies inside the buffer.
pub fn set_pixel(buf: &mut Vec<u32>, w: usize, h: usize, x: usize, y: usize, c: u32)
    requires
        sized(old(buf)@, w as int, h as int),
    ensures
        final(buf)@ == fill_spec(old(buf)@, w as int, x as int, y as int, 1, 1, c),
{
    let n = buf.len();
    if x < w && y < h {
        proof {
            lemma_index(w as int, h as int, x as int, y as int);
        }
        let i = y * w + x;
        buf.set(i, c);
        proof {
            assert forall|j: int| 0 <= j < buf@.len() implies buf@[j] == fill_spec(
                old(buf)@,
                w as int,
                x as int,
                y as int,
                1,
                1,
                c,
            )[j] by {
                lemma_pixel_of(w as int, h as int, j);
            }
            assert(buf@ =~= fill_spec(old(buf)@, w as int, x as int, y as int, 1, 1, c));
        }
    } else {
        proof {
            assert forall|j: int| 0 <= j < buf@.len() implies buf@[j] == fill_spec(
                old(buf)@,
                w as int,
                x as int,
                y as int,
                1,
                1,
                c,
            )[j] by {
                lemma_pixel_of(w as int, h as int, j);
            }
            assert(buf@ =~= fill_spec(old(buf)@, w as int, x as int, y as int, 1, 1, c));
        }
    }
}

/// Paint a rectangle, clipped to the buffer.
pub fn fill_rect(buf: &mut Vec<u32>, w: usize, h: usize, x: usize, y: usize, rw: usize, rh: usize, c: u32)
    requires
        sized(old(buf)@, w as int, h as int),
    ensures
        final(buf)@ == fill_spec(old(buf)@, w as int, x as int, y as int, rw as int, rh as int, c),
{
    let ghost b0 = buf@;
    let n = buf.len();
    let mut dy: usize = 0;
    while dy < rh
        invariant
            sized(b0, w as int, h as int),
            n == b0.len(),
            buf@.len() == b0.len(),
            dy <= rh,
            y >= h || y + dy <= h,
            buf@ == fill_spec(b0, w as int, x as int, y as int, rw as int, dy as int, c),
        ensures
            buf@ == fill_spec(b0, w as int, x as int, y as int, rw as int, dy as int, c),
            dy == rh || y >= h || y + dy >= h,
            dy <= rh,
            buf@.len() == b0.len(),
        decreases rh - dy,
    {
        if y >= h || y + dy >= h {
            break;
        }
        let py = y + dy;
        let mut dx: usize = 0;
        while dx < rw
            invariant
                sized(b0, w as int, h as int),
                n == b0.len(),
                buf@.len() == b0.len(),
                dx <= rw,
                py == y + dy,
                py < h,
                x >= w || x + dx <= w,
                forall|j: int|
                    0 <= j < buf@.len() ==> #[trigger] buf@[j] == if in_rect(
                        col_of(j, w as int),
                        row_of(j, w as int),
                        x as int,
                        y as int,
                        rw as int,
                        dy as int,
                    ) || in_rect(col_of(j, w as int), row_of(j, w as int), x as int, py as int, dx as int, 1) {
                        c
                    } else {
                        b0[j]
                    },
            ensures
                dx <= rw,
                buf@.len() == b0.len(),
                dx == rw || x >= w || x + dx >= w,
                forall|j: int|
                    0 <= j < buf@.len() ==> #[trigger] buf@[j] == if in_rect(
                        col_of(j, w as int),
                        row_of(j, w as int),
                        x as int,
                        y as int,
                        rw as int,
                        dy as int,
                    ) || in_rect(col_of(j, w as int), row_of(j, w as int), x as int, py as int, dx as int, 1) {
                        c
                    } else {
                        b0[j]
                    },
            decreases rw - dx,
        {
            if x >= w || x + dx >= w {
                break;
            }
            let px = x + dx;
            proof {
                lemma_index(w as int, h as int, px as int, py as int);
            }
            buf.set(py * w + px, c);
            proof {
                assert forall|j: int| 0 <= j < buf@.len() implies #[trigger] buf@[j] == if in_rect(
                    col_of(j, w as int),
                    row_of(j, w as int),
                    x as int,
                    y as int,
                    rw as int,
                    dy as int,
                ) || in_rect(col_of(j, w as int), row_of(j, w as int), x as int, py as int, dx + 1, 1) {
                    c
                } else {
                    b0[j]
                } by {
                    lemma_pixel_of(w as int, h as int, j);
                }
            }
            dx = dx + 1;
        }
        proof {
            assert forall|j: int| 0 <= j < buf@.len() implies buf@[j] == fill_spec(
                b0,
                w as int,
                x as int,
                y as int,
                rw as int,
                dy + 1,
                c,
            )[j] by {
                lemma_pixel_of(w as int, h as int, j);
            }
            assert(buf@ =~= fill_spec(b0, w as int, x as int, y as int, rw as int, dy + 1, c));
        }
        dy = dy + 1;
    }
    proof {
        assert forall|j: int| 0 <= j < buf@.len() implies buf@[j] == fill_spec(
            b0,
            w as int,
            x as int,
            y as int,
            rw as int,
            rh as int,
            c,
        )[j] by {
            lemma_pixel_of(w as int, h as int, j);
        }
        assert(buf@ =~= fill_spec(b0, w as int, x as int, y as int, rw as int, rh as int, c));
    }
}

/// Draw glyph `g` at `(x, y)` in colour `c`, clipped to the buffer.
pub fn draw_glyph(buf: &mut Vec<u32>, w: usize, h: usize, x: usize, y: usize, g: &[u8; 7], c: u32)
    requires
        sized(old(buf)@, w as int, h as int),
        x + 4 <= usize::MAX,
        y + 6 <= usize::MAX,
    ensures
        final(buf)@ == glyph_spec(old(buf)@, w as int, x as int, y as int, *g, c),
{
    let ghost b0 = buf@;
    let mut row: usize = 0;
    while row < 7
        invariant
            sized(b0, w as int, h as int),
            buf@.len() == b0.len(),
            row <= 7,
            x + 4 <= usize::MAX,
            y + 6 <= usize::MAX,
            forall|j: int|
                0 <= j < buf@.len() ==> #[trigger] buf@[j] == if glyph_covers(
                    *g,
                    x as int,
                    y as int,
                    col_of(j, w as int),
                    row_of(j, w as int),
                ) && row_of(j, w as int) - y < row {
                    c
                } else {
                    b0[j]
                },
        decreases 7 - row,
    {
        let mut col: usize = 0;
        while col < 5
            invariant
                sized(b0, w as int, h as int),
                buf@.len() == b0.len(),
                row < 7,
                col <= 5,
                x + 4 <= usize::MAX,
                y + 6 <= usize::MAX,
                forall|j: int|
                    0 <= j < buf@.len() ==> #[trigger] buf@[j] == if glyph_covers(
                        *g,
                        x as int,
                        y as int,
                        col_of(j, w as int),
                        row_of(j, w as int),
                    ) && (row_of(j, w as int) - y < row || (row_of(j, w as int) - y == row && col_of(
                        j,
                        w as int,
                    ) - x < col)) {
                        c
                    } else {
                        b0[j]
                    },
            decreases 5 - col,
        {
            if glyph_bit(g, row, col) {
                let ghost before = buf@;
                set_pixel(buf, w, h, x + col, y + row, c);
                proof {
                    assert forall|j: int| 0 <= j < buf@.len() implies #[trigger] buf@[j] == if glyph_covers(
                        *g,
                        x as int,
                        y as int,
                        col_of(j, w as int),
                        row_of(j, w as int),
                    ) && (row_of(j, w as int) - y < row || (row_of(j, w as int) - y == row
                        && col_of(j, w as int) - x < col + 1)) {
                        c
                    } else {
                        b0[j]
                    } by {
                        lemma_pixel_of(w as int, h as int, j);
                    }
                }
            } else {
                proof {
                    assert forall|j: int| 0 <= j < buf@.len() implies #[trigger] buf@[j] == if glyph_covers(
                        *g,
                        x as int,
                        y as int,
                        col_of(j, w as int),
                        row_of(j, w as int),
                    ) && (row_of(j, w as int) - y < row || (row_of(j, w as int) - y == row
                        && col_of(j, w as int) - x < col + 1)) {
                        c
                    } else {
                        b0[j]
                    } by {
                        lemma_pixel_of(w as int, h as int, j);
                    }
                }
            }
            col = col + 1;
        }
        row = row + 1;
    }
    proof {
        assert(buf@ =~= glyph_spec(b0, w as int, x as int, y as int, *g, c));
    }
}

/// `text_spec` for one more character is the glyph of that character drawn
/// over the text so far.
proof fn lemma_text_step(b: Seq<u32>, w: int, hh: int, x: int, y: int, text: Seq<u8>, k: int, c: u32)
    requires
        0 <= k < text.len(),
        sized(b, w, hh),
        w >= 0,
        hh >= 0,
    ensures
        text_spec(b, w, x, y, text.subrange(0, k + 1), c) == glyph_spec(
            text_spec(b, w, x, y, text.subrange(0, k), c),
            w,
            x + 7 * k,
            y,
            mini_glyph(text[k]),
            c,
        ),
{
    let lhs = text_spec(b, w, x, y, text.subrange(0, k + 1), c);
    let rhs = glyph_spec(
        text_spec(b, w, x, y, text.subrange(0, k), c),
        w,
        x + 7 * k,
        y,
        mini_glyph(text[k]),
        c,
    );
    assert forall|j: int| 0 <= j < lhs.len() implies lhs[j] == rhs[j] by {
        let px = col_of(j, w);
        let d = px - x;
        if glyph_covers(mini_glyph(text[k]), x + 7 * k, y, px, row_of(j, w)) {
            assert(d / 7 == k);
        }
    }
    assert(lhs =~= rhs);
}

/// Draw `text` at `(x, y)` in colour `c` with the window system's font,
/// advancing 7 pixels per character, clipped to the buffer.
pub fn draw_text(buf: &mut Vec<u32>, w: usize, h: usize, x: usize, y: usize, text: &[u8], c: u32)
    requires
        sized(old(buf)@, w as int, h as int),
        x + 7 * text@.len() + 4 <= usize::MAX,
        y + 6 <= usize::MAX,
    ensures
        final(buf)@ == text_spec(old(buf)@, w as int, x as int, y as int, text@, c),
{
    let ghost b0 = buf@;
    let mut k: usize = 0;
    let mut cx = x;
    proof {
        assert(text_spec(b0, w as int, x as int, y as int, text@.subrange(0, 0), c) =~= b0);
    }
    while k < text.len()
        invariant
            sized(b0, w as int, h as int),
            buf@.len() == b0.len(),
            k <= text@.len(),
            cx == x + 7 * k,
            x + 7 * text@.len() + 4 <= usize::MAX,
            y + 6 <= usize::MAX,
            buf@ == text_spec(b0, w as int, x as int, y as int, text@.subrange(0, k as int), c),
        decreases text@.len() - k,
    {
        let g = get_mini_glyph(text[k]);
        draw_glyph(buf, w, h, cx, y, &g, c);
        proof {
            lemma_text_step(b0, w as int, h as int, x as int, y as int, text@, k as int, c);
        }
        cx = cx + 7;
        k = k + 1;
    }
    proof {
        assert(text@.subrange(0, k as int) =~= text@);
    }
}

} // verus!

