use vstd::prelude::*;
use vstd::string::*;
use vstd::arithmetic::div_mod::lemma_fundamental_div_mod_converse;
use font8x8::{BASIC_FONTS, UnicodeFonts};
use crate::framebuffer::Framebuffer;
use crate::draw::{painted, fill_rect, lemma_painted_nothing, lemma_painted_trans, lemma_painted_same_region, lemma_cell_of, lemma_block_of_cell, bx_of};

verus! {

/// The 8x8 bitmap that the basic font holds for `c`: eight rows from top to
/// bottom, bit `k` of a row being column `k` from the left.
pub uninterp spec fn basic_glyph(c: char) -> Option<[u8; 8]>;

/// Looks `c` up in `font8x8::BASIC_FONTS` through `UnicodeFonts::get`.
/// Trusted: the result is the font's bitmap for `c`, named `basic_glyph(c)`;
/// the crate's table holds exactly the characters U+0000 to U+007F, in order,
/// so a bitmap is found exactly for those.  The bitmaps themselves are not stated.
#[verifier::external_body]
fn basic_font_glyph(c: char) -> (g: Option<[u8; 8]>)
    ensures
        g == basic_glyph(c),
        g is Some <==> (c as u32) < 128,
{
    BASIC_FONTS.get(c)
}

/// Whether every pixel row that drawing `glyph` with its top at `y0` computes
/// is a `usize`: the rows of each bitmap row that has a set cell.
pub open spec fn glyph_rows_fit(glyph: Option<[u8; 8]>, y0: int, scale: int) -> bool {
    scale == 0 || match glyph {
        None => true,
        Some(g) => forall|r: int| 0 <= r < 8 && #[trigger] g@[r] != 0 ==> y0 + r * scale + scale - 1 <= usize::MAX,
    }
}

/// A set row of a glyph whose rows fit ends at a `usize`.
proof fn lemma_row_fits(glyph: [u8; 8], y0: int, scale: int, r: int)
    requires
        glyph_rows_fit(Some(glyph), y0, scale),
        0 <= r < 8,
        glyph@[r] != 0,
    ensures
        scale == 0 || y0 + r * scale + scale - 1 <= usize::MAX,
{
    if scale != 0 {
        let g = Some(glyph)->0;
        assert(forall|k: int| 0 <= k < 8 && #[trigger] g@[k] != 0 ==> y0 + k * scale + scale - 1 <= usize::MAX);
        assert(g@[r] != 0);
    }
}

/// Whether writing `text` at `(start_x, start_y)` computes only `usize`
/// positions: the pen's position after the last character, and the rows
/// of every set cell of every character.
pub open spec fn text_fits(text: Seq<char>, start_x: int, start_y: int, scale: int) -> bool {
    &&& start_x + text.len() * (8 * scale + 2) <= usize::MAX
    &&& forall|k: int| 0 <= k < text.len() ==> glyph_rows_fit(basic_glyph(#[trigger] text[k]), start_y, scale)
}

/// Whether column `col` of bitmap row `row` is set.
pub open spec fn glyph_bit(glyph: [u8; 8], row: int, col: int) -> bool {
    &&& 0 <= row < 8
    &&& 0 <= col < 8
    &&& (glyph@[row] & (1u8 << (col as u8))) != 0
}

/// Whether the pixel `(px, py)` is lit when `glyph` is drawn with its top
/// left corner at `(gx, gy)`, each bitmap cell becoming a `scale` by `scale` block.
pub open spec fn glyph_lit(glyph: [u8; 8], gx: int, gy: int, scale: int, px: int, py: int) -> bool {
    &&& scale > 0
    &&& gx <= px < gx + 8 * scale
    &&& gy <= py < gy + 8 * scale
    &&& glyph_bit(glyph, (py - gy) / scale, (px - gx) / scale)
}

/// The horizontal distance between the left edges of consecutive characters.
pub open spec fn char_pitch(scale: int) -> int {
    8 * scale + 2
}

/// The left edge of the character at `index` in a text that starts at `x0`.
pub open spec fn char_left(x0: int, scale: int, index: int) -> int {
    x0 + index * char_pitch(scale)
}

/// Whether `(px, py)` is lit by character `index` of `text`: a character
/// that the basic font does not hold lights nothing.
pub open spec fn char_lit(text: Seq<char>, x0: int, y0: int, scale: int, index: int, px: int, py: int) -> bool {
    &&& 0 <= index < text.len()
    &&& match basic_glyph(text[index]) {
        Some(g) => glyph_lit(g, char_left(x0, scale, index), y0, scale, px, py),
        None => false,
    }
}

/// Whether `(px, py)` is lit when `text` is written with its top left corner
/// at `(x0, y0)`: the pixel's character is found by its distance from `x0`.
pub open spec fn text_lit(text: Seq<char>, x0: int, y0: int, scale: int, px: int, py: int) -> bool {
    &&& scale > 0
    &&& x0 <= px
    &&& char_lit(text, x0, y0, scale, (px - x0) / char_pitch(scale), px, py)
}

/// The same as `text_lit`, for the characters before `count` only.
pub open spec fn text_lit_prefix(text: Seq<char>, x0: int, y0: int, scale: int, count: int, px: int, py: int) -> bool {
    &&& text_lit(text, x0, y0, scale, px, py)
    &&& (px - x0) / char_pitch(scale) < count
}

/// Paints the `scale` by `scale` blocks of the set cells of `glyph`, drawn
/// with its top left corner at `(gx, gy)` in the current colour.
pub fn draw_glyph(fb: &mut Framebuffer, glyph: [u8; 8], gx: usize, gy: usize, scale: usize)
    requires
        gx + 8 * scale <= usize::MAX,
        glyph_rows_fit(Some(glyph), gy as int, scale as int),
    ensures
        painted(old(fb)@, final(fb)@, |px: int, py: int| glyph_lit(glyph, gx as int, gy as int, scale as int, px, py)),
{
    let ghost start = fb@;
    let ghost s = scale as int;
    let fb_height = fb.height();
    // cells of rows before `r`, and of row `r` before column `c`
    let ghost done = |r: int, c: int| |px: int, py: int|
        glyph_lit(glyph, gx as int, gy as int, s, px, py)
            && ((py - gy) / s < r || ((py - gy) / s == r && (px - gx) / s < c));
    proof {
        lemma_painted_nothing(start);
        lemma_painted_same_region(start, fb@, |px: int, py: int| false, done(0, 0));
    }
    let mut y: usize = 0;
    while y < 8
        invariant
            y <= 8,
            gx + 8 * scale <= usize::MAX,
            glyph_rows_fit(Some(glyph), gy as int, scale as int),
            fb_height == start.height,
            s == scale,
            start.current == fb@.current,
            done == (|r: int, c: int| |px: int, py: int|
                glyph_lit(glyph, gx as int, gy as int, s, px, py)
                    && ((py - gy) / s < r || ((py - gy) / s == r && (px - gx) / s < c))),
            painted(start, fb@, done(y as int, 0)),
        decreases 8 - y,
    {
        let row: u8 = glyph[y];
        let mut x: usize = 0;
        while x < 8
            invariant
                y < 8,
                x <= 8,
                row == glyph@[y as int],
                gx + 8 * scale <= usize::MAX,
                glyph_rows_fit(Some(glyph), gy as int, scale as int),
                fb_height == start.height,
                s == scale,
                start.current == fb@.current,
                done == (|r: int, c: int| |px: int, py: int|
                    glyph_lit(glyph, gx as int, gy as int, s, px, py)
                        && ((py - gy) / s < r || ((py - gy) / s == r && (px - gx) / s < c))),
                painted(start, fb@, done(y as int, x as int)),
            decreases 8 - x,
        {
            let ghost before = fb@;
            let lit = (row & (1u8 << (x as u8))) != 0;
            if lit {
                assert(x * scale <= 7 * scale) by (nonlinear_arith)
                    requires
                        x < 8,
                ;
                assert(row != 0) by (bit_vector)
                    requires
                        (row & (1u8 << (x as u8))) != 0,
                ;
                proof {
                    lemma_row_fits(glyph, gy as int, scale as int, y as int);
                }
                assert(y * scale <= gy + y * scale) by (nonlinear_arith)
                    requires
                        y < 8,
                ;
                let bx = gx + x * scale;
                let by = gy + y * scale;
                let by_end = if scale == 0 {
                    by
                } else if by + (scale - 1) < usize::MAX {
                    by + scale
                } else {
                    usize::MAX
                };
                let ghost mid = fb@;
                fill_rect(fb, bx, bx + scale, by, by_end);
                proof {
                    lemma_painted_same_region(
                        mid,
                        fb@,
                        |px: int, py: int| bx <= px < bx + scale && by <= py < by_end,
                        |px: int, py: int| bx <= px < bx + scale && by <= py < by + scale,
                    );
                    lemma_painted_trans(
                        start,
                        before,
                        fb@,
                        done(y as int, x as int),
                        |px: int, py: int| bx <= px < bx + scale && by <= py < by + scale,
                    );
                }
            }
            proof {
                let r1 = if lit {
                    |px: int, py: int| done(y as int, x as int)(px, py) || (bx_of(gx as int, x as int, s) <= px < bx_of(gx as int, x as int, s) + s && bx_of(gy as int, y as int, s) <= py < bx_of(gy as int, y as int, s) + s)
                } else {
                    done(y as int, x as int)
                };
                assert forall|px: int, py: int| #![trigger done(y as int, x as int + 1)(px, py)] start.in_bounds(px, py)
                    implies (r1(px, py) <==> done(y as int, x as int + 1)(px, py)) by {
                    if s > 0 && bx_of(gx as int, x as int, s) <= px < bx_of(gx as int, x as int, s) + s
                        && bx_of(gy as int, y as int, s) <= py < bx_of(gy as int, y as int, s) + s {
                        lemma_cell_of(gx as int, s, x as int, px);
                        lemma_cell_of(gy as int, s, y as int, py);
                        assert(x * s + s <= 8 * s) by (nonlinear_arith)
                            requires
                                x < 8,
                                s > 0,
                        ;
                        assert(y * s + s <= 8 * s) by (nonlinear_arith)
                            requires
                                y < 8,
                                s > 0,
                        ;
                    }
                    if glyph_lit(glyph, gx as int, gy as int, s, px, py) && (py - gy) / s == y && (px - gx) / s == x {
                        lemma_block_of_cell(gx as int, s, x as int, px);
                        lemma_block_of_cell(gy as int, s, y as int, py);
                    }
                }
                lemma_painted_same_region(start, fb@, r1, done(y as int, x as int + 1));
            }
            x = x + 1;
        }
        proof {
            assert forall|px: int, py: int| #![trigger done(y as int + 1, 0)(px, py)] start.in_bounds(px, py)
                implies (done(y as int, 8)(px, py) <==> done(y as int + 1, 0)(px, py)) by {
            }
            lemma_painted_same_region(start, fb@, done(y as int, 8), done(y as int + 1, 0));
        }
        y = y + 1;
    }
    proof {
        assert forall|px: int, py: int| #![trigger glyph_lit(glyph, gx as int, gy as int, s, px, py)] start.in_bounds(px, py)
            implies (done(8, 0)(px, py) <==> glyph_lit(glyph, gx as int, gy as int, s, px, py)) by {
        }
        lemma_painted_same_region(start, fb@, done(8, 0), |px: int, py: int| glyph_lit(glyph, gx as int, gy as int, s, px, py));
    }
}

/// Writes `text` in the basic 8x8 font with its top left corner at
/// `(start_x, start_y)`, each font cell becoming a `scale` by `scale` block in
/// the current colour, characters `8 * scale + 2` pixels apart; pixels off
/// the grid, and characters the font lacks, are skipped.
pub fn draw_text(framebuffer: &mut Framebuffer, text: &str, start_x: usize, start_y: usize, scale: usize)
    requires
        text_fits(text@, start_x as int, start_y as int, scale as int),
    ensures
        painted(
            old(framebuffer)@,
            final(framebuffer)@,
            |px: int, py: int| text_lit(text@, start_x as int, start_y as int, scale as int, px, py),
        ),
{
    let ghost start = framebuffer@;
    let ghost t = text@;
    let ghost s = scale as int;
    proof {
        lemma_painted_nothing(start);
        lemma_painted_same_region(
            start,
            framebuffer@,
            |px: int, py: int| false,
            |px: int, py: int| text_lit_prefix(t, start_x as int, start_y as int, s, 0, px, py),
        );
    }
    let n = text.unicode_len();
    let mut x_offset = start_x;
    let mut k: usize = 0;
    while k < n
        invariant
            k <= n,
            n == t.len(),
            t == text@,
            s == scale,
            text_fits(t, start_x as int, start_y as int, scale as int),
            x_offset == char_left(start_x as int, s, k as int),
            start.current == framebuffer@.current,
            painted(
                start,
                framebuffer@,
                |px: int, py: int| text_lit_prefix(t, start_x as int, start_y as int, s, k as int, px, py),
            ),
        decreases n - k,
    {
        assert((k + 1) * (8 * scale + 2) <= t.len() * (8 * scale + 2)) by (nonlinear_arith)
            requires
                k < t.len(),
        ;
        assert((k + 1) * (8 * scale + 2) == k * (8 * scale + 2) + 8 * scale + 2) by (nonlinear_arith);
        let c = text.get_char(k);
        let ghost before = framebuffer@;
        match basic_font_glyph(c) {
            Some(glyph) => {
                draw_glyph(framebuffer, glyph, x_offset, start_y, scale);
                proof {
                    lemma_painted_trans(
                        start,
                        before,
                        framebuffer@,
                        |px: int, py: int| text_lit_prefix(t, start_x as int, start_y as int, s, k as int, px, py),
                        |px: int, py: int| glyph_lit(glyph, x_offset as int, start_y as int, s, px, py),
                    );
                }
            },
            None => {},
        }
        proof {
            let prev = |px: int, py: int| text_lit_prefix(t, start_x as int, start_y as int, s, k as int, px, py);
            let r1 = match basic_glyph(c) {
                Some(g) => |px: int, py: int| prev(px, py) || glyph_lit(g, x_offset as int, start_y as int, s, px, py),
                None => prev,
            };
            let next = |px: int, py: int| text_lit_prefix(t, start_x as int, start_y as int, s, k as int + 1, px, py);
            assert forall|px: int, py: int| #![trigger next(px, py)] start.in_bounds(px, py)
                implies (r1(px, py) <==> next(px, py)) by {
                if s > 0 && x_offset <= px < x_offset + 8 * s {
                    lemma_char_of(start_x as int, s, k as int, px);
                }
            }
            lemma_painted_same_region(start, framebuffer@, r1, next);
        }
        x_offset = x_offset + 8 * scale + 2;
        k = k + 1;
    }
    proof {
        let whole = |px: int, py: int| text_lit(t, start_x as int, start_y as int, s, px, py);
        assert forall|px: int, py: int| #![trigger whole(px, py)] start.in_bounds(px, py)
            implies (text_lit_prefix(t, start_x as int, start_y as int, s, k as int, px, py) <==> whole(px, py)) by {
        }
        lemma_painted_same_region(
            start,
            framebuffer@,
            |px: int, py: int| text_lit_prefix(t, start_x as int, start_y as int, s, k as int, px, py),
            whole,
        );
    }
}

/// A set row of a glyph that ends past `usize::MAX` breaks the fit.
proof fn lemma_row_breaks(glyph: [u8; 8], y0: int, scale: int, r: int)
    requires
        0 <= r < 8,
        glyph@[r] != 0,
        scale != 0,
        y0 + r * scale + scale - 1 > usize::MAX,
    ensures
        !glyph_rows_fit(Some(glyph), y0, scale),
{
    if glyph_rows_fit(Some(glyph), y0, scale) {
        lemma_row_fits(glyph, y0, scale, r);
    }
}

/// Whether `glyph` drawn with its top at `y0` computes only `usize` rows.
fn glyph_fits(glyph: Option<[u8; 8]>, y0: usize, scale: usize) -> (fits: bool)
    ensures
        fits == glyph_rows_fit(glyph, y0 as int, scale as int),
{
    if scale == 0 {
        return true;
    }
    match glyph {
        None => true,
        Some(g) => {
            let mut r: usize = 0;
            while r < 8
                invariant
                    r <= 8,
                    scale > 0,
                    glyph == Some(g),
                    forall|k: int| 0 <= k < r && #[trigger] g@[k] != 0 ==> y0 + k * scale + scale - 1 <= usize::MAX,
                decreases 8 - r,
            {
                if g[r] != 0 {
                    let end = match r.checked_mul(scale) {
                        Some(v) => match v.checked_add(y0) {
                            Some(w) => w.checked_add(scale - 1),
                            None => None,
                        },
                        None => None,
                    };
                    if end.is_none() {
                        assert(y0 + r * scale + scale - 1 > usize::MAX) by (nonlinear_arith)
                            requires
                                scale > 0,
                                r * scale > usize::MAX || r * scale + y0 > usize::MAX || r * scale + y0 + scale - 1 > usize::MAX,
                        ;
                        proof {
                            lemma_row_breaks(g, y0 as int, scale as int, r as int);
                            assert(!glyph_rows_fit(glyph, y0 as int, scale as int));
                        }
                        return false;
                    }
                }
                r = r + 1;
            }
            true
        },
    }
}

/// Whether writing `text` at `(start_x, start_y)` with the given scale
/// computes only `usize` positions.
pub fn text_fits_at(text: &str, start_x: usize, start_y: usize, scale: usize) -> (fits: bool)
    ensures
        fits == text_fits(text@, start_x as int, start_y as int, scale as int),
{
    let n = text.unicode_len();
    if n == 0 {
        assert(text@.len() * (8 * scale + 2) == 0) by (nonlinear_arith)
            requires
                text@.len() == 0,
        ;
    }
    if n > 0 {
        let pitch = match scale.checked_mul(8) {
            Some(v) => v.checked_add(2),
            None => None,
        };
        match pitch {
            None => {
                assert(start_x + n * (8 * scale + 2) > usize::MAX) by (nonlinear_arith)
                    requires
                        8 * scale + 2 > usize::MAX,
                        n >= 1,
                ;
                return false;
            },
            Some(p) => {
                assert(p == 8 * scale + 2);
                let last = match n.checked_mul(p) {
                    Some(w) => start_x.checked_add(w),
                    None => None,
                };
                if last.is_none() {
                    assert(start_x + n * p > usize::MAX) by (nonlinear_arith)
                        requires
                            n * p > usize::MAX || start_x + n * p > usize::MAX,
                    ;
                    return false;
                }
                assert(start_x + n * p <= usize::MAX);
                assert(start_x + text@.len() * (8 * scale + 2) <= usize::MAX);
            },
        }
    }
    let mut k: usize = 0;
    while k < n
        invariant
            k <= n,
            n == text@.len(),
            start_x + text@.len() * (8 * scale + 2) <= usize::MAX,
            forall|j: int| 0 <= j < k ==> glyph_rows_fit(basic_glyph(#[trigger] text@[j]), start_y as int, scale as int),
        decreases n - k,
    {
        let c = text.get_char(k);
        if !glyph_fits(basic_font_glyph(c), start_y, scale) {
            return false;
        }
        k = k + 1;
    }
    true
}

/// Writes `text` as `draw_text` does where every position it computes is a
/// `usize`, and otherwise leaves the frame untouched; says which it did.
pub fn write_text(framebuffer: &mut Framebuffer, text: &str, start_x: usize, start_y: usize, scale: usize) -> (written: bool)
    ensures
        written == text_fits(text@, start_x as int, start_y as int, scale as int),
        written ==> painted(
            old(framebuffer)@,
            final(framebuffer)@,
            |px: int, py: int| text_lit(text@, start_x as int, start_y as int, scale as int, px, py),
        ),
        !written ==> final(framebuffer)@ == old(framebuffer)@,
{
    if text_fits_at(text, start_x, start_y, scale) {
        draw_text(framebuffer, text, start_x, start_y, scale);
        true
    } else {
        false
    }
}

/// A point inside the drawing box of character `k` belongs to character `k`.
proof fn lemma_char_of(x0: int, scale: int, k: int, p: int)
    requires
        scale > 0,
        k >= 0,
        char_left(x0, scale, k) <= p < char_left(x0, scale, k) + 8 * scale,
    ensures
        (p - x0) / char_pitch(scale) == k,
{
    lemma_fundamental_div_mod_converse(p - x0, char_pitch(scale), k, p - char_left(x0, scale, k));
}

} // verus!
