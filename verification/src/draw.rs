use vstd::prelude::*;
use crate::framebuffer::{FrameState, Framebuffer, lemma_pixel_index};

verus! {

/// `after` is `before` with every grid pixel inside `region` painted with
/// `before`'s current colour, and every other pixel left as it was.
pub open spec fn painted(before: FrameState, after: FrameState, region: spec_fn(int, int) -> bool) -> bool {
    &&& before.same_frame(after)
    &&& forall|x: int, y: int|
        #![trigger after.pixel(x, y)]
        after.in_bounds(x, y) ==> after.pixel(x, y) == (if region(x, y) {
            before.current
        } else {
            before.pixel(x, y)
        })
}

/// Painting nothing leaves the frame as it is.
pub proof fn lemma_painted_nothing(s: FrameState)
    ensures
        painted(s, s, |x: int, y: int| false),
{
}

/// Plotting one more pixel extends the painted region by that pixel.
pub proof fn lemma_painted_plot(a: FrameState, b: FrameState, region: spec_fn(int, int) -> bool, x: int, y: int)
    requires
        b.well_formed(),
        painted(a, b, region),
    ensures
        painted(a, b.plot(x, y), |px: int, py: int| region(px, py) || (px == x && py == y)),
{
    let c = b.plot(x, y);
    if b.in_bounds(x, y) {
        lemma_pixel_index(b.width, b.height, x, y, x, y);
    }
    assert forall|px: int, py: int| c.in_bounds(px, py) implies #[trigger] c.pixel(px, py) == (if region(px, py) || (px == x && py == y) {
        a.current
    } else {
        a.pixel(px, py)
    }) by {
        assert(b.pixel(px, py) == (if region(px, py) { a.current } else { a.pixel(px, py) }));
        if b.in_bounds(x, y) {
            lemma_pixel_index(b.width, b.height, px, py, x, y);
            lemma_pixel_index(b.width, b.height, x, y, x, y);
            if px == x && py == y {
                assert(c.pixel(px, py) == a.current);
            } else {
                assert(c.pixel(px, py) == b.pixel(px, py));
            }
        }
    }
    assert(a.same_frame(c));
}

/// Plotting a pixel paints exactly that pixel.
pub proof fn lemma_plot_painted(b: FrameState, x: int, y: int)
    requires
        b.well_formed(),
    ensures
        painted(b, b.plot(x, y), |px: int, py: int| px == x && py == y),
{
    lemma_painted_nothing(b);
    lemma_painted_plot(b, b, |px: int, py: int| false, x, y);
    lemma_painted_same_region(
        b,
        b.plot(x, y),
        |px: int, py: int| false || (px == x && py == y),
        |px: int, py: int| px == x && py == y,
    );
}

/// Painting is monotone in time: painting `r1` and then `r2` paints their union.
pub proof fn lemma_painted_trans(
    a: FrameState,
    b: FrameState,
    c: FrameState,
    r1: spec_fn(int, int) -> bool,
    r2: spec_fn(int, int) -> bool,
)
    requires
        painted(a, b, r1),
        painted(b, c, r2),
    ensures
        painted(a, c, |x: int, y: int| r1(x, y) || r2(x, y)),
{
    assert forall|x: int, y: int| c.in_bounds(x, y) implies #[trigger] c.pixel(x, y) == (if r1(x, y) || r2(x, y) {
        a.current
    } else {
        a.pixel(x, y)
    }) by {
        assert(b.pixel(x, y) == (if r1(x, y) { a.current } else { a.pixel(x, y) }));
    }
}

/// A painted region may be restated by any region that agrees with it on the grid.
pub proof fn lemma_painted_same_region(
    a: FrameState,
    b: FrameState,
    r1: spec_fn(int, int) -> bool,
    r2: spec_fn(int, int) -> bool,
)
    requires
        painted(a, b, r1),
        forall|x: int, y: int| #![trigger r2(x, y)] a.in_bounds(x, y) ==> (r1(x, y) <==> r2(x, y)),
    ensures
        painted(a, b, r2),
{
    assert forall|x: int, y: int| b.in_bounds(x, y) implies #[trigger] b.pixel(x, y) == (if r2(x, y) {
        a.current
    } else {
        a.pixel(x, y)
    }) by {
        assert(r1(x, y) <==> r2(x, y));
    }
}

/// `after` is `before` with each grid pixel for which `paint` gives a colour
/// set to that colour, and every other pixel left as it was; dimensions and
/// background stay, the current colour may change.
pub open spec fn recolored(before: FrameState, after: FrameState, paint: spec_fn(int, int) -> Option<u32>) -> bool {
    &&& before.width == after.width
    &&& before.height == after.height
    &&& before.background == after.background
    &&& before.pixels.len() == after.pixels.len()
    &&& forall|x: int, y: int|
        #![trigger after.pixel(x, y)]
        after.in_bounds(x, y) ==> after.pixel(x, y) == (match paint(x, y) {
            Some(c) => c,
            None => before.pixel(x, y),
        })
}

/// The colouring in which the later of two colourings wins where both paint.
pub open spec fn overlay(under: spec_fn(int, int) -> Option<u32>, over: spec_fn(int, int) -> Option<u32>) -> spec_fn(int, int) -> Option<u32> {
    |x: int, y: int| if over(x, y) is Some { over(x, y) } else { under(x, y) }
}

/// Painting a region with one colour is a recolouring.
pub proof fn lemma_painted_recolored(a: FrameState, b: FrameState, region: spec_fn(int, int) -> bool)
    requires
        painted(a, b, region),
    ensures
        recolored(a, b, |x: int, y: int| if region(x, y) { Some(a.current) } else { None }),
{
    assert forall|x: int, y: int| b.in_bounds(x, y) implies #[trigger] b.pixel(x, y) == (match (if region(x, y) { Some(a.current) } else { None }) {
        Some(c) => c,
        None => a.pixel(x, y),
    }) by {
    }
}

/// Recolouring twice recolours by the overlay of the two colourings.
pub proof fn lemma_recolored_trans(
    a: FrameState,
    b: FrameState,
    c: FrameState,
    f: spec_fn(int, int) -> Option<u32>,
    g: spec_fn(int, int) -> Option<u32>,
)
    requires
        recolored(a, b, f),
        recolored(b, c, g),
    ensures
        recolored(a, c, overlay(f, g)),
{
    assert forall|x: int, y: int| c.in_bounds(x, y) implies #[trigger] c.pixel(x, y) == (match overlay(f, g)(x, y) {
        Some(k) => k,
        None => a.pixel(x, y),
    }) by {
        assert(b.pixel(x, y) == (match f(x, y) { Some(k) => k, None => a.pixel(x, y) }));
    }
}

/// Changing only the current colour keeps a recolouring.
pub proof fn lemma_recolored_current(a: FrameState, b: FrameState, color: u32, f: spec_fn(int, int) -> Option<u32>)
    requires
        recolored(a, b, f),
    ensures
        recolored(a, FrameState { current: color, ..b }, f),
{
    let c = FrameState { current: color, ..b };
    assert forall|x: int, y: int| c.in_bounds(x, y) implies #[trigger] c.pixel(x, y) == (match f(x, y) {
        Some(k) => k,
        None => a.pixel(x, y),
    }) by {
        assert(c.pixel(x, y) == b.pixel(x, y));
    }
}

/// A recolouring may be restated by any colouring that agrees with it on the grid.
pub proof fn lemma_recolored_same(
    a: FrameState,
    b: FrameState,
    f: spec_fn(int, int) -> Option<u32>,
    g: spec_fn(int, int) -> Option<u32>,
)
    requires
        recolored(a, b, f),
        forall|x: int, y: int| #![trigger g(x, y)] a.in_bounds(x, y) ==> f(x, y) == g(x, y),
    ensures
        recolored(a, b, g),
{
    assert forall|x: int, y: int| b.in_bounds(x, y) implies #[trigger] b.pixel(x, y) == (match g(x, y) {
        Some(k) => k,
        None => a.pixel(x, y),
    }) by {
        assert(f(x, y) == g(x, y));
    }
}

/// A point in block `k` of width `scale` from `origin` lies in cell `k`.
pub proof fn lemma_cell_of(origin: int, scale: int, k: int, p: int)
    requires
        scale > 0,
        origin + k * scale <= p < origin + k * scale + scale,
    ensures
        (p - origin) / scale == k,
{
    vstd::arithmetic::div_mod::lemma_fundamental_div_mod_converse(p - origin, scale, k, p - origin - k * scale);
}

/// The left or top edge of block `k` of width `scale` from `origin`.
pub open spec fn bx_of(origin: int, k: int, scale: int) -> int {
    origin + k * scale
}

/// A point in cell `k` of width `scale` from `origin` lies in block `k`.
pub proof fn lemma_block_of_cell(origin: int, scale: int, k: int, p: int)
    requires
        scale > 0,
        origin <= p,
        (p - origin) / scale == k,
    ensures
        bx_of(origin, k, scale) <= p < bx_of(origin, k, scale) + scale,
{
    vstd::arithmetic::div_mod::lemma_fundamental_div_mod(p - origin, scale);
    assert(scale * k == k * scale) by (nonlinear_arith);
}

/// Paints the pixels of column `x` in rows `y0 .. y1` with the current colour.
pub fn fill_column(fb: &mut Framebuffer, x: usize, y0: usize, y1: usize)
    ensures
        painted(old(fb)@, final(fb)@, |px: int, py: int| px == x && y0 <= py < y1),
{
    let ghost start = fb@;
    proof {
        lemma_painted_nothing(start);
    }
    let mut y = y0;
    while y < y1
        invariant
            y0 <= y,
            y <= y1 || y == y0,
            start.current == fb@.current,
            painted(start, fb@, |px: int, py: int| px == x && y0 <= py < y),
        decreases y1 - y,
    {
        let ghost before = fb@;
        fb.point(x, y);
        proof {
            lemma_painted_plot(start, before, |px: int, py: int| px == x && y0 <= py < y, x as int, y as int);
            lemma_painted_same_region(
                start,
                fb@,
                |px: int, py: int| (px == x && y0 <= py < y) || (px == x && py == y),
                |px: int, py: int| px == x && y0 <= py < y + 1,
            );
        }
        y = y + 1;
    }
    proof {
        lemma_painted_same_region(
            start,
            fb@,
            |px: int, py: int| px == x && y0 <= py < y,
            |px: int, py: int| px == x && y0 <= py < y1,
        );
    }
}

/// Paints the rectangle of columns `x0 .. x1` and rows `y0 .. y1` with the
/// current colour, column by column.
pub fn fill_rect(fb: &mut Framebuffer, x0: usize, x1: usize, y0: usize, y1: usize)
    ensures
        painted(old(fb)@, final(fb)@, |px: int, py: int| x0 <= px < x1 && y0 <= py < y1),
{
    let ghost start = fb@;
    proof {
        lemma_painted_nothing(start);
    }
    let mut x = x0;
    while x < x1
        invariant
            x0 <= x,
            x <= x1 || x == x0,
            start.current == fb@.current,
            painted(start, fb@, |px: int, py: int| x0 <= px < x && y0 <= py < y1),
        decreases x1 - x,
    {
        let ghost before = fb@;
        fill_column(fb, x, y0, y1);
        proof {
            lemma_painted_trans(
                start,
                before,
                fb@,
                |px: int, py: int| x0 <= px < x && y0 <= py < y1,
                |px: int, py: int| px == x && y0 <= py < y1,
            );
            lemma_painted_same_region(
                start,
                fb@,
                |px: int, py: int| (x0 <= px < x && y0 <= py < y1) || (px == x && y0 <= py < y1),
                |px: int, py: int| x0 <= px < x + 1 && y0 <= py < y1,
            );
        }
        x = x + 1;
    }
    proof {
        lemma_painted_same_region(
            start,
            fb@,
            |px: int, py: int| x0 <= px < x && y0 <= py < y1,
            |px: int, py: int| x0 <= px < x1 && y0 <= py < y1,
        );
    }
}

} // verus!
