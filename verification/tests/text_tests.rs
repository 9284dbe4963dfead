use liminal_maze::framebuffer::Framebuffer;
use liminal_maze::text::{draw_text, text_fits_at, write_text};

fn lit(fb: &Framebuffer) -> usize {
    fb.buffer().iter().filter(|&&p| p != 0).count()
}

#[test]
fn letter_a_at_scale_one() {
    let mut fb = Framebuffer::new(12, 10);
    draw_text(&mut fb, "A", 0, 0, 1);
    // top row of 'A' is 0x0C: columns 2 and 3
    assert_eq!(fb.pixel(2, 0), Some(0xFFFFFF));
    assert_eq!(fb.pixel(3, 0), Some(0xFFFFFF));
    assert_eq!(fb.pixel(1, 0), Some(0));
    // third row is 0x33: columns 0, 1, 4, 5
    for x in [0, 1, 4, 5] {
        assert_eq!(fb.pixel(x, 2), Some(0xFFFFFF));
    }
    assert_eq!(fb.pixel(2, 2), Some(0));
    // the bottom row is empty
    assert!((0..8).all(|x| fb.pixel(x, 7) == Some(0)));
    assert_eq!(lit(&fb), 28);
}

#[test]
fn scale_makes_blocks() {
    let mut fb = Framebuffer::new(20, 20);
    fb.set_current_color(0x00AA00);
    draw_text(&mut fb, "A", 1, 1, 2);
    for (x, y) in [(5, 1), (6, 1), (7, 1), (8, 1), (5, 2), (8, 2)] {
        assert_eq!(fb.pixel(x, y), Some(0x00AA00));
    }
    assert_eq!(fb.pixel(4, 1), Some(0));
    assert_eq!(lit(&fb), 28 * 4);
}

#[test]
fn characters_are_eight_scale_plus_two_apart() {
    let mut fb = Framebuffer::new(30, 10);
    draw_text(&mut fb, "AA", 0, 0, 1);
    assert_eq!(fb.pixel(12, 0), Some(0xFFFFFF));
    assert_eq!(fb.pixel(13, 0), Some(0xFFFFFF));
    assert_eq!(fb.pixel(11, 0), Some(0));
    assert_eq!(lit(&fb), 56);
}

#[test]
fn characters_outside_the_font_draw_nothing_but_take_room() {
    let mut fb = Framebuffer::new(30, 10);
    draw_text(&mut fb, "\u{e9}A", 0, 0, 1);
    assert_eq!(fb.pixel(2, 0), Some(0));
    assert_eq!(fb.pixel(12, 0), Some(0xFFFFFF));
    assert_eq!(lit(&fb), 28);
}

#[test]
fn scale_zero_draws_nothing() {
    let mut fb = Framebuffer::new(30, 10);
    draw_text(&mut fb, "AAA", 0, 0, 0);
    assert_eq!(lit(&fb), 0);
}

#[test]
fn text_is_clipped_to_the_screen() {
    let mut fb = Framebuffer::new(4, 4);
    draw_text(&mut fb, "A", 2, 2, 1);
    // only the top left 2x2 cells of the glyph fall on the grid; of them only
    // row 1, column 1 is set
    assert_eq!(fb.pixel(2, 2), Some(0));
    assert_eq!(fb.pixel(3, 3), Some(0xFFFFFF));
    assert_eq!(lit(&fb), 1);
    draw_text(&mut fb, "A", 0, 0, 1);
    assert_eq!(lit(&fb), 1 + 2 + 3 + 2 + 2);
}

#[test]
fn text_stays_in_its_box() {
    let mut fb = Framebuffer::new(40, 30);
    draw_text(&mut fb, "AB", 5, 7, 1);
    for y in 0..30 {
        for x in 0..40 {
            if fb.pixel(x, y) != Some(0) {
                assert!(5 <= x && x < 5 + 2 * 10);
                assert!(7 <= y && y < 7 + 8);
            }
        }
    }
}

#[test]
fn glyph_from_its_bitmap() {
    let mut fb = Framebuffer::new(10, 10);
    // a diagonal: row k has column k set
    let glyph = [1u8, 2, 4, 8, 16, 32, 64, 128];
    liminal_maze::text::draw_glyph(&mut fb, glyph, 1, 1, 1);
    for k in 0..8 {
        assert_eq!(fb.pixel(1 + k, 1 + k), Some(0xFFFFFF));
    }
    assert_eq!(lit(&fb), 8);
}

#[test]
fn text_in_two_parts_equals_text_whole() {
    let mut whole = Framebuffer::new(60, 12);
    let mut parts = Framebuffer::new(60, 12);
    draw_text(&mut whole, "A\u{e9}BA", 1, 2, 1);
    draw_text(&mut parts, "A\u{e9}", 1, 2, 1);
    draw_text(&mut parts, "BA", 1 + 2 * 10, 2, 1);
    assert_eq!(whole.buffer(), parts.buffer());
}

#[test]
fn blank_text_far_down_is_accepted() {
    let mut fb = Framebuffer::new(4, 4);
    // spaces have no set cell, so no row is computed
    assert!(text_fits_at("  ", 0, usize::MAX - 3, 2));
    assert!(write_text(&mut fb, "  ", 0, usize::MAX - 3, 2));
    assert_eq!(lit(&fb), 0);
    draw_text(&mut fb, "\u{e9} ", 0, usize::MAX, 5);
    assert_eq!(lit(&fb), 0);
}

#[test]
fn text_that_would_overflow_is_refused() {
    let mut fb = Framebuffer::new(4, 4);
    assert!(!text_fits_at("A", 0, usize::MAX - 3, 2));
    assert!(!write_text(&mut fb, "A", 0, usize::MAX - 3, 2));
    assert!(!text_fits_at("AB", usize::MAX - 15, 0, 1));
    assert!(text_fits_at("AB", usize::MAX - 20, 0, 1));
    assert!(text_fits_at("", usize::MAX, usize::MAX, usize::MAX));
    assert_eq!(lit(&fb), 0);
}

#[test]
fn write_text_draws_like_draw_text() {
    let mut a = Framebuffer::new(30, 10);
    let mut b = Framebuffer::new(30, 10);
    assert!(write_text(&mut a, "AB", 1, 1, 1));
    draw_text(&mut b, "AB", 1, 1, 1);
    assert_eq!(a.buffer(), b.buffer());
}

#[test]
fn a_blank_character_shifts_what_follows() {
    let mut a = Framebuffer::new(40, 10);
    let mut b = Framebuffer::new(40, 10);
    assert!(write_text(&mut a, "\u{a1}AB", 0, 0, 1));
    assert!(write_text(&mut b, "AB", 10, 0, 1));
    assert_eq!(a.buffer(), b.buffer());
    assert_eq!(text_fits_at("\u{a1}AB", usize::MAX - 30, 0, 1), text_fits_at("AB", usize::MAX - 20, 0, 1));
    assert_eq!(text_fits_at("\u{a1}AB", usize::MAX - 29, 0, 1), text_fits_at("AB", usize::MAX - 19, 0, 1));
    let mut c = Framebuffer::new(40, 10);
    draw_text(&mut c, "\u{a1}", 3, 3, 2);
    assert_eq!(lit(&c), 0);
}
