use liminal_maze::draw::{fill_column, fill_rect};
use liminal_maze::framebuffer::Framebuffer;

#[test]
fn fill_rect_paints_exactly_the_rectangle() {
    let mut fb = Framebuffer::new(6, 5);
    fb.set_current_color(7);
    fill_rect(&mut fb, 1, 4, 2, 4);
    for y in 0..5 {
        for x in 0..6 {
            let inside = (1..4).contains(&x) && (2..4).contains(&y);
            assert_eq!(fb.pixel(x, y), Some(if inside { 7 } else { 0 }));
        }
    }
}

#[test]
fn fill_rect_is_clipped_and_empty_ranges_paint_nothing() {
    let mut fb = Framebuffer::new(3, 3);
    fill_rect(&mut fb, 2, 10, 2, 10);
    assert_eq!(fb.buffer().iter().filter(|&&p| p != 0).count(), 1);
    fill_rect(&mut fb, 2, 1, 0, 3);
    assert_eq!(fb.buffer().iter().filter(|&&p| p != 0).count(), 1);
}

#[test]
fn fill_column_paints_one_column() {
    let mut fb = Framebuffer::new(3, 4);
    fb.set_current_color(9);
    fill_column(&mut fb, 1, 1, 3);
    assert_eq!(fb.buffer(), &vec![0, 0, 0, 0, 9, 0, 0, 9, 0, 0, 0, 0]);
}
