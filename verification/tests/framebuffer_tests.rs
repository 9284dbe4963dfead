use liminal_maze::framebuffer::Framebuffer;

#[test]
fn new_framebuffer_is_black_with_white_pen() {
    let fb = Framebuffer::new(4, 3);
    assert_eq!(fb.width(), 4);
    assert_eq!(fb.height(), 3);
    assert_eq!(fb.buffer().len(), 12);
    assert!(fb.buffer().iter().all(|&p| p == 0));
    assert_eq!(fb.current_color(), 0xFFFFFF);
    assert_eq!(fb.background_color(), 0x000000);
}

#[test]
fn point_writes_one_pixel_and_reads_back() {
    let mut fb = Framebuffer::new(4, 3);
    fb.set_current_color(0x123456);
    fb.point(2, 1);
    assert_eq!(fb.pixel(2, 1), Some(0x123456));
    assert_eq!(fb.buffer()[1 * 4 + 2], 0x123456);
    let lit = fb.buffer().iter().filter(|&&p| p != 0).count();
    assert_eq!(lit, 1);
}

#[test]
fn point_off_the_grid_is_ignored() {
    let mut fb = Framebuffer::new(4, 3);
    fb.point(4, 0);
    fb.point(0, 3);
    fb.point(usize::MAX, usize::MAX);
    assert!(fb.buffer().iter().all(|&p| p == 0));
    assert_eq!(fb.pixel(4, 0), None);
}

#[test]
fn plotting_twice_equals_plotting_once() {
    let mut once = Framebuffer::new(3, 3);
    let mut twice = Framebuffer::new(3, 3);
    once.point(1, 1);
    twice.point(1, 1);
    twice.point(1, 1);
    assert_eq!(once.buffer(), twice.buffer());
}

#[test]
fn plots_commute() {
    let mut a = Framebuffer::new(3, 3);
    let mut b = Framebuffer::new(3, 3);
    a.point(0, 1);
    a.point(2, 2);
    b.point(2, 2);
    b.point(0, 1);
    assert_eq!(a.buffer(), b.buffer());
}

#[test]
fn clear_fills_with_background() {
    let mut fb = Framebuffer::new(5, 2);
    fb.point(1, 1);
    fb.set_background_color(0x333355);
    fb.clear();
    assert!(fb.buffer().iter().all(|&p| p == 0x333355));
    assert_eq!(fb.current_color(), 0xFFFFFF);
}
