use liminal_maze::framebuffer::Framebuffer;
use liminal_maze::palette::{FLOOR_COLOR, GOAL_COLOR, SKY_COLOR, WALL_COLOR};
use liminal_maze::render::{
    draw_solid_open_column, draw_solid_wall_column, draw_textured_column, draw_view, draw_view_column, paint_column,
    wall_span, wall_texture_for, ColumnView,
};
use liminal_maze::texture::Texture;

fn png(width: u32, height: u32, rgba: Vec<u8>) -> Texture {
    let img = image::RgbaImage::from_raw(width, height, rgba).unwrap();
    let mut bytes = Vec::new();
    img.write_to(&mut std::io::Cursor::new(&mut bytes), image::ImageFormat::Png).unwrap();
    Texture::new(&bytes, "png").unwrap()
}

fn column(fb: &Framebuffer, x: usize) -> Vec<u32> {
    (0..fb.height()).map(|y| fb.pixel(x, y).unwrap()).collect()
}

#[test]
fn wall_spans() {
    assert_eq!(wall_span(100, 768), (334, 434));
    assert_eq!(wall_span(1000, 768), (0, 768));
    assert_eq!(wall_span(768, 768), (0, 768));
    assert_eq!(wall_span(0, 768), (384, 384));
    assert_eq!(wall_span(2, 7), (2, 4));
}

#[test]
fn wall_spans_are_centred() {
    for h in 0..40usize {
        for wh in 0..50usize {
            let (s, e) = wall_span(wh, h);
            assert!(s <= e && e <= h);
            assert_eq!(e - s, wh.min(h));
            assert!(s <= h - e && h - e <= s + 1);
        }
    }
}

#[test]
fn solid_wall_column() {
    let mut fb = Framebuffer::new(3, 10);
    draw_solid_wall_column(&mut fb, 1, 4, 'g');
    let mut expected = vec![SKY_COLOR; 3];
    expected.extend(vec![GOAL_COLOR; 4]);
    expected.extend(vec![FLOOR_COLOR; 3]);
    assert_eq!(column(&fb, 1), expected);
    assert_eq!(column(&fb, 0), vec![0; 10]);
    assert_eq!(column(&fb, 2), vec![0; 10]);
    assert_eq!(fb.current_color(), FLOOR_COLOR);
}

#[test]
fn solid_wall_taller_than_screen() {
    let mut fb = Framebuffer::new(1, 4);
    draw_solid_wall_column(&mut fb, 0, 100, '#');
    assert_eq!(column(&fb, 0), vec![WALL_COLOR; 4]);
    assert_eq!(fb.current_color(), FLOOR_COLOR);
}

#[test]
fn solid_open_column() {
    let mut fb = Framebuffer::new(2, 5);
    draw_solid_open_column(&mut fb, 0);
    assert_eq!(column(&fb, 0), vec![SKY_COLOR, SKY_COLOR, FLOOR_COLOR, FLOOR_COLOR, FLOOR_COLOR]);
    assert_eq!(column(&fb, 1), vec![0; 5]);
    assert_eq!(fb.current_color(), FLOOR_COLOR);
}

#[test]
fn paint_column_carries_colour_over_gaps() {
    let mut fb = Framebuffer::new(1, 4);
    paint_column(&mut fb, 0, &vec![None, Some(5), None, Some(6)]);
    assert_eq!(column(&fb, 0), vec![0xFFFFFF, 5, 5, 6]);
    assert_eq!(fb.current_color(), 6);
}

#[test]
fn textured_column_tiles_and_keeps_colour_on_the_horizon() {
    // sky: 1x2, wall: 1x1, floor: 2x1
    let sky = png(1, 2, vec![1, 0, 0, 255, 2, 0, 0, 255]);
    let wall = png(1, 1, vec![0, 9, 0, 255]);
    let floor = png(2, 1, vec![0, 0, 3, 255, 0, 0, 4, 255]);
    let mut fb = Framebuffer::new(2, 8);
    let goal = png(1, 1, vec![7, 7, 7, 255]);
    // a wall 2 pixels tall on a screen 8 rows tall covers rows 3 and 4
    let col = ColumnView {
        impact: '#',
        wall_height: 2,
        wall_tex_x: 7,
        wall_rows: vec![0, 11],
        floor_texels: vec![None, Some((1, 0)), Some((4, 3))],
    };
    draw_textured_column(&mut fb, 1, &col, &sky, &wall, &goal, &floor);
    let s0 = 0xFF010000;
    let s1 = 0xFF020000;
    let w = 0xFF000900;
    let f0 = 0xFF000003;
    let f1 = 0xFF000004;
    assert_eq!(column(&fb, 1), vec![s0, s1, s0, w, w, w, f1, f0]);
    assert_eq!(column(&fb, 0), vec![0; 8]);
    assert_eq!(fb.current_color(), f0);
}

#[test]
fn goal_walls_use_the_goal_texture() {
    let sky = png(1, 1, vec![1, 0, 0, 255]);
    let wall = png(1, 1, vec![0, 9, 0, 255]);
    let goal = png(1, 1, vec![7, 7, 7, 255]);
    let floor = png(1, 1, vec![0, 0, 3, 255]);
    for (impact, expected) in [('g', 0xFF070707u32), ('G', 0xFF070707), ('#', 0xFF000900), ('p', 0xFF000900)] {
        let mut fb = Framebuffer::new(1, 4);
        let col = ColumnView {
            impact,
            wall_height: 2,
            wall_tex_x: 0,
            wall_rows: vec![0, 5],
            floor_texels: vec![Some((0, 0))],
        };
        draw_textured_column(&mut fb, 0, &col, &sky, &wall, &goal, &floor);
        assert_eq!(column(&fb, 0), vec![0xFF010000, expected, expected, 0xFF000003]);
    }
    assert_eq!(wall_texture_for('g', &wall, &goal).get_pixel(0, 0), 0xFF070707);
    assert_eq!(wall_texture_for('+', &wall, &goal).get_pixel(0, 0), 0xFF000900);
}

#[test]
fn painting_a_column_forgets_what_it_showed() {
    let mut a = Framebuffer::new(2, 6);
    let mut b = Framebuffer::new(2, 6);
    b.set_current_color(0x777777);
    for y in 0..6 {
        b.point(0, y);
        b.point(1, y);
    }
    b.set_current_color(0xFFFFFF);
    draw_solid_wall_column(&mut a, 0, 2, '#');
    draw_solid_wall_column(&mut b, 0, 2, '#');
    assert_eq!(column(&a, 0), column(&b, 0));
    draw_solid_open_column(&mut a, 1);
    draw_solid_open_column(&mut b, 1);
    assert_eq!(a.buffer(), b.buffer());
}

fn textures() -> (Texture, Texture, Texture, Texture) {
    (
        png(1, 2, vec![1, 0, 0, 255, 2, 0, 0, 255]),
        png(1, 1, vec![0, 9, 0, 255]),
        png(1, 1, vec![7, 7, 7, 255]),
        png(2, 1, vec![0, 0, 3, 255, 0, 0, 4, 255]),
    )
}

#[test]
fn textured_open_column_splits_at_the_middle() {
    let (sky, wall, goal, floor) = textures();
    let mut fb = Framebuffer::new(1, 5);
    let col = ColumnView { impact: ' ', wall_height: 0, wall_tex_x: 0, wall_rows: vec![], floor_texels: vec![Some((0, 0)), None, Some((1, 0))] };
    draw_textured_column(&mut fb, 0, &col, &sky, &wall, &goal, &floor);
    assert_eq!(column(&fb, 0), vec![0xFF010000, 0xFF020000, 0xFF000003, 0xFF000003, 0xFF000004]);
}

#[test]
fn view_column_picks_the_painter() {
    let (sky, wall, goal, floor) = textures();
    let hit = ColumnView { impact: 'g', wall_height: 2, wall_tex_x: 0, wall_rows: vec![0, 0], floor_texels: vec![None] };
    let mut a = Framebuffer::new(1, 4);
    draw_view_column(&mut a, 0, &hit, false, &sky, &wall, &goal, &floor);
    assert_eq!(column(&a, 0), vec![SKY_COLOR, GOAL_COLOR, GOAL_COLOR, FLOOR_COLOR]);
    let mut b = Framebuffer::new(1, 4);
    draw_view_column(&mut b, 0, &hit, true, &sky, &wall, &goal, &floor);
    assert_eq!(column(&b, 0), vec![0xFF010000, 0xFF070707, 0xFF070707, 0xFF070707]);
    let open = ColumnView { impact: ' ', wall_height: 0, wall_tex_x: 0, wall_rows: vec![], floor_texels: vec![] };
    let mut c = Framebuffer::new(1, 4);
    draw_view_column(&mut c, 0, &open, false, &sky, &wall, &goal, &floor);
    assert_eq!(column(&c, 0), vec![SKY_COLOR, SKY_COLOR, FLOOR_COLOR, FLOOR_COLOR]);
}

#[test]
fn a_drawn_view_forgets_the_prior_frame() {
    let (sky, wall, goal, floor) = textures();
    let cols = vec![
        ColumnView { impact: '#', wall_height: 2, wall_tex_x: 0, wall_rows: vec![0, 1], floor_texels: vec![None, Some((1, 0))] },
        ColumnView { impact: ' ', wall_height: 0, wall_tex_x: 0, wall_rows: vec![], floor_texels: vec![None, None, Some((0, 0))] },
        ColumnView { impact: 'g', wall_height: 9, wall_tex_x: 3, wall_rows: vec![0, 1, 2, 3, 4, 5], floor_texels: vec![] },
    ];
    for use_textures in [false, true] {
        let mut a = Framebuffer::new(3, 6);
        let mut b = Framebuffer::new(3, 6);
        b.set_current_color(0x123456);
        for y in 0..6 {
            for x in 0..3 {
                b.point(x, y);
            }
        }
        b.set_current_color(0xABCDEF);
        draw_view(&mut a, &cols, use_textures, &sky, &wall, &goal, &floor);
        draw_view(&mut b, &cols, use_textures, &sky, &wall, &goal, &floor);
        assert_eq!(a.buffer(), b.buffer());
        assert_eq!(a.current_color(), b.current_color());
    }
}

#[test]
fn nearer_walls_are_at_least_as_tall_and_high() {
    for h in 0..30usize {
        for near in 0..40usize {
            for far in 0..=near {
                let (s1, e1) = wall_span(near, h);
                let (s2, e2) = wall_span(far, h);
                assert!(e1 - s1 >= e2 - s2);
                assert!(s1 <= s2);
            }
        }
    }
}
