use liminal_maze::framebuffer::Framebuffer;
use liminal_maze::maze::Maze;
use liminal_maze::minimap::render_minimap;
use liminal_maze::palette::{GOAL_COLOR, MINIMAP_BACKGROUND, WALL_COLOR, WHITE};

#[test]
fn minimap_layers() {
    let maze: Maze = vec!["#g".chars().collect(), "# ".chars().collect()];
    let mut fb = Framebuffer::new(60, 60);
    render_minimap(&mut fb, &maze, 5, 5);
    // map at x 32..40, y 20..28; frame two pixels wider; marker centred at (37, 25)
    assert_eq!(fb.pixel(33, 21), Some(WALL_COLOR));
    assert_eq!(fb.pixel(37, 21), Some(GOAL_COLOR));
    assert_eq!(fb.pixel(38, 22), Some(GOAL_COLOR));
    assert_eq!(fb.pixel(33, 27), Some(WALL_COLOR));
    assert_eq!(fb.pixel(38, 26), Some(WHITE));
    assert_eq!(fb.pixel(35, 23), Some(WHITE));
    assert_eq!(fb.pixel(34, 26), Some(WALL_COLOR));
    assert_eq!(fb.pixel(39, 21), Some(GOAL_COLOR));
    assert_eq!(fb.pixel(37, 26), Some(WHITE));
    assert_eq!(fb.pixel(40, 25), Some(WHITE));
    assert_eq!(fb.pixel(41, 25), Some(WHITE));
    assert_eq!(fb.pixel(31, 25), Some(WHITE));
    assert_eq!(fb.pixel(30, 18), Some(WHITE));
    assert_eq!(fb.pixel(29, 25), Some(0));
    assert_eq!(fb.pixel(42, 25), Some(0));
    assert_eq!(fb.pixel(35, 30), Some(0));
    assert_eq!(fb.current_color(), WHITE);
}

#[test]
fn minimap_background_shows_open_cells() {
    let maze: Maze = vec!["  ".chars().collect(), "  ".chars().collect()];
    let mut fb = Framebuffer::new(60, 60);
    render_minimap(&mut fb, &maze, 100, 100);
    assert_eq!(fb.pixel(33, 21), Some(MINIMAP_BACKGROUND));
    assert_eq!(fb.pixel(39, 27), Some(MINIMAP_BACKGROUND));
}

#[test]
fn marker_is_cut_at_the_edge() {
    let maze: Maze = vec!["#".chars().collect()];
    let mut fb = Framebuffer::new(30, 40);
    // map left edge is 30 - 4 - 20 = 6; marker centred at (7, 21)
    render_minimap(&mut fb, &maze, 1, 1);
    assert_eq!(fb.pixel(5, 19), Some(WHITE));
    assert_eq!(fb.pixel(9, 23), Some(WHITE));
    assert_eq!(fb.pixel(8, 22), Some(WHITE));
}

#[test]
fn minimap_stays_in_its_frame() {
    let maze: Maze = vec!["#g#".chars().collect(), "# #".chars().collect(), "###".chars().collect()];
    let mut fb = Framebuffer::new(80, 60);
    // map left edge 80 - 12 - 20 = 48, top 20; frame x 46..62, y 18..34
    render_minimap(&mut fb, &maze, 200, 200);
    for y in 0..60 {
        for x in 0..80 {
            if fb.pixel(x, y) != Some(0) {
                assert!((46..62).contains(&x) && (18..34).contains(&y));
            }
        }
    }
}

#[test]
fn longer_rows_reach_past_the_frame() {
    let maze: Maze = vec!["#".chars().collect(), "###".chars().collect()];
    let mut fb = Framebuffer::new(40, 40);
    // map left edge 40 - 4 - 20 = 16; the second row's third cell covers x 24..28
    render_minimap(&mut fb, &maze, 100, 100);
    assert_eq!(fb.pixel(25, 25), Some(WALL_COLOR));
}
