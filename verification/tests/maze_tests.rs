use liminal_maze::maze::{
    at_goal, can_stand, cell, find_cell, is_walkable, parse_maze, ray_probe, slide_move, start_cell, Maze,
};

fn maze() -> Maze {
    vec![
        "+---+".chars().collect(),
        "|p g|".chars().collect(),
        "| | |".chars().collect(),
        "+---+".chars().collect(),
    ]
}

#[test]
fn walkable_cells() {
    for c in [' ', 'g', 'G', 'p'] {
        assert!(is_walkable(c));
    }
    for c in ['+', '-', '|', '#'] {
        assert!(!is_walkable(c));
    }
}

#[test]
fn cells_inside_and_outside() {
    let m = maze();
    assert_eq!(cell(&m, 1, 1), Some('p'));
    assert_eq!(cell(&m, 3, 1), Some('g'));
    assert_eq!(cell(&m, 5, 1), None);
    assert_eq!(cell(&m, 0, 4), None);
}

#[test]
fn standing_uses_blocks() {
    let m = maze();
    // block size 10: (15, 15) is cell (1, 1), the start mark
    assert!(can_stand(&m, 15, 15, 10));
    // (5, 15) is the wall cell (0, 1)
    assert!(!can_stand(&m, 5, 15, 10));
    // outside the maze
    assert!(!can_stand(&m, 15, 45, 10));
}

#[test]
fn slide_blocks_the_wall_axis_only() {
    let m = maze();
    // from (15, 15) towards (25, 5): horizontal is free, vertical hits the top wall
    assert_eq!(slide_move(&m, 10, 15, 15, 25, 5), (true, false));
    // towards (5, 25): horizontal hits the left wall, vertical from column 15 reaches the open cell (1, 2)
    assert_eq!(slide_move(&m, 10, 15, 15, 5, 25), (false, true));
    // into the wall corner: neither move
    assert_eq!(slide_move(&m, 10, 15, 15, 5, 5), (false, false));
}

#[test]
fn player_stays_on_floor() {
    let m = maze();
    let (mut x, mut y) = (15usize, 15usize);
    let targets = [(25, 15), (35, 15), (45, 15), (35, 25), (25, 25), (15, 35)];
    for (nx, ny) in targets {
        let (mx, my) = slide_move(&m, 10, x, y, nx, ny);
        if mx {
            x = nx;
        }
        if my {
            y = ny;
        }
        assert!(can_stand(&m, x, y, 10));
    }
}

#[test]
fn rays_stop_at_walls_and_outside() {
    let m = maze();
    assert_eq!(ray_probe(&m, 25, 15, 10), None);
    assert_eq!(ray_probe(&m, 15, 15, 10), Some('p'));
    assert_eq!(ray_probe(&m, 5, 15, 10), Some('|'));
    assert_eq!(ray_probe(&m, 100, 15, 10), Some(' '));
    assert_eq!(ray_probe(&m, 15, 100, 10), Some(' '));
}

#[test]
fn goal_is_lowercase_g_only() {
    let m = maze();
    assert!(at_goal(&m, 35, 15, 10));
    assert!(!at_goal(&m, 15, 15, 10));
    let upper: Maze = vec!["G".chars().collect()];
    assert!(!at_goal(&upper, 0, 0, 10));
    assert!(!at_goal(&m, 500, 500, 10));
}

#[test]
fn find_cell_takes_first_in_reading_order() {
    let m: Maze = vec!["  x".chars().collect(), "x  ".chars().collect()];
    assert_eq!(find_cell(&m, 'x'), Some((2, 0)));
    assert_eq!(find_cell(&maze(), 'p'), Some((1, 1)));
    assert_eq!(find_cell(&maze(), 'z'), None);
}

fn rows(m: &Maze) -> Vec<String> {
    m.iter().map(|r| r.iter().collect()).collect()
}

#[test]
fn parse_maze_splits_lines() {
    assert_eq!(rows(&parse_maze("+-+\n|p|\n+-+")), vec!["+-+", "|p|", "+-+"]);
    assert_eq!(rows(&parse_maze("ab\ncd\n")), vec!["ab", "cd"]);
    assert_eq!(rows(&parse_maze("ab\r\ncd\r\n")), vec!["ab", "cd"]);
    assert_eq!(rows(&parse_maze("ab\n\ncd")), vec!["ab", "", "cd"]);
    assert_eq!(rows(&parse_maze("a\rb")), vec!["a\rb"]);
    assert!(parse_maze("").is_empty());
    assert_eq!(rows(&parse_maze("\n")), vec![""]);
}

#[test]
fn start_cell_is_the_p_mark_or_one_one() {
    assert_eq!(start_cell(&maze()), (1, 1));
    let m = parse_maze("+--+\n| p|\n+--+");
    assert_eq!(start_cell(&m), (2, 1));
    let none = parse_maze("+--+\n|  |");
    assert_eq!(start_cell(&none), (1, 1));
}
