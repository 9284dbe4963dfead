use liminal_maze::palette::{argb, cell_color, rgb, rgb_channels, GOAL_COLOR, WALL_COLOR};

#[test]
fn goal_cells_are_bright_green() {
    assert_eq!(cell_color('g'), 0x00FF00);
    assert_eq!(cell_color('G'), 0x00FF00);
    assert_eq!(cell_color('g'), GOAL_COLOR);
}

#[test]
fn other_cells_are_forest_green() {
    for c in ['+', '-', '|', '#', ' ', 'p', 'x'] {
        assert_eq!(cell_color(c), 0x228B22);
        assert_eq!(cell_color(c), WALL_COLOR);
    }
}

#[test]
fn argb_packs_bytes_high_to_low() {
    assert_eq!(argb(0xAA, 0x11, 0x22, 0x33), 0xAA112233);
    assert_eq!(argb(0xFF, 0, 0, 0), 0xFF000000);
}

#[test]
fn rgb_packs_bytes_high_to_low() {
    assert_eq!(rgb(0x12, 0x34, 0x56), 0x123456);
}

#[test]
fn channels_round_trip() {
    assert_eq!(rgb_channels(argb(0x80, 1, 2, 3)), (1, 2, 3));
    let (r, g, b) = rgb_channels(0xDEADBEEF);
    assert_eq!((r, g, b), (0xAD, 0xBE, 0xEF));
    assert_eq!(rgb(r, g, b), 0xDEADBEEF & 0xFFFFFF);
}
