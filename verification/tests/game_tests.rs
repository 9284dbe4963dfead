use liminal_maze::game::{next_state, selected_level, steering, GameState, Keys, MouseLook, Steering, TextureMode};

fn none() -> Keys {
    Keys {
        key1: false,
        key2: false,
        key3: false,
        enter: false,
        a: false,
        d: false,
        w: false,
        s: false,
        left: false,
        right: false,
        up: false,
        down: false,
    }
}

#[test]
fn lowest_level_key_wins() {
    assert_eq!(selected_level(&none()), 0);
    assert_eq!(selected_level(&Keys { key3: true, ..none() }), 3);
    assert_eq!(selected_level(&Keys { key2: true, key3: true, ..none() }), 2);
    assert_eq!(selected_level(&Keys { key1: true, key2: true, key3: true, ..none() }), 1);
}

#[test]
fn welcome_starts_the_picked_level() {
    assert_eq!(next_state(GameState::Welcome, &none(), false), (GameState::Welcome, None));
    assert_eq!(
        next_state(GameState::Welcome, &Keys { key2: true, ..none() }, true),
        (GameState::Playing, Some(2))
    );
    assert_eq!(
        next_state(GameState::Welcome, &Keys { enter: true, ..none() }, false),
        (GameState::Welcome, None)
    );
}

#[test]
fn playing_ends_at_the_goal() {
    assert_eq!(next_state(GameState::Playing, &none(), false), (GameState::Playing, None));
    assert_eq!(next_state(GameState::Playing, &none(), true), (GameState::Success, None));
    assert_eq!(
        next_state(GameState::Playing, &Keys { key1: true, enter: true, ..none() }, false),
        (GameState::Playing, None)
    );
}

#[test]
fn enter_leaves_success() {
    assert_eq!(next_state(GameState::Success, &none(), true), (GameState::Success, None));
    assert_eq!(
        next_state(GameState::Success, &Keys { enter: true, ..none() }, false),
        (GameState::Welcome, None)
    );
}

#[test]
fn steering_reads_letters_and_arrows() {
    assert_eq!(
        steering(&Keys { a: true, down: true, ..none() }),
        Steering { turn_left: true, turn_right: false, forward: false, backward: true }
    );
    assert_eq!(
        steering(&Keys { right: true, w: true, ..none() }),
        Steering { turn_left: false, turn_right: true, forward: true, backward: false }
    );
    assert_eq!(
        steering(&none()),
        Steering { turn_left: false, turn_right: false, forward: false, backward: false }
    );
}

#[test]
fn mouse_turns_by_its_horizontal_movement() {
    let mut look = MouseLook::new();
    assert_eq!(look.turn(Some(100)), 0);
    assert_eq!(look.turn(Some(130)), 30);
    assert_eq!(look.turn(Some(120)), -10);
    assert_eq!(look.turn(Some(120)), 0);
    assert_eq!(look.turn(None), 0);
    assert_eq!(look.turn(Some(5)), 0);
    assert_eq!(look.turn(Some(i32::MIN)), i32::MIN as i64 - 5);
    assert_eq!(look.last_x, Some(i32::MIN));
}

#[test]
fn t_press_flips_texture_mode_once() {
    let mut mode = TextureMode::new();
    assert!(mode.use_textures);
    mode.update(true);
    assert!(!mode.use_textures);
    // still held: no further flip
    mode.update(true);
    assert!(!mode.use_textures);
    mode.update(false);
    assert!(!mode.use_textures);
    mode.update(true);
    assert!(mode.use_textures);
}
