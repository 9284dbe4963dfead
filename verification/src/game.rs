use vstd::prelude::*;

verus! {

/// The screen the game shows.
#[derive(PartialEq, Eq, Structural, Clone, Copy, Debug)]
pub enum GameState {
    /// The title screen, where a level is picked.
    Welcome,
    /// A level is being played.
    Playing,
    /// The goal was reached.
    Success,
}

/// The keys that a frame of the game reads, each `true` while held down.
#[derive(PartialEq, Eq, Structural, Clone, Copy, Debug)]
pub struct Keys {
    pub key1: bool,
    pub key2: bool,
    pub key3: bool,
    pub enter: bool,
    pub a: bool,
    pub d: bool,
    pub w: bool,
    pub s: bool,
    pub left: bool,
    pub right: bool,
    pub up: bool,
    pub down: bool,
}

/// How the player is steered in one frame; the turns and moves are applied
/// in the order left, right, forward, backward.
#[derive(PartialEq, Eq, Structural, Clone, Copy, Debug)]
pub struct Steering {
    pub turn_left: bool,
    pub turn_right: bool,
    pub forward: bool,
    pub backward: bool,
}

/// The level that the held number keys pick on the title screen: the lowest
/// of 1, 2 and 3 held, or 0 for none.
pub open spec fn spec_selected_level(keys: Keys) -> u8 {
    if keys.key1 {
        1
    } else if keys.key2 {
        2
    } else if keys.key3 {
        3
    } else {
        0
    }
}

/// The level that the held number keys pick, 0 for none.
pub fn selected_level(keys: &Keys) -> (level: u8)
    ensures
        level == spec_selected_level(*keys),
        level <= 3,
{
    let mut level_selected: u8 = 0;
    if keys.key1 {
        level_selected = 1;
    } else if keys.key2 {
        level_selected = 2;
    } else if keys.key3 {
        level_selected = 3;
    }
    level_selected
}

/// How the held keys steer the player: A or Left turns left, D or Right
/// turns right, W or Up moves forward, S or Down moves backward.
pub fn steering(keys: &Keys) -> (s: Steering)
    ensures
        s == (Steering {
            turn_left: keys.a || keys.left,
            turn_right: keys.d || keys.right,
            forward: keys.w || keys.up,
            backward: keys.s || keys.down,
        }),
{
    Steering {
        turn_left: keys.a || keys.left,
        turn_right: keys.d || keys.right,
        forward: keys.w || keys.up,
        backward: keys.s || keys.down,
    }
}

/// The screen after one frame and the level to load on entering play, if
/// any: the title screen starts the picked level, play ends when the player
/// stands on the goal, and Enter on the success screen goes back to the title.
pub open spec fn spec_next_state(state: GameState, keys: Keys, at_goal: bool) -> (GameState, Option<u8>) {
    match state {
        GameState::Welcome => if spec_selected_level(keys) > 0 {
            (GameState::Playing, Some(spec_selected_level(keys)))
        } else {
            (GameState::Welcome, None)
        },
        GameState::Playing => if at_goal {
            (GameState::Success, None)
        } else {
            (GameState::Playing, None)
        },
        GameState::Success => if keys.enter {
            (GameState::Welcome, None)
        } else {
            (GameState::Success, None)
        },
    }
}

/// The screen after one frame, given the held keys and whether the player
/// stands on the goal, and the level to load when play starts.
pub fn next_state(state: GameState, keys: &Keys, at_goal: bool) -> (next: (GameState, Option<u8>))
    ensures
        next == spec_next_state(state, *keys, at_goal),
{
    match state {
        GameState::Welcome => {
            let level = selected_level(keys);
            if level > 0 {
                (GameState::Playing, Some(level))
            } else {
                (GameState::Welcome, None)
            }
        },
        GameState::Playing => {
            if at_goal {
                (GameState::Success, None)
            } else {
                (GameState::Playing, None)
            }
        },
        GameState::Success => {
            if keys.enter {
                (GameState::Welcome, None)
            } else {
                (GameState::Success, None)
            }
        },
    }
}

/// The horizontal mouse position, in window pixels, seen in the last frame;
/// `None` where the cursor was not over the window.
#[derive(PartialEq, Eq, Structural, Clone, Copy, Debug)]
pub struct MouseLook {
    pub last_x: Option<i32>,
}

/// How far the mouse moved to the right since the last frame: the
/// difference of the two positions, or 0 where either is unknown.
pub open spec fn spec_mouse_turn(last_x: Option<i32>, x: Option<i32>) -> int {
    match (last_x, x) {
        (Some(a), Some(b)) => b - a,
        _ => 0,
    }
}

impl MouseLook {
    /// No position seen yet.
    pub fn new() -> (m: MouseLook)
        ensures
            m.last_x is None,
    {
        MouseLook { last_x: None }
    }

    /// Records the mouse position of this frame and gives how far, in
    /// pixels, the mouse moved to the right since the last one: the camera
    /// turns right for a positive value and left for a negative one.
    pub fn turn(&mut self, x: Option<i32>) -> (dx: i64)
        ensures
            dx == spec_mouse_turn(old(self).last_x, x),
            final(self).last_x == x,
    {
        let dx: i64 = match (self.last_x, x) {
            (Some(a), Some(b)) => (b as i64) - (a as i64),
            _ => 0,
        };
        self.last_x = x;
        dx
    }
}

/// Whether the view is textured, and whether T was held in the last frame.
#[derive(PartialEq, Eq, Structural, Clone, Copy, Debug)]
pub struct TextureMode {
    pub use_textures: bool,
    pub t_was_down: bool,
}

/// The mode after a frame in which T is held or not: a new press of T flips
/// between textures and solid colours; holding it flips nothing more.
pub open spec fn spec_texture_mode_step(mode: TextureMode, t_down: bool) -> TextureMode {
    TextureMode {
        use_textures: if t_down && !mode.t_was_down { !mode.use_textures } else { mode.use_textures },
        t_was_down: t_down,
    }
}

impl TextureMode {
    /// Textured, with T not held.
    pub fn new() -> (m: TextureMode)
        ensures
            m == (TextureMode { use_textures: true, t_was_down: false }),
    {
        TextureMode { use_textures: true, t_was_down: false }
    }

    /// Reads whether T is held in this frame.
    pub fn update(&mut self, t_down: bool)
        ensures
            *final(self) == spec_texture_mode_step(*old(self), t_down),
    {
        if t_down && !self.t_was_down {
            self.use_textures = !self.use_textures;
        }
        self.t_was_down = t_down;
    }
}

} // verus!
