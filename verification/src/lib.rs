//! The verified core of a small maze raycaster: a framebuffer with clipped
//! drawing, the maze grid and its rules, textures, text rendering, the
//! minimap and the screen-column painter, and the game's state machine.

pub mod framebuffer;
pub mod draw;
pub mod text;
pub mod palette;
pub mod maze;
pub mod texture;
pub mod render;
pub mod minimap;
pub mod game;
pub mod laws;
pub mod behaviour;
