# liminal_maze

The verified core of a small maze raycaster ("Liminal Maze"): a framebuffer
with clipped drawing, the maze grid and its movement and ray rules, decoded
textures, 8x8 bitmap text, the minimap, the per-column painting of the 3D
view, and the game's screen state machine.

The goal cells are drawn with their own texture; the mouse turns the camera
by its horizontal movement; T switches between textures and solid colours.

- `src/` is the library, checked by Verus. Each drawing routine states,
  pixel by pixel, the frame it leaves (`draw::painted`, `draw::recolored`);
  `src/laws.rs` proves the properties that span several calls.
- `app/` is the program: the window and keyboard (minifb), file reading,
  timing, and the floating-point ray geometry, which it hands to the library
  as integers.
- `tests/` runs the library on concrete inputs.
