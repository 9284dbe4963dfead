use vstd::prelude::*;

verus! {

/// The colour of the walls and the minimap's wall cells (forest green).
pub const WALL_COLOR: u32 = 0x228B22;
/// The colour of goal cells (bright green).
pub const GOAL_COLOR: u32 = 0x00FF00;
/// The sky in solid-colour mode (midnight blue).
pub const SKY_COLOR: u32 = 0x191970;
/// The floor in solid-colour mode (dark olive green).
pub const FLOOR_COLOR: u32 = 0x556B2F;
/// White: the minimap's frame and the player's marker.
pub const WHITE: u32 = 0xFFFFFF;
/// The minimap's background.
pub const MINIMAP_BACKGROUND: u32 = 0x111122;

/// The colour that a maze cell is shown in: goal cells `g` and `G` are
/// bright green, every other cell forest green.
pub open spec fn spec_cell_color(cell: char) -> u32 {
    if cell == 'g' || cell == 'G' {
        GOAL_COLOR
    } else {
        WALL_COLOR
    }
}

/// The colour that a maze cell is shown in, on the minimap and in
/// solid-colour mode.
pub fn cell_color(cell: char) -> (color: u32)
    ensures
        color == spec_cell_color(cell),
{
    match cell {
        '+' | '-' | '|' => 0x228B22,
        'g' | 'G' => 0x00FF00,
        _ => 0x228B22,
    }
}

/// The 32-bit colour `0xAARRGGBB`.
pub open spec fn spec_argb(a: u8, r: u8, g: u8, b: u8) -> u32 {
    ((a as u32) << 24u32) | ((r as u32) << 16u32) | ((g as u32) << 8u32) | (b as u32)
}

/// The 24-bit colour `0xRRGGBB`.
pub open spec fn spec_rgb(r: u8, g: u8, b: u8) -> u32 {
    ((r as u32) << 16u32) | ((g as u32) << 8u32) | (b as u32)
}

/// The red, green and blue bytes of a packed colour; the top byte is ignored.
pub open spec fn spec_rgb_channels(color: u32) -> (u8, u8, u8) {
    (((color >> 16u32) & 0xFFu32) as u8, ((color >> 8u32) & 0xFFu32) as u8, (color & 0xFFu32) as u8)
}

/// Packs alpha, red, green and blue bytes into `0xAARRGGBB`.
pub fn argb(a: u8, r: u8, g: u8, b: u8) -> (color: u32)
    ensures
        color == spec_argb(a, r, g, b),
        color == a * 0x1000000 + r * 0x10000 + g * 0x100 + b,
{
    let (a, r, g, b) = (a as u32, r as u32, g as u32, b as u32);
    assert(((a << 24u32) | (r << 16u32) | (g << 8u32) | b) == a * 0x1000000 + r * 0x10000 + g * 0x100 + b)
        by (bit_vector)
        requires
            a < 256,
            r < 256,
            g < 256,
            b < 256,
    ;
    (a << 24) | (r << 16) | (g << 8) | b
}

/// Packs red, green and blue bytes into `0xRRGGBB`.
pub fn rgb(r: u8, g: u8, b: u8) -> (color: u32)
    ensures
        color == spec_rgb(r, g, b),
        color == r * 0x10000 + g * 0x100 + b,
{
    let (r, g, b) = (r as u32, g as u32, b as u32);
    assert(((r << 16u32) | (g << 8u32) | b) == r * 0x10000 + g * 0x100 + b) by (bit_vector)
        requires
            r < 256,
            g < 256,
            b < 256,
    ;
    (r << 16) | (g << 8) | b
}

/// The red, green and blue bytes of a packed colour.
pub fn rgb_channels(color: u32) -> (channels: (u8, u8, u8))
    ensures
        channels == spec_rgb_channels(color),
{
    (((color >> 16) & 0xFF) as u8, ((color >> 8) & 0xFF) as u8, (color & 0xFF) as u8)
}

/// Unpacking a packed colour gives back its red, green and blue bytes,
/// whatever its alpha byte.
pub proof fn lemma_channels_of_argb(a: u8, r: u8, g: u8, b: u8)
    ensures
        spec_rgb_channels(spec_argb(a, r, g, b)) == (r, g, b),
        spec_rgb_channels(spec_rgb(r, g, b)) == (r, g, b),
{
    let c = spec_argb(a, r, g, b);
    let d = spec_rgb(r, g, b);
    assert(((c >> 16u32) & 0xFFu32) as u8 == r && ((c >> 8u32) & 0xFFu32) as u8 == g && (c & 0xFFu32) as u8 == b)
        by (bit_vector)
        requires
            c == ((a as u32) << 24u32) | ((r as u32) << 16u32) | ((g as u32) << 8u32) | (b as u32),
    ;
    assert(((d >> 16u32) & 0xFFu32) as u8 == r && ((d >> 8u32) & 0xFFu32) as u8 == g && (d & 0xFFu32) as u8 == b)
        by (bit_vector)
        requires
            d == ((r as u32) << 16u32) | ((g as u32) << 8u32) | (b as u32),
    ;
}

/// Repacking the bytes of a colour gives back the colour without its top byte.
pub proof fn lemma_rgb_of_channels(color: u32)
    ensures
        ({
            let (r, g, b) = spec_rgb_channels(color);
            spec_rgb(r, g, b) == color & 0xFFFFFFu32
        }),
{
    let (r, g, b) = spec_rgb_channels(color);
    assert((((((color >> 16u32) & 0xFFu32) as u8) as u32) << 16u32) | (((((color >> 8u32) & 0xFFu32) as u8) as u32) << 8u32)
        | (((color & 0xFFu32) as u8) as u32) == color & 0xFFFFFFu32) by (bit_vector);
}

} // verus!
