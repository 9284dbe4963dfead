use vstd::prelude::*;
use crate::maze::{spec_can_stand, spec_ray_probe, cell_under, spec_is_walkable, scan_lines, text_lines, strip_cr};
use crate::render::{textured_settings, view_settings, view_span, ColumnView};
use crate::texture::TextureState;
use crate::game::{Keys, GameState, spec_selected_level, spec_next_state, spec_mouse_turn, TextureMode, spec_texture_mode_step};
use crate::render::{spec_wall_span, carried_color, column_paint, view_end_color, view_start_color, view_paint};
use crate::palette::{spec_cell_color, spec_rgb_channels, spec_argb, spec_rgb};
use crate::framebuffer::FrameState;
use crate::text::{text_lit, basic_glyph};
use crate::minimap::minimap_color;

verus! {

/// Where the player may stand: exactly on a cell of the maze that is open
/// floor, a goal cell (`g` or `G`) or the start mark `p`, the cell being
/// found by dividing the point's coordinates by the block size.
pub proof fn law_standing_cells(maze: Seq<Vec<char>>, x: int, y: int, block_size: int)
    ensures
        spec_can_stand(maze, x, y, block_size) <==> ({
            let i = x / block_size;
            let j = y / block_size;
            &&& 0 <= j < maze.len()
            &&& 0 <= i < maze[j]@.len()
            &&& (maze[j]@[i] == ' ' || maze[j]@[i] == 'g' || maze[j]@[i] == 'G' || maze[j]@[i] == 'p')
        }),
        spec_is_walkable(' ') && spec_is_walkable('g') && spec_is_walkable('G') && spec_is_walkable('p'),
{
}

/// What a ray finds at a point: it goes on over open floor, stops on any
/// other cell reporting exactly that cell's character, and reports a space
/// once it has left the maze.
pub proof fn law_ray_reports_the_cell(maze: Seq<Vec<char>>, x: int, y: int, block_size: int)
    ensures
        ({
            let i = x / block_size;
            let j = y / block_size;
            &&& cell_under(maze, x, y, block_size) == (if 0 <= j < maze.len() && 0 <= i < maze[j]@.len() {
                Some(maze[j]@[i])
            } else {
                None
            })
            &&& (0 <= j < maze.len() && 0 <= i < maze[j]@.len() && maze[j]@[i] != ' ')
                ==> spec_ray_probe(maze, x, y, block_size) == Some(maze[j]@[i])
            &&& (0 <= j < maze.len() && 0 <= i < maze[j]@.len() && maze[j]@[i] == ' ')
                ==> spec_ray_probe(maze, x, y, block_size) is None
            &&& !(0 <= j < maze.len() && 0 <= i < maze[j]@.len()) ==> spec_ray_probe(maze, x, y, block_size) == Some(' ')
        }),
{
}

/// The level key picked on the title screen: 1 whenever key 1 is held, else
/// 2 whenever key 2 is, else 3 whenever key 3 is, else none; and the title
/// screen starts exactly that level.
pub proof fn law_level_keys(keys: Keys, at_goal: bool)
    ensures
        keys.key1 ==> spec_selected_level(keys) == 1,
        !keys.key1 && keys.key2 ==> spec_selected_level(keys) == 2,
        !keys.key1 && !keys.key2 && keys.key3 ==> spec_selected_level(keys) == 3,
        !keys.key1 && !keys.key2 && !keys.key3 ==> spec_selected_level(keys) == 0,
        keys.key1 ==> spec_next_state(GameState::Welcome, keys, at_goal) == (GameState::Playing, Some(1u8)),
        !keys.key1 && keys.key2 ==> spec_next_state(GameState::Welcome, keys, at_goal) == (GameState::Playing, Some(2u8)),
        !keys.key1 && !keys.key2 && keys.key3 ==> spec_next_state(GameState::Welcome, keys, at_goal) == (GameState::Playing, Some(3u8)),
        !keys.key1 && !keys.key2 && !keys.key3 ==> spec_next_state(GameState::Welcome, keys, at_goal) == (GameState::Welcome, None::<u8>),
        spec_next_state(GameState::Playing, keys, at_goal) == (if at_goal { (GameState::Success, None::<u8>) } else { (GameState::Playing, None::<u8>) }),
        spec_next_state(GameState::Success, keys, at_goal) == (if keys.enter { (GameState::Welcome, None::<u8>) } else { (GameState::Success, None::<u8>) }),
{
}

/// The mouse turn is the rightward movement in pixels between two known
/// positions, and nothing when either position is unknown.
pub proof fn law_mouse_turn_values(a: Option<i32>, b: Option<i32>)
    ensures
        (a matches Some(p) && b matches Some(q)) ==> spec_mouse_turn(a, b) == b->0 - a->0,
        (a is None || b is None) ==> spec_mouse_turn(a, b) == 0,
{
}

/// The rows that a column's wall covers: for a hit wall `wall_height` tall on
/// a screen `height` rows tall, from `(height - wall_height) / 2` (from 0 when
/// it is taller) for `wall_height` rows, cut at the bottom; for a miss the
/// empty span in the middle.
pub proof fn law_view_span_rows(col: ColumnView, height: int)
    ensures
        col.impact != ' ' ==> ({
            let wh = col.wall_height as int;
            let start = if wh > height { 0 } else { (height - wh) / 2 };
            view_span(col, height) == (start, if start + wh < height { start + wh } else { height })
        }),
        col.impact == ' ' ==> view_span(col, height) == (height / 2, height / 2),
{
}

/// What a textured column shows, row by row, from the top: the sky
/// texture at (screen column, screen row) wrapped to its size above the
/// wall; on the wall the goal texture for a goal cell (`g`, `G`) and the
/// wall texture otherwise, at the column where the ray hit the wall
/// (`wall_tex_x`) and the row `wall_rows` gives, both wrapped; on the floor
/// the floor texture at the texel the row shows, both coordinates wrapped,
/// and no change of colour on a floor row that shows none.
pub proof fn law_textured_column_rows(
    x: int,
    height: int,
    col: ColumnView,
    sky: TextureState,
    wall: TextureState,
    goal: TextureState,
    floor: TextureState,
    y: int,
)
    requires
        0 <= y < height,
    ensures
        ({
            let (start, end) = view_span(col, height);
            let s = textured_settings(x, height, col, sky, wall, goal, floor);
            let hit = if col.impact == 'g' || col.impact == 'G' { goal } else { wall };
            &&& s.len() == height
            &&& y < start ==> s[y] == Some(sky.texel((x as u32) as int % (sky.width as int), (y as u32) as int % (sky.height as int)))
            &&& start <= y < end ==> s[y] == Some(hit.texel(
                col.wall_tex_x as int % (hit.width as int),
                col.wall_rows@[y - start] as int % (hit.height as int),
            ))
            &&& end <= y ==> (match col.floor_texels@[y - end] {
                Some((u, v)) => s[y] == Some(floor.texel(u as int % (floor.width as int), v as int % (floor.height as int))),
                None => s[y] is None,
            })
        }),
{
}

/// A textured column's wall and floor rows depend only on what its ray
/// found, not on its position on the screen: two columns with the same
/// view show the same wall and floor colours.
pub proof fn law_textured_wall_and_floor_ignore_position(
    x1: int,
    x2: int,
    height: int,
    col: ColumnView,
    sky: TextureState,
    wall: TextureState,
    goal: TextureState,
    floor: TextureState,
    y: int,
)
    requires
        view_span(col, height).0 <= y < height,
    ensures
        textured_settings(x1, height, col, sky, wall, goal, floor)[y] == textured_settings(x2, height, col, sky, wall, goal, floor)[y],
{
    law_textured_column_rows(x1, height, col, sky, wall, goal, floor, y);
    law_textured_column_rows(x2, height, col, sky, wall, goal, floor, y);
}

/// What a column shows in solid-colour mode, row by row: midnight blue sky
/// above the wall, the wall in bright green for a goal cell and forest green
/// otherwise, dark olive floor below.
pub proof fn law_solid_column_rows(
    x: int,
    height: int,
    col: ColumnView,
    sky: TextureState,
    wall: TextureState,
    goal: TextureState,
    floor: TextureState,
    y: int,
)
    requires
        0 <= y < height,
    ensures
        ({
            let (start, end) = view_span(col, height);
            let s = view_settings(x, height, col, false, sky, wall, goal, floor);
            &&& y < start ==> s[y] == Some(0x191970u32)
            &&& start <= y < end ==> s[y] == Some(if col.impact == 'g' || col.impact == 'G' { 0x00FF00u32 } else { 0x228B22u32 })
            &&& end <= y ==> s[y] == Some(0x556B2Fu32)
        }),
{
}

/// The rows a wall covers: from `(height - wall_height) / 2` (from 0 when
/// it is taller than the screen) for `wall_height` rows, cut at the bottom.
pub proof fn law_wall_span_rows(wall_height: int, height: int)
    ensures
        spec_wall_span(wall_height, height).0 == (if wall_height > height { 0 } else { (height - wall_height) / 2 }),
        spec_wall_span(wall_height, height).1 == (if spec_wall_span(wall_height, height).0 + wall_height < height {
            spec_wall_span(wall_height, height).0 + wall_height
        } else {
            height
        }),
{
}

/// Drawing rows down a column keeps the last colour switched to: a row
/// shows the colour of the nearest row at or above it that switched colour,
/// or the colour current before the column where none did.
pub proof fn law_carried_is_last_switch(initial: u32, s: Seq<Option<u32>>, k: int, n: int)
    requires
        0 <= k < n <= s.len(),
        s[k] is Some,
        forall|j: int| k < j < n ==> #[trigger] s[j] is None,
    ensures
        carried_color(initial, s, n) == s[k]->0,
    decreases n,
{
    if n - 1 > k {
        law_carried_is_last_switch(initial, s, k, n - 1);
    }
}

/// With no switch of colour in the first `n` rows, the colour stays the one
/// current before the column.
pub proof fn law_carried_without_switch(initial: u32, s: Seq<Option<u32>>, n: int)
    requires
        0 <= n <= s.len(),
        forall|j: int| 0 <= j < n ==> #[trigger] s[j] is None,
    ensures
        carried_color(initial, s, n) == initial,
    decreases n,
{
    if n > 0 {
        law_carried_without_switch(initial, s, n - 1);
    }
}

/// Drawing a column paints exactly rows `0 .. settings.len()` of that
/// column, row `y` in the colour current once row `y` has switched.
pub proof fn law_column_paint_cells(x: int, initial: u32, s: Seq<Option<u32>>, px: int, py: int)
    ensures
        column_paint(x, initial, s)(px, py) == (if px == x && 0 <= py < s.len() {
            Some(carried_color(initial, s, py + 1))
        } else {
            None
        }),
        (px == x && 0 <= py < s.len() && s[py] is Some) ==> column_paint(x, initial, s)(px, py) == s[py],
{
}

/// The colours of the maze's cells: goal cells `g` and `G` bright green
/// `0x00FF00`, every other cell forest green `0x228B22`.
pub proof fn law_cell_colors(c: char)
    ensures
        (c == 'g' || c == 'G') ==> spec_cell_color(c) == 0x00FF00u32,
        !(c == 'g' || c == 'G') ==> spec_cell_color(c) == 0x228B22u32,
{
}

/// Packing and unpacking colours, in arithmetic: `0xAARRGGBB` is
/// `a * 2^24 + r * 2^16 + g * 2^8 + b`, and the channels of a colour are its
/// bytes 2, 1 and 0.
pub proof fn law_color_bytes(a: u8, r: u8, g: u8, b: u8, c: u32)
    ensures
        spec_argb(a, r, g, b) == a * 0x1000000 + r * 0x10000 + g * 0x100 + b,
        spec_rgb(r, g, b) == r * 0x10000 + g * 0x100 + b,
        spec_rgb_channels(c) == ((c / 0x10000 % 0x100) as u8, (c / 0x100 % 0x100) as u8, (c % 0x100) as u8),
{
    let (a32, r32, g32, b32) = (a as u32, r as u32, g as u32, b as u32);
    assert(((a32 << 24u32) | (r32 << 16u32) | (g32 << 8u32) | b32) == a32 * 0x1000000 + r32 * 0x10000 + g32 * 0x100 + b32)
        by (bit_vector)
        requires
            a32 < 256,
            r32 < 256,
            g32 < 256,
            b32 < 256,
    ;
    assert(((r32 << 16u32) | (g32 << 8u32) | b32) == r32 * 0x10000 + g32 * 0x100 + b32) by (bit_vector)
        requires
            r32 < 256,
            g32 < 256,
            b32 < 256,
    ;
    assert((c >> 16u32) & 0xFFu32 == c / 0x10000 % 0x100 && (c >> 8u32) & 0xFFu32 == c / 0x100 % 0x100 && c & 0xFFu32 == c % 0x100)
        by (bit_vector);
}

/// A texel is the four bytes at offset `4 * (y * width + x)`, read as red,
/// green, blue and alpha and packed as `0xAARRGGBB`; outside the texture it is 0.
pub proof fn law_texel_bytes(t: TextureState, x: int, y: int)
    ensures
        ({
            let i = (y * t.width + x) * 4;
            (0 <= x < t.width && 0 <= y < t.height) ==> t.texel(x, y)
                == t.rgba[i + 3] * 0x1000000 + t.rgba[i] * 0x10000 + t.rgba[i + 1] * 0x100 + t.rgba[i + 2]
        }),
        !(0 <= x < t.width && 0 <= y < t.height) ==> t.texel(x, y) == 0,
{
    if 0 <= x < t.width && 0 <= y < t.height {
        let i = (y * t.width + x) * 4;
        law_color_bytes(t.rgba[i + 3], t.rgba[i], t.rgba[i + 1], t.rgba[i + 2], 0);
    }
}

/// Pixels are stored row by row: pixel `(x, y)` is entry `y * width + x`,
/// and plotting on the grid sets exactly that entry to the current colour.
pub proof fn law_row_major_pixels(s: FrameState, x: int, y: int)
    ensures
        s.pixel(x, y) == s.pixels[y * s.width + x],
        (0 <= x < s.width && 0 <= y < s.height) ==> s.plot(x, y).pixels == s.pixels.update(y * s.width + x, s.current),
        !(0 <= x < s.width && 0 <= y < s.height) ==> s.plot(x, y) == s,
        s.plot(x, y).current == s.current,
{
}

/// T flips the texture mode on the frame it goes down, and the mode then
/// remembers whether T is held.
pub proof fn law_texture_mode_step(mode: TextureMode, t_down: bool)
    ensures
        spec_texture_mode_step(mode, t_down).t_was_down == t_down,
        spec_texture_mode_step(mode, t_down).use_textures == (if t_down && !mode.t_was_down {
            !mode.use_textures
        } else {
            mode.use_textures
        }),
{
}

/// The pixels that a text lights: with `p = 8 * scale + 2` the distance
/// between characters, pixel `(px, py)` at or right of and below the corner
/// belongs to character `(px - x0) / p`, at column `((px - x0) % p) / scale`
/// and row `(py - y0) / scale` of its 8 by 8 bitmap; it is lit exactly when
/// that character is in the text, the font holds it, the position falls in
/// the bitmap (the last 2 pixels of each pitch are the gap) and bit `column`
/// of bitmap row `row` is set.
pub proof fn law_text_pixels(text: Seq<char>, x0: int, y0: int, scale: int, px: int, py: int)
    ensures
        text_lit(text, x0, y0, scale, px, py) <==> ({
            let p = 8 * scale + 2;
            let k = (px - x0) / p;
            let col = ((px - x0) % p) / scale;
            let row = (py - y0) / scale;
            &&& scale > 0
            &&& x0 <= px
            &&& y0 <= py < y0 + 8 * scale
            &&& k < text.len()
            &&& (px - x0) % p < 8 * scale
            &&& basic_glyph(text[k]) matches Some(g)
            &&& (g@[row] & (1u8 << (col as u8))) != 0
        }),
{
    if scale > 0 && x0 <= px {
        let p = 8 * scale + 2;
        vstd::arithmetic::div_mod::lemma_fundamental_div_mod(px - x0, p);
        let k = (px - x0) / p;
        let r = (px - x0) % p;
        assert(px - x0 == k * p + r) by (nonlinear_arith)
            requires
                px - x0 == p * k + r,
        ;
        assert(k >= 0) by (nonlinear_arith)
            requires
                px - x0 == k * p + r,
                0 <= r < p,
                px - x0 >= 0,
        ;
        assert(px - (x0 + k * p) == r);
        if y0 <= py {
            vstd::arithmetic::div_mod::lemma_fundamental_div_mod(py - y0, scale);
            vstd::arithmetic::div_mod::lemma_fundamental_div_mod(r, scale);
            if py - y0 < 8 * scale {
                assert((py - y0) / scale < 8) by (nonlinear_arith)
                    requires
                        py - y0 == scale * ((py - y0) / scale) + (py - y0) % scale,
                        0 <= (py - y0) % scale,
                        py - y0 < 8 * scale,
                        scale > 0,
                ;
            }
            if r < 8 * scale {
                assert(r / scale < 8) by (nonlinear_arith)
                    requires
                        r == scale * (r / scale) + r % scale,
                        0 <= r % scale,
                        r < 8 * scale,
                        scale > 0,
                ;
            }
            assert((py - y0) / scale >= 0) by (nonlinear_arith)
                requires
                    py - y0 == scale * ((py - y0) / scale) + (py - y0) % scale,
                    (py - y0) % scale < scale,
                    py - y0 >= 0,
                    scale > 0,
            ;
            assert(r / scale >= 0) by (nonlinear_arith)
                requires
                    r == scale * (r / scale) + r % scale,
                    r % scale < scale,
                    r >= 0,
                    scale > 0,
            ;
        }
    }
}

/// The minimap's colours: with the map's left edge `ox = width - 4 * (first
/// row's length) - 20` and top edge 20, the player's 5 by 5 marker at
/// `(ox + mx, 20 + my)` is white; elsewhere a non-space cell `(i, j)` shows
/// its colour over pixels `ox + 4i .. ox + 4i + 4` by `20 + 4j .. 20 + 4j + 4`;
/// the rest of the map is `0x111122`, its 2-pixel frame white, and nothing
/// else is drawn.
pub proof fn law_minimap_layers(width: int, maze: Seq<Vec<char>>, mx: int, my: int, px: int, py: int)
    ensures
        ({
            let ox = width - maze[0]@.len() * 4 - 20;
            let oy: int = 20;
            let cx = ox + mx;
            let cy = oy + my;
            let marker = (if cx >= 2 { cx - 2 } else { 0 }) <= px <= cx + 2 && (if cy >= 2 { cy - 2 } else { 0 }) <= py <= cy + 2;
            let i = (px - ox) / 4;
            let j = (py - oy) / 4;
            let on_cell = ox <= px && oy <= py && j < maze.len() && i < maze[j]@.len() && maze[j]@[i] != ' ';
            let on_map = ox <= px < ox + maze[0]@.len() * 4 && oy <= py < oy + maze.len() * 4;
            let on_frame = ox - 2 <= px < ox + maze[0]@.len() * 4 + 2 && oy - 2 <= py < oy + maze.len() * 4 + 2;
            &&& marker ==> minimap_color(width, maze, mx, my, px, py) == Some(0xFFFFFFu32)
            &&& (!marker && on_cell) ==> minimap_color(width, maze, mx, my, px, py) == Some(
                if maze[j]@[i] == 'g' || maze[j]@[i] == 'G' { 0x00FF00u32 } else { 0x228B22u32 })
            &&& (!marker && !on_cell && on_map) ==> minimap_color(width, maze, mx, my, px, py) == Some(0x111122u32)
            &&& (!marker && !on_cell && !on_map && on_frame) ==> minimap_color(width, maze, mx, my, px, py) == Some(0xFFFFFFu32)
            &&& (!marker && !on_cell && !on_frame) ==> minimap_color(width, maze, mx, my, px, py) is None
        }),
{
}

/// Reading characters without a line break only extends the line begun.
proof fn lemma_scan_no_break(s: Seq<char>, n: int)
    requires
        0 <= n <= s.len(),
        forall|i: int| 0 <= i < n ==> #[trigger] s[i] != '\n',
    ensures
        scan_lines(s, n) == (Seq::<Seq<char>>::empty(), s.take(n)),
    decreases n,
{
    if n > 0 {
        lemma_scan_no_break(s, n - 1);
        assert(s.take(n - 1).push(s[n - 1]) =~= s.take(n));
    }
}

/// Scanning depends only on the characters read so far.
proof fn lemma_scan_prefix(t: Seq<char>, u: Seq<char>, m: int)
    requires
        0 <= m <= t.len(),
        m <= u.len(),
        forall|i: int| 0 <= i < m ==> #[trigger] t[i] == u[i],
    ensures
        scan_lines(t, m) == scan_lines(u, m),
    decreases m,
{
    if m > 0 {
        lemma_scan_prefix(t, u, m - 1);
    }
}

/// After a text that ends its last line, scanning goes on as from scratch.
proof fn lemma_scan_concat(a: Seq<char>, b: Seq<char>, n: int)
    requires
        scan_lines(a, a.len() as int).1.len() == 0,
        0 <= n <= b.len(),
    ensures
        scan_lines(a + b, a.len() + n) == (scan_lines(a, a.len() as int).0 + scan_lines(b, n).0, scan_lines(b, n).1),
    decreases n,
{
    if n == 0 {
        lemma_scan_prefix(a + b, a, a.len() as int);
        assert(scan_lines(a, a.len() as int).0 + scan_lines(b, 0).0 =~= scan_lines(a, a.len() as int).0);
        assert(scan_lines(a, a.len() as int).1 =~= scan_lines(b, 0).1);
    } else {
        lemma_scan_concat(a, b, n - 1);
        let (ra, _) = scan_lines(a, a.len() as int);
        let (rb, cb) = scan_lines(b, n - 1);
        assert((a + b)[a.len() + n - 1] == b[n - 1]);
        if b[n - 1] == '\n' {
            assert((ra + rb).push(strip_cr(cb)) =~= ra + rb.push(strip_cr(cb)));
        }
    }
}

/// How a maze file splits into rows: a text without line breaks is one row
/// (none when empty); a line followed by a line break is a row, without a
/// carriage return just before the break, and the rest of the text splits
/// on its own after it.
pub proof fn law_text_lines(line: Seq<char>, rest: Seq<char>)
    requires
        forall|i: int| 0 <= i < line.len() ==> #[trigger] line[i] != '\n',
    ensures
        text_lines(line) == (if line.len() > 0 { seq![line] } else { Seq::<Seq<char>>::empty() }),
        text_lines(line + seq!['\n'] + rest) == seq![
            if line.len() > 0 && line[line.len() - 1] == '\r' { line.take(line.len() - 1) } else { line }
        ] + text_lines(rest),
{
    lemma_scan_no_break(line, line.len() as int);
    assert(line.take(line.len() as int) =~= line);
    let a = line + seq!['\n'];
    lemma_scan_prefix(a, line, line.len() as int);
    assert(a[line.len() as int] == '\n');
    assert(scan_lines(a, a.len() as int) == (seq![strip_cr(line)], Seq::<char>::empty()));
    lemma_scan_concat(a, rest, rest.len() as int);
    assert(line + seq!['\n'] + rest =~= a + rest);
    let (rb, cb) = scan_lines(rest, rest.len() as int);
    if cb.len() > 0 {
        assert((seq![strip_cr(line)] + rb).push(cb) =~= seq![strip_cr(line)] + rb.push(cb));
    }
    if line.len() > 0 && line[line.len() - 1] == '\r' {
        assert(line.drop_last() =~= line.take(line.len() - 1));
    }
}

/// The colour a column leaves current, and so the one the next column
/// starts from: dark olive floor after a solid-colour wall column, else the
/// colour in force at its bottom row; the first column starts from the
/// colour current before the view is drawn.
pub proof fn law_view_colours_between_columns(
    initial: u32,
    cols: Seq<ColumnView>,
    x: int,
    height: int,
    use_textures: bool,
    sky: TextureState,
    wall: TextureState,
    goal: TextureState,
    floor: TextureState,
)
    requires
        0 <= x < cols.len(),
    ensures
        view_start_color(initial, cols, 0, height, use_textures, sky, wall, goal, floor) == initial,
        view_start_color(initial, cols, x + 1, height, use_textures, sky, wall, goal, floor)
            == view_end_color(view_start_color(initial, cols, x, height, use_textures, sky, wall, goal, floor), x, height, cols[x], use_textures, sky, wall, goal, floor),
        (!use_textures && cols[x].impact != ' ') ==> view_end_color(initial, x, height, cols[x], use_textures, sky, wall, goal, floor) == 0x556B2Fu32,
        (use_textures || cols[x].impact == ' ') ==> view_end_color(initial, x, height, cols[x], use_textures, sky, wall, goal, floor)
            == carried_color(initial, view_settings(x, height, cols[x], use_textures, sky, wall, goal, floor), height),
{
}

/// The view paints column `x` for every entry `x` of `cols` and rows
/// `0 .. height`, each pixel in the colour in force at its row, and nothing else.
pub proof fn law_view_paints_every_column(
    initial: u32,
    cols: Seq<ColumnView>,
    height: int,
    use_textures: bool,
    sky: TextureState,
    wall: TextureState,
    goal: TextureState,
    floor: TextureState,
    px: int,
    py: int,
)
    ensures
        view_paint(initial, cols, height, use_textures, sky, wall, goal, floor)(px, py) == (if 0 <= px < cols.len() && 0 <= py < height {
            Some(carried_color(
                view_start_color(initial, cols, px, height, use_textures, sky, wall, goal, floor),
                view_settings(px, height, cols[px], use_textures, sky, wall, goal, floor),
                py + 1,
            ))
        } else {
            None
        }),
{
}

} // verus!
