use vstd::prelude::*;
use crate::framebuffer::{FrameState, lemma_pixel_index};
use crate::draw::lemma_plot_painted;
use crate::maze::{spec_can_stand, spec_ray_probe, cell_under};
use crate::render::spec_wall_span;
use crate::text::{text_lit, char_lit, char_pitch, char_left, basic_glyph};
use crate::draw::{painted, recolored};
use crate::framebuffer::lemma_frames_equal;
use crate::render::{
    column_paint, column_of, textured_settings, ColumnView, view_drawn, view_settings, view_span, view_start_color,
    view_end_color, carried_color,
};
use crate::text::{text_fits, glyph_rows_fit};
use crate::texture::TextureState;
use crate::game::{GameState, Keys, spec_next_state, spec_selected_level, spec_mouse_turn, TextureMode, spec_texture_mode_step};
use crate::minimap::{minimap_color, in_frame, in_marker, cell_pixel, minimap_left, minimap_top};

verus! {

/// Plotting a pixel on the grid and reading it back gives the current
/// colour, and leaves every other pixel as it was.
pub proof fn law_plot_reads_back(s: FrameState, x: int, y: int)
    requires
        s.well_formed(),
        s.in_bounds(x, y),
    ensures
        s.plot(x, y).pixel(x, y) == s.current,
        forall|px: int, py: int| s.in_bounds(px, py) && !(px == x && py == y)
            ==> #[trigger] s.plot(x, y).pixel(px, py) == s.pixel(px, py),
        s.plot(x, y).well_formed(),
{
    lemma_plot_painted(s, x, y);
    assert(s.plot(x, y).pixel(x, y) == s.current);
}

/// Plotting the same pixel twice is the same as plotting it once.
pub proof fn law_plot_idempotent(s: FrameState, x: int, y: int)
    requires
        s.well_formed(),
    ensures
        s.plot(x, y).plot(x, y) == s.plot(x, y),
{
    if s.in_bounds(x, y) {
        lemma_pixel_index(s.width, s.height, x, y, x, y);
        assert(s.plot(x, y).plot(x, y).pixels =~= s.plot(x, y).pixels);
    }
}

/// Plotting two pixels gives the same frame in either order.
pub proof fn law_plot_commutes(s: FrameState, x1: int, y1: int, x2: int, y2: int)
    requires
        s.well_formed(),
    ensures
        s.plot(x1, y1).plot(x2, y2) == s.plot(x2, y2).plot(x1, y1),
{
    if s.in_bounds(x1, y1) {
        lemma_pixel_index(s.width, s.height, x1, y1, x1, y1);
    }
    if s.in_bounds(x2, y2) {
        lemma_pixel_index(s.width, s.height, x2, y2, x2, y2);
    }
    if s.in_bounds(x1, y1) && s.in_bounds(x2, y2) {
        assert(s.plot(x1, y1).plot(x2, y2).pixels =~= s.plot(x2, y2).plot(x1, y1).pixels);
    }
}

/// Text lights only pixels inside its box: from its top left corner,
/// `8 * scale + 2` pixels per character across and `8 * scale` down; with
/// scale 0 it lights nothing.
pub proof fn law_text_stays_in_box(text: Seq<char>, x0: int, y0: int, scale: int, px: int, py: int)
    requires
        text_lit(text, x0, y0, scale, px, py),
    ensures
        scale > 0,
        x0 <= px < x0 + text.len() * char_pitch(scale),
        y0 <= py < y0 + 8 * scale,
{
    let k = (px - x0) / char_pitch(scale);
    assert(char_left(x0, scale, k) <= px < char_left(x0, scale, k) + 8 * scale);
    assert(k * char_pitch(scale) + char_pitch(scale) <= text.len() * char_pitch(scale)) by (nonlinear_arith)
        requires
            0 <= k < text.len(),
            char_pitch(scale) > 0,
    ;
}

/// Each lit pixel of a text belongs to the character whose box holds it:
/// boxes of consecutive characters are two pixels apart and never overlap.
pub proof fn law_text_char_of_pixel(text: Seq<char>, x0: int, y0: int, scale: int, k: int, px: int, py: int)
    requires
        scale > 0,
        0 <= k < text.len(),
        char_left(x0, scale, k) <= px < char_left(x0, scale, k) + 8 * scale,
    ensures
        (px - x0) / char_pitch(scale) == k,
{
    crate::draw::lemma_cell_of(x0, char_pitch(scale), k, px);
}

/// A wall is drawn centred: it covers `min(wall_height, height)` rows, with
/// as many rows above it as below it, give or take one.
pub proof fn law_wall_span_centred(wall_height: int, height: int)
    requires
        0 <= wall_height,
        0 <= height,
    ensures
        ({
            let (start, end) = spec_wall_span(wall_height, height);
            &&& 0 <= start <= end <= height
            &&& end - start == (if wall_height < height { wall_height } else { height })
            &&& start <= height - end <= start + 1
        }),
{
}

/// Where the maze's collision step leaves the player.
pub open spec fn slide_target(maze: Seq<Vec<char>>, block_size: int, x: int, y: int, new_x: int, new_y: int) -> (int, int) {
    let move_x = spec_can_stand(maze, new_x, y, block_size);
    let fx = if move_x { new_x } else { x };
    let move_y = spec_can_stand(maze, fx, new_y, block_size);
    (fx, if move_y { new_y } else { y })
}

/// A player standing on a walkable cell still stands on one after any
/// move: the collision step never lets it into a wall or out of the maze.
pub proof fn law_slide_keeps_player_on_floor(maze: Seq<Vec<char>>, block_size: int, x: int, y: int, new_x: int, new_y: int)
    requires
        block_size > 0,
        spec_can_stand(maze, x, y, block_size),
    ensures
        ({
            let (fx, fy) = slide_target(maze, block_size, x, y, new_x, new_y);
            spec_can_stand(maze, fx, fy, block_size)
        }),
{
}

/// A ray stops exactly at the points that are not open floor of the maze,
/// and reports open floor only when it has left the maze.
pub proof fn law_ray_stops_off_floor(maze: Seq<Vec<char>>, x: int, y: int, block_size: int)
    ensures
        spec_ray_probe(maze, x, y, block_size) is None <==> cell_under(maze, x, y, block_size) == Some(' '),
        spec_ray_probe(maze, x, y, block_size) == Some(' ') <==> cell_under(maze, x, y, block_size) is None,
{
}

/// The success screen is reached only from play, in a frame in which the
/// player stands on the goal.
pub proof fn law_success_only_at_goal(state: GameState, keys: Keys, at_goal: bool)
    requires
        state != GameState::Success,
        spec_next_state(state, keys, at_goal).0 == GameState::Success,
    ensures
        state == GameState::Playing,
        at_goal,
{
}

/// Play starts only from the title screen, exactly when a level key is
/// held, and then loads that level; otherwise no level is loaded.
pub proof fn law_levels_load_on_start(state: GameState, keys: Keys, at_goal: bool)
    ensures
        (spec_next_state(state, keys, at_goal).0 == GameState::Playing && state != GameState::Playing)
            <==> (state == GameState::Welcome && spec_selected_level(keys) > 0),
        spec_next_state(state, keys, at_goal).1 is Some <==> (state == GameState::Welcome && spec_selected_level(keys) > 0),
        spec_next_state(state, keys, at_goal).1 matches Some(level) ==> 1 <= level <= 3 && level == spec_selected_level(keys),
{
}

/// Enter is the only way out of the success screen, and it leads to the title.
pub proof fn law_enter_leaves_success(keys: Keys, at_goal: bool)
    ensures
        spec_next_state(GameState::Success, keys, at_goal).0 == (if keys.enter { GameState::Welcome } else { GameState::Success }),
{
}

/// For a maze whose rows are all as long as the first, the minimap draws
/// nothing outside its frame but the player's marker.
pub proof fn law_minimap_stays_in_frame(width: int, maze: Seq<Vec<char>>, mx: int, my: int, px: int, py: int)
    requires
        maze.len() > 0,
        forall|j: int| 0 <= j < maze.len() ==> #[trigger] maze[j]@.len() == maze[0]@.len(),
        minimap_color(width, maze, mx, my, px, py) is Some,
    ensures
        in_frame(width, maze, px, py) || in_marker(width, maze, mx, my, px, py),
{
    if cell_pixel(width, maze, px, py) is Some && !in_marker(width, maze, mx, my, px, py) {
        let ox = minimap_left(width, maze);
        let oy = minimap_top();
        let i = (px - ox) / 4;
        let j = (py - oy) / 4;
        assert(maze[j]@.len() == maze[0]@.len());
        vstd::arithmetic::div_mod::lemma_fundamental_div_mod(px - ox, 4);
        vstd::arithmetic::div_mod::lemma_fundamental_div_mod(py - oy, 4);
    }
}

/// A text lights the pixels that its first part lights from the same corner
/// and those that its second part lights from one character pitch further
/// right per character of the first part, drawn or not.
pub proof fn law_text_concat(s1: Seq<char>, s2: Seq<char>, x0: int, y0: int, scale: int, px: int, py: int)
    ensures
        text_lit(s1 + s2, x0, y0, scale, px, py) <==> (text_lit(s1, x0, y0, scale, px, py)
            || text_lit(s2, x0 + s1.len() * char_pitch(scale), y0, scale, px, py)),
{
    if scale > 0 {
        let p = char_pitch(scale);
        let n1 = s1.len() as int;
        let x2 = x0 + n1 * p;
        let t = s1 + s2;
        if x0 <= px {
            let idx = (px - x0) / p;
            let r = (px - x0) % p;
            vstd::arithmetic::div_mod::lemma_fundamental_div_mod(px - x0, p);
            assert(px - x0 == idx * p + r) by (nonlinear_arith)
                requires
                    px - x0 == p * idx + r,
            ;
            assert(idx >= 0) by (nonlinear_arith)
                requires
                    px - x0 == idx * p + r,
                    0 <= r < p,
                    px - x0 >= 0,
            ;
            if idx < n1 {
                assert(px < x2) by (nonlinear_arith)
                    requires
                        px - x0 == idx * p + r,
                        r < p,
                        idx + 1 <= n1,
                        p > 0,
                        x2 == x0 + n1 * p,
                ;
                assert(t[idx] == s1[idx]);
                assert(char_lit(t, x0, y0, scale, idx, px, py) == char_lit(s1, x0, y0, scale, idx, px, py));
            } else {
                assert(px - x2 == (idx - n1) * p + r) by (nonlinear_arith)
                    requires
                        px - x0 == idx * p + r,
                        x2 == x0 + n1 * p,
                ;
                crate::draw::lemma_cell_of(x2, p, idx - n1, px);
                assert(x2 <= px) by (nonlinear_arith)
                    requires
                        px - x2 == (idx - n1) * p + r,
                        idx >= n1,
                        0 <= r,
                        p > 0,
                ;
                assert(char_left(x0, scale, idx) == char_left(x2, scale, idx - n1)) by (nonlinear_arith)
                    requires
                        x2 == x0 + n1 * p,
                        p == char_pitch(scale),
                ;
                if idx < t.len() {
                    assert(t[idx] == s2[idx - n1]);
                }
                assert(char_lit(t, x0, y0, scale, idx, px, py) == char_lit(s2, x2, y0, scale, idx - n1, px, py));
            }
        } else {
            assert(!(x2 <= px)) by (nonlinear_arith)
                requires
                    px < x0,
                    x2 == x0 + n1 * p,
                    n1 >= 0,
                    p > 0,
            ;
        }
    }
}

/// A character that the font lacks lights nothing but still takes a full
/// character cell: the text after it is drawn one pitch further right.
pub proof fn law_blank_char(c: char, t: Seq<char>, x0: int, y0: int, scale: int, px: int, py: int)
    requires
        basic_glyph(c) is None,
    ensures
        !text_lit(seq![c], x0, y0, scale, px, py),
        text_lit(seq![c] + t, x0, y0, scale, px, py) <==> text_lit(t, x0 + char_pitch(scale), y0, scale, px, py),
{
    law_text_concat(seq![c], t, x0, y0, scale, px, py);
}

/// Writing a text in two parts, the second from one pitch per character of
/// the first further right, leaves the same frame as writing it whole.
pub proof fn law_text_in_two_parts(
    s1: Seq<char>,
    s2: Seq<char>,
    x0: int,
    y0: int,
    scale: int,
    a: FrameState,
    b: FrameState,
    c: FrameState,
    d: FrameState,
)
    requires
        a.well_formed(),
        painted(a, b, |px: int, py: int| text_lit(s1, x0, y0, scale, px, py)),
        painted(b, c, |px: int, py: int| text_lit(s2, x0 + s1.len() * char_pitch(scale), y0, scale, px, py)),
        painted(a, d, |px: int, py: int| text_lit(s1 + s2, x0, y0, scale, px, py)),
    ensures
        c == d,
{
    assert forall|px: int, py: int| c.in_bounds(px, py) implies #[trigger] c.pixel(px, py) == d.pixel(px, py) by {
        law_text_concat(s1, s2, x0, y0, scale, px, py);
        assert(b.pixel(px, py) == (if text_lit(s1, x0, y0, scale, px, py) { a.current } else { a.pixel(px, py) }));
        assert(c.pixel(px, py) == (if text_lit(s2, x0 + s1.len() * char_pitch(scale), y0, scale, px, py) { b.current } else { b.pixel(px, py) }));
        assert(d.pixel(px, py) == (if text_lit(s1 + s2, x0, y0, scale, px, py) { a.current } else { a.pixel(px, py) }));
    }
    lemma_frames_equal(c, d);
}

/// Every column painter gives a colour to every row of its column.
pub proof fn law_column_painters_cover_the_column(
    x: int,
    height: int,
    initial: u32,
    col: ColumnView,
    sky: TextureState,
    wall: TextureState,
    goal: TextureState,
    floor: TextureState,
    color: spec_fn(int) -> u32,
    y: int,
)
    requires
        0 <= y < height,
    ensures
        column_paint(x, initial, textured_settings(x, height, col, sky, wall, goal, floor))(x, y) is Some,
        column_of(x, height, color)(x, y) is Some,
{
}

/// A pixel that a recolouring sets ends with the same colour whatever the
/// frame held before: painting a whole column forgets what the column showed.
pub proof fn law_recolor_forgets_prior(
    a1: FrameState,
    b1: FrameState,
    a2: FrameState,
    b2: FrameState,
    paint: spec_fn(int, int) -> Option<u32>,
    x: int,
    y: int,
)
    requires
        recolored(a1, b1, paint),
        recolored(a2, b2, paint),
        b1.in_bounds(x, y),
        b2.in_bounds(x, y),
        paint(x, y) is Some,
    ensures
        b1.pixel(x, y) == b2.pixel(x, y),
{
    assert(b1.pixel(x, y) == paint(x, y)->0);
    assert(b2.pixel(x, y) == paint(x, y)->0);
}

/// A new press of T flips the texture mode, and keeping T held flips
/// nothing more; releasing it flips nothing.
pub proof fn law_t_press_flips_once(mode: TextureMode)
    ensures
        !mode.t_was_down ==> spec_texture_mode_step(mode, true).use_textures == !mode.use_textures,
        spec_texture_mode_step(spec_texture_mode_step(mode, true), true).use_textures
            == spec_texture_mode_step(mode, true).use_textures,
        spec_texture_mode_step(mode, false).use_textures == mode.use_textures,
{
}

/// The mouse turns the camera by its net horizontal movement: the turns of
/// consecutive frames add up to the movement between the first and last
/// position, and a mouse that does not move does not turn it.
pub proof fn law_mouse_turns_add_up(a: i32, b: i32, c: i32)
    ensures
        spec_mouse_turn(Some(a), Some(b)) + spec_mouse_turn(Some(b), Some(c)) == spec_mouse_turn(Some(a), Some(c)),
        spec_mouse_turn(Some(a), Some(a)) == 0,
        (b > a) ==> spec_mouse_turn(Some(a), Some(b)) > 0,
        (b < a) ==> spec_mouse_turn(Some(a), Some(b)) < 0,
{
}

/// A taller wall covers at least as many rows, starting no lower: a nearer
/// wall, which appears taller, is drawn at least as tall and as high.
pub proof fn law_taller_wall_spans_more(wh1: int, wh2: int, height: int)
    requires
        0 <= wh2 <= wh1,
        0 <= height,
    ensures
        spec_wall_span(wh1, height).1 - spec_wall_span(wh1, height).0
            >= spec_wall_span(wh2, height).1 - spec_wall_span(wh2, height).0,
        spec_wall_span(wh1, height).0 <= spec_wall_span(wh2, height).0,
{
    if wh1 <= height {
        vstd::arithmetic::div_mod::lemma_div_is_ordered(height - wh1, height - wh2, 2);
    }
}

/// Once a column's first row sets a colour, the colours carried down it do
/// not depend on the colour current before it.
proof fn lemma_carried_forgets_initial(i1: u32, i2: u32, s: Seq<Option<u32>>, n: int)
    requires
        1 <= n <= s.len(),
        s[0] is Some,
    ensures
        carried_color(i1, s, n) == carried_color(i2, s, n),
    decreases n,
{
    if n > 1 {
        lemma_carried_forgets_initial(i1, i2, s, n - 1);
    }
}

/// On a screen at least two rows tall, the first row of every column of the
/// view sets a colour: sky, or a wall that reaches the top.
proof fn lemma_view_first_row_set(
    x: int,
    height: int,
    col: ColumnView,
    use_textures: bool,
    sky: TextureState,
    wall: TextureState,
    goal: TextureState,
    floor: TextureState,
)
    requires
        height >= 2,
    ensures
        view_settings(x, height, col, use_textures, sky, wall, goal, floor)[0] is Some,
{
    let (start, end) = view_span(col, height);
    if use_textures && start == 0 {
        assert(col.impact != ' ');
        assert(end > 0);
    }
}

/// The colour a column leaves current does not depend on the colour current
/// before it, on a screen at least two rows tall.
proof fn lemma_view_end_forgets_initial(
    i1: u32,
    i2: u32,
    x: int,
    height: int,
    col: ColumnView,
    use_textures: bool,
    sky: TextureState,
    wall: TextureState,
    goal: TextureState,
    floor: TextureState,
)
    requires
        height >= 2,
    ensures
        view_end_color(i1, x, height, col, use_textures, sky, wall, goal, floor)
            == view_end_color(i2, x, height, col, use_textures, sky, wall, goal, floor),
{
    lemma_view_first_row_set(x, height, col, use_textures, sky, wall, goal, floor);
    lemma_carried_forgets_initial(i1, i2, view_settings(x, height, col, use_textures, sky, wall, goal, floor), height);
}

/// Drawing the view, one column per screen column on a screen at least two
/// rows tall, repaints every pixel: the frame it leaves depends only on the
/// columns and the textures, not on what the frame held before.
pub proof fn law_view_forgets_prior(
    a1: FrameState,
    b1: FrameState,
    a2: FrameState,
    b2: FrameState,
    cols: Seq<ColumnView>,
    use_textures: bool,
    sky: TextureState,
    wall: TextureState,
    goal: TextureState,
    floor: TextureState,
)
    requires
        a1.width == a2.width,
        a1.height == a2.height,
        a1.background == a2.background,
        a1.height >= 2,
        cols.len() == a1.width,
        cols.len() >= 1,
        view_drawn(a1, b1, cols, use_textures, sky, wall, goal, floor),
        view_drawn(a2, b2, cols, use_textures, sky, wall, goal, floor),
    ensures
        b1 == b2,
{
    let h = a1.height as int;
    assert forall|x: int| 0 <= x < cols.len() implies
        #[trigger] view_start_color(a1.current, cols, x + 1, h, use_textures, sky, wall, goal, floor)
            == view_start_color(a2.current, cols, x + 1, h, use_textures, sky, wall, goal, floor) by {
        lemma_view_end_forgets_initial(
            view_start_color(a1.current, cols, x, h, use_textures, sky, wall, goal, floor),
            view_start_color(a2.current, cols, x, h, use_textures, sky, wall, goal, floor),
            x, h, cols[x], use_textures, sky, wall, goal, floor,
        );
    }
    assert forall|x: int, y: int| b1.in_bounds(x, y) implies #[trigger] b1.pixel(x, y) == b2.pixel(x, y) by {
        let s = view_settings(x, h, cols[x], use_textures, sky, wall, goal, floor);
        lemma_view_first_row_set(x, h, cols[x], use_textures, sky, wall, goal, floor);
        lemma_carried_forgets_initial(
            view_start_color(a1.current, cols, x, h, use_textures, sky, wall, goal, floor),
            view_start_color(a2.current, cols, x, h, use_textures, sky, wall, goal, floor),
            s,
            y + 1,
        );
        assert(b2.in_bounds(x, y));
    }
    let n = cols.len() as int;
    assert(view_start_color(a1.current, cols, (n - 1) + 1, h, use_textures, sky, wall, goal, floor)
        == view_start_color(a2.current, cols, (n - 1) + 1, h, use_textures, sky, wall, goal, floor));
    lemma_frames_equal(b1, b2);
}

/// Writing a text that starts with a character the font lacks is possible
/// exactly where writing the rest one pitch further right is.
pub proof fn law_blank_char_fits(c: char, t: Seq<char>, x0: int, y0: int, scale: int)
    requires
        basic_glyph(c) is None,
        scale >= 0,
    ensures
        text_fits(seq![c] + t, x0, y0, scale) <==> text_fits(t, x0 + char_pitch(scale), y0, scale),
{
    let u = seq![c] + t;
    assert(u.len() * (8 * scale + 2) == (8 * scale + 2) + t.len() * (8 * scale + 2)) by (nonlinear_arith)
        requires
            u.len() == t.len() + 1,
    ;
    assert(glyph_rows_fit(basic_glyph(u[0]), y0, scale));
    if forall|k: int| 0 <= k < t.len() ==> glyph_rows_fit(basic_glyph(#[trigger] t[k]), y0, scale) {
        assert forall|k: int| 0 <= k < u.len() implies glyph_rows_fit(basic_glyph(#[trigger] u[k]), y0, scale) by {
            if k > 0 {
                assert(u[k] == t[k - 1]);
            }
        }
    }
    if forall|k: int| 0 <= k < u.len() ==> glyph_rows_fit(basic_glyph(#[trigger] u[k]), y0, scale) {
        assert forall|k: int| 0 <= k < t.len() implies glyph_rows_fit(basic_glyph(#[trigger] t[k]), y0, scale) by {
            assert(u[k + 1] == t[k]);
        }
    }
}

/// At the level of frames: writing a character the font lacks changes
/// nothing, and writing it before a text leaves the frame that writing the
/// text one pitch further right leaves.
pub proof fn law_blank_char_drawn(
    c: char,
    t: Seq<char>,
    x0: int,
    y0: int,
    scale: int,
    a: FrameState,
    b: FrameState,
    d: FrameState,
    e: FrameState,
)
    requires
        basic_glyph(c) is None,
        a.well_formed(),
        painted(a, b, |px: int, py: int| text_lit(seq![c] + t, x0, y0, scale, px, py)),
        painted(a, d, |px: int, py: int| text_lit(t, x0 + char_pitch(scale), y0, scale, px, py)),
        painted(a, e, |px: int, py: int| text_lit(seq![c], x0, y0, scale, px, py)),
    ensures
        b == d,
        e == a,
{
    assert forall|px: int, py: int| b.in_bounds(px, py) implies #[trigger] b.pixel(px, py) == d.pixel(px, py) by {
        law_blank_char(c, t, x0, y0, scale, px, py);
    }
    lemma_frames_equal(b, d);
    assert forall|px: int, py: int| e.in_bounds(px, py) implies #[trigger] e.pixel(px, py) == a.pixel(px, py) by {
        law_blank_char(c, t, x0, y0, scale, px, py);
    }
    lemma_frames_equal(e, a);
}

} // verus!
