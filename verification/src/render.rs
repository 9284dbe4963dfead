use vstd::prelude::*;
use crate::framebuffer::{FrameState, Framebuffer};
use crate::draw::{lemma_plot_painted, recolored, overlay, lemma_painted_recolored, lemma_recolored_trans, lemma_recolored_same, lemma_recolored_current};
use crate::palette::{cell_color, spec_cell_color, SKY_COLOR, FLOOR_COLOR};
use crate::texture::{Texture, TextureState};

verus! {

/// The rows `(start, end)` that a wall `wall_height` pixels tall covers on a
/// screen `height` rows tall: centred, and cut to the screen when taller.
pub open spec fn spec_wall_span(wall_height: int, height: int) -> (int, int) {
    let start = if wall_height > height { 0 } else { (height - wall_height) / 2 };
    let end = if start + wall_height < height { start + wall_height } else { height };
    (start, end)
}

/// The rows that a wall `wall_height` pixels tall covers, centred on the screen.
pub fn wall_span(wall_height: usize, height: usize) -> (span: (usize, usize))
    ensures
        span.0 == spec_wall_span(wall_height as int, height as int).0,
        span.1 == spec_wall_span(wall_height as int, height as int).1,
        span.0 <= span.1 <= height,
{
    let start = if wall_height > height {
        0
    } else {
        (height - wall_height) / 2
    };
    let end = if start + wall_height < height {
        start + wall_height
    } else {
        height
    };
    (start, end)
}

/// The current colour after the first `n` rows of a column have been drawn,
/// row `k` first switching to `settings[k]` where that holds a colour.
pub open spec fn carried_color(initial: u32, settings: Seq<Option<u32>>, n: int) -> u32
    decreases n,
{
    if n <= 0 {
        initial
    } else {
        match settings[n - 1] {
            Some(c) => c,
            None => carried_color(initial, settings, n - 1),
        }
    }
}

/// The colouring that drawing rows `0 .. settings.len()` of column `x` with
/// the given colour switches gives.
pub open spec fn column_paint(x: int, initial: u32, settings: Seq<Option<u32>>) -> spec_fn(int, int) -> Option<u32> {
    |px: int, py: int| if px == x && 0 <= py < settings.len() {
        Some(carried_color(initial, settings, py + 1))
    } else {
        None
    }
}

/// Draws rows `0 .. settings.len()` of column `x` from the top, switching
/// the current colour to `settings[y]` before row `y` where that holds one.
pub fn paint_column(fb: &mut Framebuffer, x: usize, settings: &Vec<Option<u32>>)
    ensures
        recolored(old(fb)@, final(fb)@, column_paint(x as int, old(fb)@.current, settings@)),
        final(fb)@.current == carried_color(old(fb)@.current, settings@, settings@.len() as int),
{
    let ghost start = fb@;
    let ghost s = settings@;
    proof {
        assert forall|px: int, py: int| fb@.in_bounds(px, py) implies #[trigger] fb@.pixel(px, py) == (match column_paint(x as int, start.current, s.take(0))(px, py) {
            Some(c) => c,
            None => start.pixel(px, py),
        }) by {
        }
    }
    let n = settings.len();
    let mut y: usize = 0;
    while y < n
        invariant
            y <= n,
            n == s.len(),
            s == settings@,
            fb@.current == carried_color(start.current, s, y as int),
            recolored(start, fb@, column_paint(x as int, start.current, s.take(y as int))),
        decreases n - y,
    {
        match settings[y] {
            Some(c) => {
                let ghost pre = fb@;
                fb.set_current_color(c);
                proof {
                    assert forall|px: int, py: int| fb@.in_bounds(px, py) implies #[trigger] fb@.pixel(px, py) == (match column_paint(x as int, start.current, s.take(y as int))(px, py) {
                        Some(k) => k,
                        None => start.pixel(px, py),
                    }) by {
                        assert(fb@.pixel(px, py) == pre.pixel(px, py));
                    }
                }
            },
            None => {},
        }
        let ghost before = fb@;
        fb.point(x, y);
        proof {
            lemma_plot_painted(before, x as int, y as int);
            lemma_painted_recolored(before, fb@, |px: int, py: int| px == x && py == y);
            let f = column_paint(x as int, start.current, s.take(y as int));
            let g = |px: int, py: int| if px == x && py == y { Some(before.current) } else { None };
            lemma_recolored_trans(start, before, fb@, f, g);
            assert forall|px: int, py: int| start.in_bounds(px, py) implies overlay(f, g)(px, py) == #[trigger] column_paint(x as int, start.current, s.take(y as int + 1))(px, py) by {
                if px == x && 0 <= py < y {
                    lemma_carried_prefix(start.current, s, y as int + 1, py + 1);
                    lemma_carried_prefix(start.current, s, y as int, py + 1);
                }
                if px == x && py == y {
                    lemma_carried_prefix(start.current, s, y as int + 1, y as int + 1);
                }
            }
            lemma_recolored_same(start, fb@, overlay(f, g), column_paint(x as int, start.current, s.take(y as int + 1)));
        }
        y = y + 1;
    }
    proof {
        assert(s.take(n as int) == s);
    }
}

/// Once a row switches colour, the carried colour is that colour.
proof fn lemma_carried_set(initial: u32, s: Seq<Option<u32>>, n: int)
    requires
        0 < n <= s.len(),
        s[n - 1] is Some,
    ensures
        carried_color(initial, s, n) == s[n - 1]->0,
{
}

/// The colour of row `y` of a screen column in solid-colour mode where the
/// wall covers rows `start .. end`: sky above, the wall's cell colour, floor below.
pub open spec fn solid_row_color(start: int, end: int, impact: char, y: int) -> u32 {
    if y < start {
        SKY_COLOR
    } else if y < end {
        spec_cell_color(impact)
    } else {
        FLOOR_COLOR
    }
}

/// The colouring of column `x` by a per-row colour, over rows `0 .. height`.
pub open spec fn column_of(x: int, height: int, color: spec_fn(int) -> u32) -> spec_fn(int, int) -> Option<u32> {
    |px: int, py: int| if px == x && 0 <= py < height { Some(color(py)) } else { None }
}

/// Draws screen column `x` in solid-colour mode where a ray hit a wall cell
/// `impact` that appears `wall_height` pixels tall: sky, the wall centred in
/// its cell's colour, then floor, leaving the floor colour current.
pub fn draw_solid_wall_column(fb: &mut Framebuffer, x: usize, wall_height: usize, impact: char)
    ensures
        ({
            let (start, end) = spec_wall_span(wall_height as int, old(fb)@.height as int);
            recolored(old(fb)@, final(fb)@, column_of(x as int, old(fb)@.height as int, |y: int| solid_row_color(start, end, impact, y)))
        }),
        final(fb)@.current == FLOOR_COLOR,
{
    let h = fb.height();
    let (start, end) = wall_span(wall_height, h);
    let wall = cell_color(impact);
    let ghost color = |y: int| solid_row_color(start as int, end as int, impact, y);
    let mut settings: Vec<Option<u32>> = Vec::new();
    let mut y: usize = 0;
    while y < h
        invariant
            y <= h,
            wall == spec_cell_color(impact),
            color == (|y: int| solid_row_color(start as int, end as int, impact, y)),
            settings@ == Seq::new(y as nat, |k: int| Some(color(k))),
        decreases h - y,
    {
        let c = if y < start {
            SKY_COLOR
        } else if y < end {
            wall
        } else {
            FLOOR_COLOR
        };
        settings.push(Some(c));
        y = y + 1;
    }
    let ghost start_state = fb@;
    paint_column(fb, x, &settings);
    proof {
        assert forall|px: int, py: int| start_state.in_bounds(px, py) implies column_paint(x as int, start_state.current, settings@)(px, py) == #[trigger] column_of(x as int, h as int, color)(px, py) by {
            if px == x && 0 <= py < h {
                lemma_carried_set(start_state.current, settings@, py + 1);
            }
        }
        lemma_recolored_same(start_state, fb@, column_paint(x as int, start_state.current, settings@), column_of(x as int, h as int, color));
    }
    let ghost painted_state = fb@;
    fb.set_current_color(FLOOR_COLOR);
    proof {
        lemma_recolored_current(start_state, painted_state, FLOOR_COLOR, column_of(x as int, h as int, color));
    }
}

/// Draws screen column `x` in solid-colour mode where a ray met no wall:
/// sky over the top half, floor over the bottom half.
pub fn draw_solid_open_column(fb: &mut Framebuffer, x: usize)
    ensures
        recolored(old(fb)@, final(fb)@, column_of(x as int, old(fb)@.height as int, |y: int| solid_row_color((old(fb)@.height / 2) as int, (old(fb)@.height / 2) as int, ' ', y))),
        final(fb)@.current == (if old(fb)@.height > 0 { FLOOR_COLOR } else { old(fb)@.current }),
{
    let h = fb.height();
    let half = h / 2;
    let ghost color = |y: int| solid_row_color(half as int, half as int, ' ', y);
    let mut settings: Vec<Option<u32>> = Vec::new();
    let mut y: usize = 0;
    while y < h
        invariant
            y <= h,
            half == h / 2,
            color == (|y: int| solid_row_color(half as int, half as int, ' ', y)),
            settings@ == Seq::new(y as nat, |k: int| Some(color(k))),
        decreases h - y,
    {
        let c = if y < half {
            SKY_COLOR
        } else {
            FLOOR_COLOR
        };
        settings.push(Some(c));
        y = y + 1;
    }
    let ghost start_state = fb@;
    paint_column(fb, x, &settings);
    proof {
        assert forall|px: int, py: int| start_state.in_bounds(px, py) implies column_paint(x as int, start_state.current, settings@)(px, py) == #[trigger] column_of(x as int, h as int, color)(px, py) by {
            if px == x && 0 <= py < h {
                lemma_carried_set(start_state.current, settings@, py + 1);
            }
        }
        lemma_recolored_same(start_state, fb@, column_paint(x as int, start_state.current, settings@), column_of(x as int, h as int, color));
        if h > 0 {
            lemma_carried_set(start_state.current, settings@, h as int);
        }
    }
}

/// What a ray found for one screen column, in integers: the cell it hit (a
/// space for none), the height in pixels that the wall appears, the texture
/// column of the wall, the texture row of each wall row from the top, and
/// for each floor row from the top the floor texel it shows, if any.
/// Texture coordinates are taken modulo the texture's size, so textures repeat.
pub struct ColumnView {
    pub impact: char,
    pub wall_height: usize,
    pub wall_tex_x: u32,
    pub wall_rows: Vec<u32>,
    pub floor_texels: Vec<Option<(u32, u32)>>,
}

/// The rows `(start, end)` of a column `height` rows tall that the wall
/// covers: centred as `spec_wall_span` says where a wall was hit, and the
/// empty span at the middle of the screen where none was, so that sky fills
/// the top half and floor the bottom half.
pub open spec fn view_span(col: ColumnView, height: int) -> (int, int) {
    if col.impact != ' ' {
        spec_wall_span(col.wall_height as int, height)
    } else {
        (height / 2, height / 2)
    }
}

/// Whether a cell is the goal, which is shown with its own texture.
pub open spec fn is_goal_cell(cell: char) -> bool {
    cell == 'g' || cell == 'G'
}

/// The texture of the wall a ray hit: the goal texture for the goal cells
/// `g` and `G`, the wall texture for every other cell.
pub open spec fn spec_wall_texture_for(impact: char, wall: TextureState, goal: TextureState) -> TextureState {
    if is_goal_cell(impact) {
        goal
    } else {
        wall
    }
}

/// The texture that the wall of cell `impact` is drawn with.
pub fn wall_texture_for<'a>(impact: char, wall: &'a Texture, goal: &'a Texture) -> (t: &'a Texture)
    ensures
        t@ == spec_wall_texture_for(impact, wall@, goal@),
{
    if impact == 'g' || impact == 'G' {
        goal
    } else {
        wall
    }
}

/// The texel at `(u, v)` of a texture that repeats in both directions.
pub open spec fn tiled(t: TextureState, u: int, v: int) -> u32 {
    t.texel(u % (t.width as int), v % (t.height as int))
}

/// The colour switch before row `y` of textured column `x`: the sky texture
/// tiled by screen position above the wall, on the wall the texture of the
/// hit cell (the goal texture for a goal cell, else the wall texture),
/// and below it the floor texel the row shows; a floor row that shows none
/// keeps the colour drawn last.
pub open spec fn textured_setting(
    x: int,
    height: int,
    col: ColumnView,
    sky: TextureState,
    wall: TextureState,
    goal: TextureState,
    floor: TextureState,
    y: int,
) -> Option<u32> {
    let (start, end) = view_span(col, height);
    if y < start {
        Some(tiled(sky, (x as u32) as int, (y as u32) as int))
    } else if y < end {
        Some(tiled(spec_wall_texture_for(col.impact, wall, goal), col.wall_tex_x as int, col.wall_rows@[y - start] as int))
    } else {
        match col.floor_texels@[y - end] {
            Some((u, v)) => Some(tiled(floor, u as int, v as int)),
            None => None,
        }
    }
}

/// The colour switches of every row of textured column `x` on a screen `height` rows tall.
pub open spec fn textured_settings(
    x: int,
    height: int,
    col: ColumnView,
    sky: TextureState,
    wall: TextureState,
    goal: TextureState,
    floor: TextureState,
) -> Seq<Option<u32>> {
    Seq::new(height as nat, |y: int| textured_setting(x, height, col, sky, wall, goal, floor, y))
}

/// What textured drawing of a column needs of its inputs: one texture row
/// per wall row and one floor entry per floor row, and a non-empty texture
/// wherever a coordinate is wrapped to it: the sky where sky shows, the hit
/// wall's texture across for every hit and down where wall rows show, the
/// floor where a floor texel shows.
pub open spec fn textured_ready(
    height: int,
    col: ColumnView,
    sky: TextureState,
    wall: TextureState,
    goal: TextureState,
    floor: TextureState,
) -> bool {
    let (start, end) = view_span(col, height);
    let hit = spec_wall_texture_for(col.impact, wall, goal);
    &&& col.wall_rows@.len() == end - start
    &&& col.floor_texels@.len() == height - end
    &&& start > 0 ==> sky.width > 0 && sky.height > 0
    &&& col.impact != ' ' ==> hit.width > 0
    &&& end > start ==> hit.height > 0
    &&& (exists|k: int| 0 <= k < col.floor_texels@.len() && #[trigger] col.floor_texels@[k] is Some)
        ==> floor.width > 0 && floor.height > 0
}

/// Draws screen column `x` with textures: the sky above the wall rows, the
/// wall centred as its height says, then the floor, each row switching the
/// current colour as `textured_setting` says before it is drawn.
pub fn draw_textured_column(
    fb: &mut Framebuffer,
    x: usize,
    col: &ColumnView,
    sky: &Texture,
    wall: &Texture,
    goal: &Texture,
    floor: &Texture,
)
    requires
        textured_ready(old(fb)@.height as int, *col, sky@, wall@, goal@, floor@),
    ensures
        ({
            let s = textured_settings(x as int, old(fb)@.height as int, *col, sky@, wall@, goal@, floor@);
            &&& recolored(old(fb)@, final(fb)@, column_paint(x as int, old(fb)@.current, s))
            &&& final(fb)@.current == carried_color(old(fb)@.current, s, old(fb)@.height as int)
        }),
{
    let h = fb.height();
    let (start, end) = if col.impact != ' ' {
        wall_span(col.wall_height, h)
    } else {
        (h / 2, h / 2)
    };
    let wall_tex = wall_texture_for(col.impact, wall, goal);
    let ghost s = textured_settings(x as int, h as int, *col, sky@, wall@, goal@, floor@);
    let mut settings: Vec<Option<u32>> = Vec::new();
    let mut y: usize = 0;
    while y < h
        invariant
            y <= h,
            h == old(fb)@.height,
            (start as int, end as int) == view_span(*col, h as int),
            start <= end <= h,
            textured_ready(h as int, *col, sky@, wall@, goal@, floor@),
            wall_tex@ == spec_wall_texture_for(col.impact, wall@, goal@),
            s == textured_settings(x as int, h as int, *col, sky@, wall@, goal@, floor@),
            settings@ == s.take(y as int),
        decreases h - y,
    {
        let setting = if y < start {
            Some(sky.get_pixel((x as u32) % sky.width(), (y as u32) % sky.height()))
        } else if y < end {
            Some(wall_tex.get_pixel(col.wall_tex_x % wall_tex.width(), col.wall_rows[y - start] % wall_tex.height()))
        } else {
            match col.floor_texels[y - end] {
                Some((u, v)) => {
                    assert(col.floor_texels@[y - end] is Some);
                    Some(floor.get_pixel(u % floor.width(), v % floor.height()))
                },
                None => None,
            }
        };
        settings.push(setting);
        proof {
            assert(settings@ =~= s.take(y as int + 1));
        }
        y = y + 1;
    }
    proof {
        assert(settings@ =~= s);
    }
    paint_column(fb, x, &settings);
}

/// The colour switches of column `x` in either mode: the textured ones, or
/// in solid-colour mode the sky, wall-cell and floor colours of every row.
pub open spec fn view_settings(
    x: int,
    height: int,
    col: ColumnView,
    use_textures: bool,
    sky: TextureState,
    wall: TextureState,
    goal: TextureState,
    floor: TextureState,
) -> Seq<Option<u32>> {
    if use_textures {
        textured_settings(x, height, col, sky, wall, goal, floor)
    } else {
        let (start, end) = view_span(col, height);
        Seq::new(height as nat, |y: int| Some(solid_row_color(start, end, col.impact, y)))
    }
}

/// The current colour after column `x` is drawn from current colour `initial`:
/// the floor colour after a solid wall column, else the colour carried to the bottom.
pub open spec fn view_end_color(
    initial: u32,
    x: int,
    height: int,
    col: ColumnView,
    use_textures: bool,
    sky: TextureState,
    wall: TextureState,
    goal: TextureState,
    floor: TextureState,
) -> u32 {
    if !use_textures && col.impact != ' ' {
        FLOOR_COLOR
    } else {
        carried_color(initial, view_settings(x, height, col, use_textures, sky, wall, goal, floor), height)
    }
}

/// What drawing a column needs of its inputs: in texture mode what
/// `textured_ready` says, in solid-colour mode nothing.
pub open spec fn view_ready(
    height: int,
    col: ColumnView,
    use_textures: bool,
    sky: TextureState,
    wall: TextureState,
    goal: TextureState,
    floor: TextureState,
) -> bool {
    use_textures ==> textured_ready(height, col, sky, wall, goal, floor)
}

/// Draws screen column `x` of the 3D view from what its ray found: with
/// textures where `use_textures` holds, else in solid colours; a wall where
/// the ray hit one, sky and floor only where it did not.
pub fn draw_view_column(
    fb: &mut Framebuffer,
    x: usize,
    col: &ColumnView,
    use_textures: bool,
    sky: &Texture,
    wall: &Texture,
    goal: &Texture,
    floor: &Texture,
)
    requires
        view_ready(old(fb)@.height as int, *col, use_textures, sky@, wall@, goal@, floor@),
    ensures
        recolored(
            old(fb)@,
            final(fb)@,
            column_paint(x as int, old(fb)@.current, view_settings(x as int, old(fb)@.height as int, *col, use_textures, sky@, wall@, goal@, floor@)),
        ),
        final(fb)@.current == view_end_color(old(fb)@.current, x as int, old(fb)@.height as int, *col, use_textures, sky@, wall@, goal@, floor@),
{
    let ghost a = fb@;
    let ghost h = a.height as int;
    let ghost s = view_settings(x as int, h, *col, use_textures, sky@, wall@, goal@, floor@);
    if use_textures {
        draw_textured_column(fb, x, col, sky, wall, goal, floor);
    } else {
        let ghost (start, end) = view_span(*col, h);
        let ghost color = |y: int| solid_row_color(start, end, col.impact, y);
        if col.impact != ' ' {
            draw_solid_wall_column(fb, x, col.wall_height, col.impact);
        } else {
            draw_solid_open_column(fb, x);
            proof {
                if h > 0 {
                    lemma_carried_set(a.current, s, h);
                }
            }
        }
        proof {
            assert forall|px: int, py: int| a.in_bounds(px, py) implies column_of(x as int, h, color)(px, py)
                == #[trigger] column_paint(x as int, a.current, s)(px, py) by {
                if px == x && 0 <= py < h {
                    lemma_carried_set(a.current, s, py + 1);
                }
            }
            lemma_recolored_same(a, fb@, column_of(x as int, h, color), column_paint(x as int, a.current, s));
        }
    }
}

/// The current colour before column `x` of a view drawn from current colour
/// `initial`, each column starting with the colour the one before left.
pub open spec fn view_start_color(
    initial: u32,
    cols: Seq<ColumnView>,
    x: int,
    height: int,
    use_textures: bool,
    sky: TextureState,
    wall: TextureState,
    goal: TextureState,
    floor: TextureState,
) -> u32
    decreases x,
{
    if x <= 0 {
        initial
    } else {
        view_end_color(
            view_start_color(initial, cols, x - 1, height, use_textures, sky, wall, goal, floor),
            x - 1,
            height,
            cols[x - 1],
            use_textures,
            sky,
            wall,
            goal,
            floor,
        )
    }
}

/// The colour of pixel `(x, y)` of a view drawn from current colour `initial`
/// with one column per entry of `cols`; `None` outside those columns.
pub open spec fn view_paint(
    initial: u32,
    cols: Seq<ColumnView>,
    height: int,
    use_textures: bool,
    sky: TextureState,
    wall: TextureState,
    goal: TextureState,
    floor: TextureState,
) -> spec_fn(int, int) -> Option<u32> {
    |px: int, py: int| if 0 <= px < cols.len() && 0 <= py < height {
        Some(carried_color(
            view_start_color(initial, cols, px, height, use_textures, sky, wall, goal, floor),
            view_settings(px, height, cols[px], use_textures, sky, wall, goal, floor),
            py + 1,
        ))
    } else {
        None
    }
}

/// `after` is the view drawn over `before`, one column per entry of `cols`.
pub open spec fn view_drawn(
    before: FrameState,
    after: FrameState,
    cols: Seq<ColumnView>,
    use_textures: bool,
    sky: TextureState,
    wall: TextureState,
    goal: TextureState,
    floor: TextureState,
) -> bool {
    &&& recolored(before, after, view_paint(before.current, cols, before.height as int, use_textures, sky, wall, goal, floor))
    &&& after.current == view_start_color(before.current, cols, cols.len() as int, before.height as int, use_textures, sky, wall, goal, floor)
    &&& after.well_formed()
}

/// Draws the 3D view, column `x` from `cols[x]`, left to right.
pub fn draw_view(
    fb: &mut Framebuffer,
    cols: &Vec<ColumnView>,
    use_textures: bool,
    sky: &Texture,
    wall: &Texture,
    goal: &Texture,
    floor: &Texture,
)
    requires
        forall|k: int| 0 <= k < cols@.len() ==> view_ready(old(fb)@.height as int, #[trigger] cols@[k], use_textures, sky@, wall@, goal@, floor@),
    ensures
        view_drawn(old(fb)@, final(fb)@, cols@, use_textures, sky@, wall@, goal@, floor@),
{
    let ghost a = fb@;
    let ghost h = a.height as int;
    let _ = fb.width();
    let n = cols.len();
    let mut x: usize = 0;
    proof {
        assert forall|px: int, py: int| fb@.in_bounds(px, py) implies #[trigger] fb@.pixel(px, py) == (match view_paint(a.current, cols@.take(0), h, use_textures, sky@, wall@, goal@, floor@)(px, py) {
            Some(c) => c,
            None => a.pixel(px, py),
        }) by {
        }
    }
    while x < n
        invariant
            x <= n,
            n == cols@.len(),
            h == a.height,
            a.well_formed(),
            forall|k: int| 0 <= k < cols@.len() ==> view_ready(h, #[trigger] cols@[k], use_textures, sky@, wall@, goal@, floor@),
            recolored(a, fb@, view_paint(a.current, cols@.take(x as int), h, use_textures, sky@, wall@, goal@, floor@)),
            fb@.current == view_start_color(a.current, cols@, x as int, h, use_textures, sky@, wall@, goal@, floor@),
        decreases n - x,
    {
        let ghost before = fb@;
        assert(view_ready(h, cols@[x as int], use_textures, sky@, wall@, goal@, floor@));
        draw_view_column(fb, x, &cols[x], use_textures, sky, wall, goal, floor);
        proof {
            let f = view_paint(a.current, cols@.take(x as int), h, use_textures, sky@, wall@, goal@, floor@);
            let g = column_paint(x as int, before.current, view_settings(x as int, h, cols@[x as int], use_textures, sky@, wall@, goal@, floor@));
            lemma_recolored_trans(a, before, fb@, f, g);
            let next = view_paint(a.current, cols@.take(x as int + 1), h, use_textures, sky@, wall@, goal@, floor@);
            assert forall|px: int, py: int| a.in_bounds(px, py) implies overlay(f, g)(px, py) == #[trigger] next(px, py) by {
                if 0 <= px <= x {
                    lemma_view_start_prefix(a.current, cols@, x as int + 1, px, h, use_textures, sky@, wall@, goal@, floor@);
                }
                if 0 <= px < x {
                    lemma_view_start_prefix(a.current, cols@, x as int, px, h, use_textures, sky@, wall@, goal@, floor@);
                }
            }
            lemma_recolored_same(a, fb@, overlay(f, g), next);
        }
        x = x + 1;
    }
    proof {
        assert(cols@.take(n as int) == cols@);
    }
}

/// The start colour of a column depends only on the columns before it.
proof fn lemma_view_start_prefix(
    initial: u32,
    cols: Seq<ColumnView>,
    m: int,
    x: int,
    height: int,
    use_textures: bool,
    sky: TextureState,
    wall: TextureState,
    goal: TextureState,
    floor: TextureState,
)
    requires
        0 <= x <= m <= cols.len(),
    ensures
        view_start_color(initial, cols.take(m), x, height, use_textures, sky, wall, goal, floor)
            == view_start_color(initial, cols, x, height, use_textures, sky, wall, goal, floor),
    decreases x,
{
    if x > 0 {
        lemma_view_start_prefix(initial, cols, m, x - 1, height, use_textures, sky, wall, goal, floor);
    }
}

/// The carried colour depends only on the rows drawn so far.
proof fn lemma_carried_prefix(initial: u32, s: Seq<Option<u32>>, m: int, n: int)
    requires
        0 <= n <= m <= s.len(),
    ensures
        carried_color(initial, s.take(m), n) == carried_color(initial, s, n),
    decreases n,
{
    if n > 0 {
        lemma_carried_prefix(initial, s, m, n - 1);
    }
}

} // verus!
