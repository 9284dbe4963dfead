use vstd::prelude::*;
use crate::framebuffer::Framebuffer;
use crate::draw::{
    fill_rect, recolored, overlay, lemma_painted_recolored, lemma_recolored_trans, lemma_recolored_same,
    lemma_recolored_current, lemma_cell_of, lemma_block_of_cell,
};
use crate::maze::Maze;
use crate::palette::{cell_color, spec_cell_color, WHITE, MINIMAP_BACKGROUND};

verus! {

/// The side, in pixels, of one maze cell on the minimap.
pub const MINIMAP_CELL: usize = 4;

/// The left edge of the minimap: its right edge is 20 pixels from the right
/// edge of a screen `width` pixels wide, its width set by the first row.
pub open spec fn minimap_left(width: int, maze: Seq<Vec<char>>) -> int {
    width - maze[0]@.len() * 4 - 20
}

/// The top edge of the minimap.
pub open spec fn minimap_top() -> int {
    20
}

/// Whether `(px, py)` lies in the white frame of the minimap, two pixels
/// wider than the map on every side.
pub open spec fn in_frame(width: int, maze: Seq<Vec<char>>, px: int, py: int) -> bool {
    let ox = minimap_left(width, maze);
    let oy = minimap_top();
    &&& ox - 2 <= px < ox + maze[0]@.len() * 4 + 2
    &&& oy - 2 <= py < oy + maze.len() * 4 + 2
}

/// Whether `(px, py)` lies on the map itself.
pub open spec fn in_map(width: int, maze: Seq<Vec<char>>, px: int, py: int) -> bool {
    let ox = minimap_left(width, maze);
    let oy = minimap_top();
    &&& ox <= px < ox + maze[0]@.len() * 4
    &&& oy <= py < oy + maze.len() * 4
}

/// The colour of the maze cell that `(px, py)` shows on the minimap, if it
/// shows one that is not open floor; only cells of rows before `rows` and,
/// in row `rows`, of columns before `cols` count.
pub open spec fn cell_pixel_upto(width: int, maze: Seq<Vec<char>>, rows: int, cols: int, px: int, py: int) -> Option<u32> {
    let ox = minimap_left(width, maze);
    let oy = minimap_top();
    let i = (px - ox) / 4;
    let j = (py - oy) / 4;
    if ox <= px && oy <= py && j < maze.len() && i < maze[j]@.len() && maze[j]@[i] != ' '
        && (j < rows || (j == rows && i < cols)) {
        Some(spec_cell_color(maze[j]@[i]))
    } else {
        None
    }
}

/// The colour of the maze cell that `(px, py)` shows on the minimap, if any.
pub open spec fn cell_pixel(width: int, maze: Seq<Vec<char>>, px: int, py: int) -> Option<u32> {
    cell_pixel_upto(width, maze, maze.len() as int, 0, px, py)
}

/// Whether `(px, py)` lies on the player's 5 by 5 marker, centred `(mx, my)`
/// pixels right of and below the map's top left corner and cut at the
/// screen's left and top edges.
pub open spec fn in_marker(width: int, maze: Seq<Vec<char>>, mx: int, my: int, px: int, py: int) -> bool {
    let cx = minimap_left(width, maze) + mx;
    let cy = minimap_top() + my;
    &&& (if cx >= 2 { cx - 2 } else { 0 }) <= px <= cx + 2
    &&& (if cy >= 2 { cy - 2 } else { 0 }) <= py <= cy + 2
}

/// The minimap's colour at `(px, py)`: the marker over the cells, the cells
/// over the dark map, the map inside the white frame; `None` elsewhere.
pub open spec fn minimap_color(width: int, maze: Seq<Vec<char>>, mx: int, my: int, px: int, py: int) -> Option<u32> {
    if in_marker(width, maze, mx, my, px, py) {
        Some(WHITE)
    } else if cell_pixel(width, maze, px, py) is Some {
        cell_pixel(width, maze, px, py)
    } else if in_map(width, maze, px, py) {
        Some(MINIMAP_BACKGROUND)
    } else if in_frame(width, maze, px, py) {
        Some(WHITE)
    } else {
        None
    }
}

/// Draws the minimap in the top right corner: a white frame, the dark map
/// with a 4 by 4 block per wall cell in its colour, and a white marker for
/// the player `(marker_x, marker_y)` pixels from the map's top left corner;
/// white is left current.
pub fn render_minimap(framebuffer: &mut Framebuffer, maze: &Maze, marker_x: usize, marker_y: usize)
    requires
        maze@.len() > 0,
        maze@[0]@.len() * 4 + 22 <= old(framebuffer)@.width,
        maze@.len() * 4 + 22 <= usize::MAX,
        forall|j: int| 0 <= j < maze@.len() ==> old(framebuffer)@.width + maze@[j]@.len() * 4 <= usize::MAX,
        old(framebuffer)@.width + marker_x + 2 <= usize::MAX,
        marker_y + 22 <= usize::MAX,
    ensures
        recolored(
            old(framebuffer)@,
            final(framebuffer)@,
            |px: int, py: int| minimap_color(old(framebuffer)@.width as int, maze@, marker_x as int, marker_y as int, px, py),
        ),
        final(framebuffer)@.current == WHITE,
{
    let ghost start = framebuffer@;
    let ghost w = start.width as int;
    let ghost m = maze@;
    let fb_height = framebuffer.height();
    let fb_width = framebuffer.width();
    let minimap_block_size: usize = 4;
    let offset_x = framebuffer.width() - (maze[0].len() * minimap_block_size) - 20;
    let offset_y: usize = 20;
    let map_width = maze[0].len() * minimap_block_size;
    let map_height = maze.len() * minimap_block_size;

    framebuffer.set_current_color(0xFFFFFF);
    let ghost s1 = framebuffer@;
    fill_rect(framebuffer, offset_x - 2, offset_x + map_width + 2, offset_y - 2, offset_y + map_height + 2);
    let ghost frame = |px: int, py: int| if in_frame(w, m, px, py) { Some(WHITE) } else { None };
    proof {
        lemma_painted_recolored(s1, framebuffer@, |px: int, py: int| offset_x - 2 <= px < offset_x + map_width + 2 && offset_y - 2 <= py < offset_y + map_height + 2);
        lemma_recolored_same(s1, framebuffer@, |px: int, py: int| if offset_x - 2 <= px < offset_x + map_width + 2 && offset_y - 2 <= py < offset_y + map_height + 2 { Some(s1.current) } else { None }, frame);
        assert forall|px: int, py: int| framebuffer@.in_bounds(px, py) implies #[trigger] framebuffer@.pixel(px, py) == (match frame(px, py) {
            Some(k) => k,
            None => start.pixel(px, py),
        }) by {
            assert(s1.pixel(px, py) == start.pixel(px, py));
        }
    }
    let ghost f1 = framebuffer@;

    framebuffer.set_current_color(0x111122);
    let ghost s2 = framebuffer@;
    fill_rect(framebuffer, offset_x, offset_x + map_width, offset_y, offset_y + map_height);
    let ghost map = |px: int, py: int| if in_map(w, m, px, py) { Some(MINIMAP_BACKGROUND) } else { None };
    proof {
        lemma_recolored_current(start, f1, 0x111122, frame);
        lemma_painted_recolored(s2, framebuffer@, |px: int, py: int| offset_x <= px < offset_x + map_width && offset_y <= py < offset_y + map_height);
        lemma_recolored_same(s2, framebuffer@, |px: int, py: int| if offset_x <= px < offset_x + map_width && offset_y <= py < offset_y + map_height { Some(s2.current) } else { None }, map);
        lemma_recolored_trans(start, s2, framebuffer@, frame, map);
    }
    let ghost base = overlay(frame, map);
    let ghost cells = |r: int, c: int| |px: int, py: int| cell_pixel_upto(w, m, r, c, px, py);
    proof {
        lemma_recolored_same(start, framebuffer@, base, overlay(base, cells(0, 0)));
    }

    let mut row_idx: usize = 0;
    while row_idx < maze.len()
        invariant
            row_idx <= m.len(),
            m == maze@,
            m.len() > 0,
            w == start.width,
            framebuffer@.width == start.width,
            framebuffer@.height == start.height,
            offset_x == minimap_left(w, m),
            offset_y == minimap_top(),
            offset_x <= w,
            minimap_block_size == 4,
            forall|j: int| 0 <= j < m.len() ==> w + m[j]@.len() * 4 <= usize::MAX,
            m.len() * 4 + 22 <= usize::MAX,
            cells == (|r: int, c: int| |px: int, py: int| cell_pixel_upto(w, m, r, c, px, py)),
            recolored(start, framebuffer@, overlay(base, cells(row_idx as int, 0))),
        decreases m.len() - row_idx,
    {
        let row = &maze[row_idx];
        let mut col_idx: usize = 0;
        while col_idx < row.len()
            invariant
                row_idx < m.len(),
                row == m[row_idx as int],
                col_idx <= row@.len(),
                m == maze@,
                w == start.width,
                framebuffer@.width == start.width,
                framebuffer@.height == start.height,
                offset_x == minimap_left(w, m),
                offset_y == minimap_top(),
                offset_x <= w,
                minimap_block_size == 4,
                forall|j: int| 0 <= j < m.len() ==> w + m[j]@.len() * 4 <= usize::MAX,
                m.len() * 4 + 22 <= usize::MAX,
                cells == (|r: int, c: int| |px: int, py: int| cell_pixel_upto(w, m, r, c, px, py)),
                recolored(start, framebuffer@, overlay(base, cells(row_idx as int, col_idx as int))),
            decreases row@.len() - col_idx,
        {
            let cell = row[col_idx];
            let ghost before = framebuffer@;
            assert(w + m[row_idx as int]@.len() * 4 <= usize::MAX);
            assert(col_idx * 4 + 4 <= row@.len() * 4);
            assert(row_idx * 4 + 4 <= m.len() * 4);
            let px = offset_x + col_idx * minimap_block_size;
            let py = offset_y + row_idx * minimap_block_size;
            let ghost block = |qx: int, qy: int| if px <= qx < px + 4 && py <= qy < py + 4 { Some(spec_cell_color(cell)) } else { None };
            if cell != ' ' {
                let color = cell_color(cell);
                framebuffer.set_current_color(color);
                let ghost mid = framebuffer@;
                fill_rect(framebuffer, px, px + minimap_block_size, py, py + minimap_block_size);
                proof {
                    lemma_recolored_current(start, before, color, overlay(base, cells(row_idx as int, col_idx as int)));
                    lemma_painted_recolored(mid, framebuffer@, |qx: int, qy: int| px <= qx < px + 4 && py <= qy < py + 4);
                    lemma_recolored_same(mid, framebuffer@, |qx: int, qy: int| if px <= qx < px + 4 && py <= qy < py + 4 { Some(mid.current) } else { None }, block);
                    lemma_recolored_trans(start, mid, framebuffer@, overlay(base, cells(row_idx as int, col_idx as int)), block);
                }
            }
            proof {
                let prev = overlay(base, cells(row_idx as int, col_idx as int));
                let got = if cell != ' ' { overlay(prev, block) } else { prev };
                let next = overlay(base, cells(row_idx as int, col_idx as int + 1));
                assert forall|qx: int, qy: int| start.in_bounds(qx, qy) implies got(qx, qy) == #[trigger] next(qx, qy) by {
                    if px <= qx < px + 4 && py <= qy < py + 4 {
                        lemma_cell_of(offset_x as int, 4, col_idx as int, qx);
                        lemma_cell_of(offset_y as int, 4, row_idx as int, qy);
                    }
                    if offset_x <= qx && offset_y <= qy && (qx - offset_x) / 4 == col_idx && (qy - offset_y) / 4 == row_idx {
                        lemma_block_of_cell(offset_x as int, 4, col_idx as int, qx);
                        lemma_block_of_cell(offset_y as int, 4, row_idx as int, qy);
                    }
                }
                lemma_recolored_same(start, framebuffer@, got, next);
            }
            col_idx = col_idx + 1;
        }
        proof {
            let a = overlay(base, cells(row_idx as int, col_idx as int));
            let b = overlay(base, cells(row_idx as int + 1, 0));
            assert forall|qx: int, qy: int| start.in_bounds(qx, qy) implies a(qx, qy) == #[trigger] b(qx, qy) by {
            }
            lemma_recolored_same(start, framebuffer@, a, b);
        }
        row_idx = row_idx + 1;
    }

    let ghost s3a = framebuffer@;
    framebuffer.set_current_color(0xFFFFFF);
    let ghost s3 = framebuffer@;
    let player_px = offset_x + marker_x;
    let player_py = offset_y + marker_y;
    let x_lo = if player_px >= 2 { player_px - 2 } else { 0 };
    let y_lo = if player_py >= 2 { player_py - 2 } else { 0 };
    let x_end = if player_px + 2 < usize::MAX { player_px + 3 } else { usize::MAX };
    let y_end = if player_py + 2 < usize::MAX { player_py + 3 } else { usize::MAX };
    fill_rect(framebuffer, x_lo, x_end, y_lo, y_end);
    proof {
        assert(start.height == fb_height && start.width == fb_width);
        let mark = |px: int, py: int| if in_marker(w, m, marker_x as int, marker_y as int, px, py) { Some(WHITE) } else { None };
        let all_cells = overlay(base, cells(m.len() as int, 0));
        lemma_recolored_current(start, s3a, WHITE, all_cells);
        lemma_painted_recolored(s3, framebuffer@, |px: int, py: int| x_lo <= px < x_end && y_lo <= py < y_end);
        lemma_recolored_same(s3, framebuffer@, |px: int, py: int| if x_lo <= px < x_end && y_lo <= py < y_end { Some(s3.current) } else { None }, mark);
        lemma_recolored_trans(start, s3, framebuffer@, all_cells, mark);
        let goal = |px: int, py: int| minimap_color(w, m, marker_x as int, marker_y as int, px, py);
        assert forall|px: int, py: int| start.in_bounds(px, py) implies overlay(all_cells, mark)(px, py) == #[trigger] goal(px, py) by {
        }

        lemma_recolored_same(start, framebuffer@, overlay(all_cells, mark), goal);
    }
}

} // verus!
