use vstd::prelude::*;
use vstd::string::*;

verus! {

/// A maze: rows from top to bottom, each a row of cells from left to right.
/// A space is open floor; `g` is the goal; `p` marks where the player starts;
/// any other character is a wall.
pub type Maze = Vec<Vec<char>>;

/// The cell in column `i` of row `j`, or `None` outside the maze; rows may
/// differ in length.
pub open spec fn cell_at(maze: Seq<Vec<char>>, i: int, j: int) -> Option<char> {
    if 0 <= j < maze.len() && 0 <= i < maze[j]@.len() {
        Some(maze[j]@[i])
    } else {
        None
    }
}

/// Whether the player may stand on a cell: open floor, the goal (`g` or
/// `G`) or the start mark.
pub open spec fn spec_is_walkable(cell: char) -> bool {
    cell == ' ' || cell == 'g' || cell == 'G' || cell == 'p'
}

/// The cell under the world point `(x, y)`, blocks being `block_size` wide.
pub open spec fn cell_under(maze: Seq<Vec<char>>, x: int, y: int, block_size: int) -> Option<char> {
    cell_at(maze, x / block_size, y / block_size)
}

/// Whether the player may stand at the world point `(x, y)`: it lies inside
/// the maze on a walkable cell.
pub open spec fn spec_can_stand(maze: Seq<Vec<char>>, x: int, y: int, block_size: int) -> bool {
    match cell_under(maze, x, y, block_size) {
        Some(c) => spec_is_walkable(c),
        None => false,
    }
}

/// Whether the player may stand on `cell`.
pub fn is_walkable(cell: char) -> (b: bool)
    ensures
        b == spec_is_walkable(cell),
{
    cell == ' ' || cell == 'g' || cell == 'G' || cell == 'p'
}

/// The cell in column `i` of row `j`, or `None` outside the maze.
pub fn cell(maze: &Maze, i: usize, j: usize) -> (c: Option<char>)
    ensures
        c == cell_at(maze@, i as int, j as int),
{
    if j < maze.len() && i < maze[j].len() {
        Some(maze[j][i])
    } else {
        None
    }
}

/// Whether the player may stand at the world point `(x, y)`.
pub fn can_stand(maze: &Maze, x: usize, y: usize, block_size: usize) -> (b: bool)
    requires
        block_size > 0,
    ensures
        b == spec_can_stand(maze@, x as int, y as int, block_size as int),
{
    match cell(maze, x / block_size, y / block_size) {
        Some(c) => is_walkable(c),
        None => false,
    }
}

/// Moves the player from world point `(x, y)` towards `(new_x, new_y)`,
/// axis by axis so that it slides along walls: the horizontal move is taken
/// when the player may stand at `(new_x, y)`, then the vertical move when it
/// may stand at the new column and `new_y`.  Gives which moves were taken.
pub fn slide_move(maze: &Maze, block_size: usize, x: usize, y: usize, new_x: usize, new_y: usize) -> (moved: (bool, bool))
    requires
        block_size > 0,
    ensures
        moved.0 == spec_can_stand(maze@, new_x as int, y as int, block_size as int),
        moved.1 == spec_can_stand(maze@, if moved.0 { new_x as int } else { x as int }, new_y as int, block_size as int),
{
    let move_x = can_stand(maze, new_x, y, block_size);
    let column = if move_x { new_x } else { x };
    let move_y = can_stand(maze, column, new_y, block_size);
    (move_x, move_y)
}

/// What a ray finds at the world point `(x, y)`: `None` on open floor, where
/// it goes on; the cell's character at a wall; a space when it has left the maze.
pub open spec fn spec_ray_probe(maze: Seq<Vec<char>>, x: int, y: int, block_size: int) -> Option<char> {
    match cell_under(maze, x, y, block_size) {
        None => Some(' '),
        Some(c) => if c == ' ' { None } else { Some(c) },
    }
}

/// What a ray finds at the world point `(x, y)`: whether it stops, and on what.
pub fn ray_probe(maze: &Maze, x: usize, y: usize, block_size: usize) -> (hit: Option<char>)
    requires
        block_size > 0,
    ensures
        hit == spec_ray_probe(maze@, x as int, y as int, block_size as int),
{
    let i = x / block_size;
    let j = y / block_size;
    if j >= maze.len() || i >= maze[j].len() {
        return Some(' ');
    }
    let c = maze[j][i];
    if c != ' ' {
        Some(c)
    } else {
        None
    }
}

/// Whether the world point `(x, y)` lies on the goal cell `g`.
pub fn at_goal(maze: &Maze, x: usize, y: usize, block_size: usize) -> (b: bool)
    requires
        block_size > 0,
    ensures
        b == (cell_under(maze@, x as int, y as int, block_size as int) == Some('g')),
{
    match cell(maze, x / block_size, y / block_size) {
        Some(c) => c == 'g',
        None => false,
    }
}

/// The column and row of the first cell, row by row, that holds `target`.
pub fn find_cell(maze: &Maze, target: char) -> (found: Option<(usize, usize)>)
    ensures
        match found {
            Some((i, j)) => {
                &&& cell_at(maze@, i as int, j as int) == Some(target)
                &&& forall|jj: int, ii: int| 0 <= jj < maze@.len() && 0 <= ii < maze@[jj]@.len()
                    && (jj < j || (jj == j && ii < i)) ==> #[trigger] maze@[jj]@[ii] != target
            },
            None => forall|jj: int, ii: int| 0 <= jj < maze@.len() && 0 <= ii < maze@[jj]@.len()
                ==> #[trigger] maze@[jj]@[ii] != target,
        },
{
    let mut j: usize = 0;
    while j < maze.len()
        invariant
            j <= maze@.len(),
            forall|jj: int, ii: int| 0 <= jj < j && 0 <= ii < maze@[jj]@.len() ==> #[trigger] maze@[jj]@[ii] != target,
        decreases maze@.len() - j,
    {
        let row = &maze[j];
        let mut i: usize = 0;
        while i < row.len()
            invariant
                j < maze@.len(),
                row == maze@[j as int],
                i <= row@.len(),
                forall|jj: int, ii: int| 0 <= jj < j && 0 <= ii < maze@[jj]@.len() ==> #[trigger] maze@[jj]@[ii] != target,
                forall|ii: int| 0 <= ii < i ==> row@[ii] != target,
            decreases row@.len() - i,
        {
            if row[i] == target {
                return Some((i, j));
            }
            i = i + 1;
        }
        j = j + 1;
    }
    None
}

/// A line without the carriage return that ends it, if any.
pub open spec fn strip_cr(line: Seq<char>) -> Seq<char> {
    if line.len() > 0 && line.last() == '\r' {
        line.drop_last()
    } else {
        line
    }
}

/// The lines ended so far, and the line begun, after reading the first `n`
/// characters of `text`: a line ends at `\n`, or at `\r\n`, neither kept.
pub open spec fn scan_lines(text: Seq<char>, n: int) -> (Seq<Seq<char>>, Seq<char>)
    decreases n,
{
    if n <= 0 {
        (Seq::empty(), Seq::empty())
    } else {
        let (rows, cur) = scan_lines(text, n - 1);
        if text[n - 1] == '\n' {
            (rows.push(strip_cr(cur)), Seq::empty())
        } else {
            (rows, cur.push(text[n - 1]))
        }
    }
}

/// The lines of `text`: the last one need not be ended, and an empty text
/// after the last line ending is no line.
pub open spec fn text_lines(text: Seq<char>) -> Seq<Seq<char>> {
    let (rows, cur) = scan_lines(text, text.len() as int);
    if cur.len() > 0 {
        rows.push(cur)
    } else {
        rows
    }
}

/// The maze that a maze file's text describes: one row of cells per line.
pub fn parse_maze(text: &str) -> (maze: Maze)
    ensures
        maze@.len() == text_lines(text@).len(),
        forall|j: int| 0 <= j < maze@.len() ==> #[trigger] maze@[j]@ == text_lines(text@)[j],
{
    let n = text.unicode_len();
    let ghost t = text@;
    let mut rows: Vec<Vec<char>> = Vec::new();
    let mut cur: Vec<char> = Vec::new();
    let mut i: usize = 0;
    while i < n
        invariant
            i <= n,
            n == t.len(),
            t == text@,
            rows@.len() == scan_lines(t, i as int).0.len(),
            forall|j: int| 0 <= j < rows@.len() ==> #[trigger] rows@[j]@ == scan_lines(t, i as int).0[j],
            cur@ == scan_lines(t, i as int).1,
        decreases n - i,
    {
        let c = text.get_char(i);
        if c == '\n' {
            let ghost before = cur@;
            let len = cur.len();
            if len > 0 && cur[len - 1] == '\r' {
                cur.pop();
            }
            assert(cur@ == strip_cr(before));
            rows.push(cur);
            cur = Vec::new();
        } else {
            cur.push(c);
        }
        i = i + 1;
    }
    if cur.len() > 0 {
        rows.push(cur);
    }
    rows
}

/// Where the player starts: the first cell, row by row, marked `p`, or
/// column 1 of row 1 where no cell is.
pub fn start_cell(maze: &Maze) -> (start: (usize, usize))
    ensures
        (exists|jj: int, ii: int| 0 <= jj < maze@.len() && 0 <= ii < maze@[jj]@.len() && #[trigger] maze@[jj]@[ii] == 'p') ==> {
            &&& cell_at(maze@, start.0 as int, start.1 as int) == Some('p')
            &&& forall|jj: int, ii: int| 0 <= jj < maze@.len() && 0 <= ii < maze@[jj]@.len()
                && (jj < start.1 || (jj == start.1 && ii < start.0)) ==> #[trigger] maze@[jj]@[ii] != 'p'
        },
        !(exists|jj: int, ii: int| 0 <= jj < maze@.len() && 0 <= ii < maze@[jj]@.len() && #[trigger] maze@[jj]@[ii] == 'p')
            ==> start == (1usize, 1usize),
{
    match find_cell(maze, 'p') {
        Some(found) => found,
        None => (1, 1),
    }
}

} // verus!
