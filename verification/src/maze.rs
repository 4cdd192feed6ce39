//! The grid model: cell symbols, what they mean, and where a world
//! coordinate falls in the grid.
//!
//! A maze is a vector of rows, each a vector of one-character cell symbols.
//! A space is open floor, `p` marks the start, `g` the goal, and every other
//! symbol is a wall of some kind.

use vstd::prelude::*;
use crate::color::Color;
use crate::fixed::whole;
use crate::framebuffer::{
    lemma_paint_nothing, lemma_paint_off_surface, lemma_paint_plot, rect_region, rect_swept,
    Framebuffer, Surface,
};

verus! {

/// The symbol of open floor; also what a ray reports when it met no wall.
pub const OPEN: char = ' ';

/// The symbol of the cell where the player starts.
pub const START: char = 'p';

/// The symbol of the goal.
pub const GOAL: char = 'g';

/// A ray passes through the cell: it is open floor or the start.
pub open spec fn spec_is_open(symbol: char) -> bool {
    symbol == OPEN || symbol == START
}

/// A ray passes through the cell: it is open floor or the start.
#[verifier::when_used_as_spec(spec_is_open)]
pub fn is_open(symbol: char) -> (open: bool)
    ensures
        open == spec_is_open(symbol),
{
    symbol == OPEN || symbol == START
}

/// What a cell that stops a ray is made of.
#[derive(Clone, Copy, Debug, PartialEq, Eq, Structural)]
pub enum WallKind {
    /// A thin wall running across the grid (`-`, `+`, and any symbol not
    /// listed otherwise).
    Brick,
    /// A thin wall running up the grid (`|`).
    Upright,
    /// A thick wall of stone (`#`).
    Stone,
    /// A thick wall of metal (`*`).
    Metal,
    /// The goal (`g`).
    Goal,
}

impl WallKind {
    /// The kind of wall a symbol stands for; nothing for a cell that rays
    /// pass through.
    pub open spec fn spec_of_symbol(symbol: char) -> Option<WallKind> {
        if spec_is_open(symbol) {
            None
        } else if symbol == GOAL {
            Some(WallKind::Goal)
        } else if symbol == '#' {
            Some(WallKind::Stone)
        } else if symbol == '*' {
            Some(WallKind::Metal)
        } else if symbol == '|' {
            Some(WallKind::Upright)
        } else {
            Some(WallKind::Brick)
        }
    }

    /// The kind of wall a symbol stands for; nothing for a cell that rays
    /// pass through.
    #[verifier::when_used_as_spec(spec_of_symbol)]
    pub fn of_symbol(symbol: char) -> (kind: Option<WallKind>)
        ensures
            kind == WallKind::spec_of_symbol(symbol),
    {
        if is_open(symbol) {
            None
        } else if symbol == GOAL {
            Some(WallKind::Goal)
        } else if symbol == '#' {
            Some(WallKind::Stone)
        } else if symbol == '*' {
            Some(WallKind::Metal)
        } else if symbol == '|' {
            Some(WallKind::Upright)
        } else {
            Some(WallKind::Brick)
        }
    }

    /// The colour of such a wall on the minimap.
    pub open spec fn spec_minimap_color(self) -> Color {
        match self {
            WallKind::Stone => Color::spec_dark_gray(),
            WallKind::Metal => Color::spec_gray(),
            WallKind::Goal => Color::spec_gold(),
            WallKind::Brick => Color::spec_blue(),
            WallKind::Upright => Color::spec_blue(),
        }
    }

    /// The colour of such a wall on the minimap.
    #[verifier::when_used_as_spec(spec_minimap_color)]
    pub fn minimap_color(self) -> (color: Color)
        ensures
            color == self.spec_minimap_color(),
    {
        match self {
            WallKind::Stone => Color::dark_gray(),
            WallKind::Metal => Color::gray(),
            WallKind::Goal => Color::gold(),
            WallKind::Brick => Color::blue(),
            WallKind::Upright => Color::blue(),
        }
    }

    /// Whether the texture of such a wall runs along the y axis of the
    /// world; it runs along the x axis otherwise.
    pub open spec fn spec_runs_along_y(self) -> bool {
        self == WallKind::Upright
    }

    /// Whether the texture of such a wall runs along the y axis of the
    /// world; it runs along the x axis otherwise.
    #[verifier::when_used_as_spec(spec_runs_along_y)]
    pub fn runs_along_y(self) -> (along_y: bool)
        ensures
            along_y == self.spec_runs_along_y(),
    {
        match self {
            WallKind::Upright => true,
            _ => false,
        }
    }
}

/// The number of columns of a maze: the length of its first row.
pub open spec fn grid_cols(maze: Seq<Vec<char>>) -> int {
    if maze.len() > 0 {
        maze[0]@.len() as int
    } else {
        0
    }
}

/// All rows of the maze have the same length.
pub open spec fn is_rectangular(maze: Seq<Vec<char>>) -> bool {
    forall|j: int| 0 <= j < maze.len() ==> (#[trigger] maze[j])@.len() == grid_cols(maze)
}

/// Whether all rows of the maze have the same length.
pub fn rectangular(maze: &Vec<Vec<char>>) -> (ok: bool)
    ensures
        ok == is_rectangular(maze@),
{
    if maze.len() == 0 {
        return true;
    }
    let cols = maze[0].len();
    let mut row: usize = 1;
    while row < maze.len()
        invariant
            1 <= row <= maze@.len(),
            cols == grid_cols(maze@),
            forall|j: int| 0 <= j < row ==> (#[trigger] maze@[j])@.len() == cols,
        decreases maze@.len() - row,
    {
        if maze[row].len() != cols {
            return false;
        }
        row += 1;
    }
    true
}

/// The maze has a cell in column `col` of row `row`.
pub open spec fn in_grid(maze: Seq<Vec<char>>, col: int, row: int) -> bool {
    0 <= row < maze.len() && 0 <= col < grid_cols(maze)
}

/// The symbol in column `col` of row `row`.
pub open spec fn symbol_at(maze: Seq<Vec<char>>, col: int, row: int) -> char {
    maze[row]@[col]
}

/// The index of the cell that holds the world coordinate with raw value
/// `coord`, for cells `block_size` world units wide. Negative coordinates
/// count as zero.
pub open spec fn cell_of(coord: int, block_size: int) -> int {
    if coord >= 0 {
        whole(coord) / block_size
    } else {
        0
    }
}

/// The colour of a cell in the overhead view of the maze: blue for thin
/// walls, white for open floor, red for the start and the goal, gray for
/// everything else.
pub open spec fn spec_overhead_color(symbol: char) -> Color {
    if symbol == '+' || symbol == '|' || symbol == '-' {
        Color::spec_blue()
    } else if symbol == OPEN {
        Color::spec_white()
    } else if symbol == START || symbol == GOAL {
        Color::spec_red()
    } else {
        Color::spec_gray()
    }
}

/// The colour of a cell in the overhead view of the maze.
#[verifier::when_used_as_spec(spec_overhead_color)]
pub fn overhead_color(symbol: char) -> (color: Color)
    ensures
        color == spec_overhead_color(symbol),
{
    if symbol == '+' || symbol == '|' || symbol == '-' {
        Color::blue()
    } else if symbol == OPEN {
        Color::white()
    } else if symbol == START || symbol == GOAL {
        Color::red()
    } else {
        Color::gray()
    }
}

/// The surface after a cell was drawn in the overhead view: a square of
/// `block_size` pixels with its corner at `(x0, y0)`, in the colour of the
/// cell.
pub open spec fn cell_painted(
    s: Surface,
    x0: int,
    y0: int,
    block_size: int,
    symbol: char,
) -> Surface {
    s.with_color(spec_overhead_color(symbol)).paint(rect_region(x0, y0, block_size, block_size))
}

/// The surface after the first `cols` cells of row `row` were drawn in the
/// overhead view.
pub open spec fn row_painted(
    s: Surface,
    maze: Seq<Vec<char>>,
    block_size: int,
    row: int,
    cols: int,
) -> Surface
    decreases cols,
{
    if cols <= 0 {
        s
    } else {
        cell_painted(
            row_painted(s, maze, block_size, row, cols - 1),
            (cols - 1) * block_size,
            row * block_size,
            block_size,
            maze[row]@[cols - 1],
        )
    }
}

/// The surface after the first `rows` rows of the maze were drawn in the
/// overhead view.
pub open spec fn maze_painted(
    s: Surface,
    maze: Seq<Vec<char>>,
    block_size: int,
    rows: int,
) -> Surface
    decreases rows,
{
    if rows <= 0 {
        s
    } else {
        row_painted(
            maze_painted(s, maze, block_size, rows - 1),
            maze,
            block_size,
            rows - 1,
            maze[rows - 1]@.len() as int,
        )
    }
}

/// Draws one cell of the overhead view: a square of `block_size` pixels
/// with its corner at `(x0, y0)`.
fn draw_cell(framebuffer: &mut Framebuffer, x0: u128, y0: u128, block_size: usize, cell: char)
    ensures
        final(framebuffer)@ == cell_painted(
            old(framebuffer)@,
            x0 as int,
            y0 as int,
            block_size as int,
            cell,
        ),
{
    framebuffer.set_current_color(overhead_color(cell));
    let ghost canvas = framebuffer@;
    let ghost left = x0 as int;
    let ghost top = y0 as int;
    let ghost side = block_size as int;
    if x0 > u32::MAX as u128 || y0 > u32::MAX as u128 {
        proof {
            lemma_paint_off_surface(canvas, rect_region(left, top, side, side));
        }
        return ;
    }
    proof {
        lemma_paint_nothing(canvas);
        assert(rect_swept(left, top, side, 0, 0) =~= Set::empty());
    }
    let mut dy: usize = 0;
    while dy < block_size
        invariant
            0 <= dy <= block_size,
            x0 <= u32::MAX,
            y0 <= u32::MAX,
            left == x0,
            top == y0,
            side == block_size,
            framebuffer@ == canvas.paint(rect_swept(left, top, side, dy as int, 0)),
        decreases block_size - dy,
    {
        let mut dx: usize = 0;
        while dx < block_size
            invariant
                0 <= dx <= block_size,
                0 <= dy < block_size,
                x0 <= u32::MAX,
                y0 <= u32::MAX,
                left == x0,
                top == y0,
                side == block_size,
                framebuffer@ == canvas.paint(rect_swept(left, top, side, dy as int, dx as int)),
            decreases block_size - dx,
        {
            let x = x0 + dx as u128;
            let y = y0 + dy as u128;
            proof {
                lemma_paint_plot(
                    canvas,
                    rect_swept(left, top, side, dy as int, dx as int),
                    x as int,
                    y as int,
                );
                assert(rect_swept(left, top, side, dy as int, dx as int).insert(
                    (x as int, y as int),
                ) =~= rect_swept(left, top, side, dy as int, dx + 1));
            }
            if x <= u32::MAX as u128 && y <= u32::MAX as u128 {
                framebuffer.set_pixel(x as u32, y as u32);
            }
            dx += 1;
        }
        proof {
            assert(rect_swept(left, top, side, dy as int, dx as int) =~= rect_swept(
                left,
                top,
                side,
                dy + 1,
                0,
            ));
        }
        dy += 1;
    }
    proof {
        assert(rect_swept(left, top, side, dy as int, 0) =~= rect_region(left, top, side, side));
    }
}

/// Draws the maze from above, one square of `block_size` pixels per cell,
/// row by row.
#[verifier::loop_isolation(false)]
pub fn render_maze(framebuffer: &mut Framebuffer, maze: &Vec<Vec<char>>, block_size: usize)
    ensures
        final(framebuffer)@ == maze_painted(
            old(framebuffer)@,
            maze@,
            block_size as int,
            maze@.len() as int,
        ),
        final(framebuffer)@.same_shape(old(framebuffer)@),
        old(framebuffer)@.wf() ==> final(framebuffer)@.wf(),
{
    let mut row_index: usize = 0;
    while row_index < maze.len()
        invariant
            0 <= row_index <= maze@.len(),
            framebuffer@.same_shape(old(framebuffer)@),
            framebuffer@ == maze_painted(
                old(framebuffer)@,
                maze@,
                block_size as int,
                row_index as int,
            ),
        decreases maze@.len() - row_index,
    {
        let ghost before = framebuffer@;
        let mut col_index: usize = 0;
        while col_index < maze[row_index].len()
            invariant
                0 <= col_index <= maze@[row_index as int]@.len(),
                row_index < maze@.len(),
                framebuffer@.same_shape(old(framebuffer)@),
                framebuffer@ == row_painted(
                    before,
                    maze@,
                    block_size as int,
                    row_index as int,
                    col_index as int,
                ),
            decreases maze@[row_index as int]@.len() - col_index,
        {
            let cell = maze[row_index][col_index];
            assert(0 <= col_index * block_size <= usize::MAX * usize::MAX && 0 <= row_index
                * block_size <= usize::MAX * usize::MAX) by (nonlinear_arith)
                requires
                    0 <= col_index <= usize::MAX,
                    0 <= row_index <= usize::MAX,
                    0 <= block_size <= usize::MAX,
            ;
            assert(usize::MAX * usize::MAX <= u128::MAX) by (nonlinear_arith)
                requires
                    usize::MAX <= u64::MAX,
            ;
            let x0 = (col_index as u128) * (block_size as u128);
            let y0 = (row_index as u128) * (block_size as u128);
            draw_cell(framebuffer, x0, y0, block_size, cell);
            col_index += 1;
        }
        row_index += 1;
    }
}

/// A line as the maze keeps it: without the carriage return that a line
/// ending may have left at its end.
pub open spec fn trimmed(line: Seq<char>) -> Seq<char> {
    if line.len() > 0 && line.last() == '\r' {
        line.drop_last()
    } else {
        line
    }
}

/// The lines of `rest`, where `partial` is what has been read of the
/// first of them. A line ends at a line feed, and a carriage return just
/// before that line feed belongs to the line ending. What follows the last
/// line feed is a line too, unless it is empty; it is kept as it is.
pub open spec fn lines_from(partial: Seq<char>, rest: Seq<char>) -> Seq<Seq<char>>
    decreases rest.len(),
{
    if rest.len() == 0 {
        if partial.len() == 0 {
            Seq::empty()
        } else {
            seq![partial]
        }
    } else if rest[0] == '\n' {
        seq![trimmed(partial)] + lines_from(Seq::empty(), rest.skip(1))
    } else {
        lines_from(partial.push(rest[0]), rest.skip(1))
    }
}

/// The rows of the maze that a text describes: its lines, one symbol per
/// character.
pub open spec fn rows_of(text: Seq<char>) -> Seq<Seq<char>> {
    lines_from(Seq::empty(), text)
}

/// The rows of a maze as sequences of symbols.
pub open spec fn symbols_of(maze: Seq<Vec<char>>) -> Seq<Seq<char>> {
    Seq::new(maze.len(), |j: int| maze[j]@)
}

/// Reads a maze from its text: one row per line, one cell per character.
pub fn load_maze(text: &Vec<char>) -> (maze: Vec<Vec<char>>)
    ensures
        symbols_of(maze@) == rows_of(text@),
{
    let mut maze: Vec<Vec<char>> = Vec::new();
    let mut row: Vec<char> = Vec::new();
    let mut i: usize = 0;
    proof {
        assert(symbols_of(maze@) =~= Seq::<Seq<char>>::empty());
        assert(text@.skip(0) =~= text@);
    }
    while i < text.len()
        invariant
            0 <= i <= text@.len(),
            rows_of(text@) == symbols_of(maze@) + lines_from(row@, text@.skip(i as int)),
        decreases text@.len() - i,
    {
        let c = text[i];
        let ghost before = symbols_of(maze@);
        let ghost rest = text@.skip(i as int);
        proof {
            assert(rest[0] == c);
            assert(rest.skip(1) =~= text@.skip(i + 1));
        }
        if c == '\n' {
            let ghost full = row@;
            let len = row.len();
            if len > 0 && row[len - 1] == '\r' {
                row.pop();
            }
            let ghost kept = row@;
            maze.push(row);
            row = Vec::new();
            proof {
                let tail = lines_from(Seq::empty(), text@.skip(i + 1));
                assert(kept =~= trimmed(full));
                assert(row@ =~= Seq::<char>::empty());
                assert(symbols_of(maze@) =~= before + seq![kept]);
                assert((before + seq![kept]) + tail =~= before + (seq![kept] + tail));
            }
        } else {
            row.push(c);
        }
        i += 1;
    }
    proof {
        assert(text@.skip(i as int).len() == 0);
    }
    if row.len() > 0 {
        let ghost before = symbols_of(maze@);
        let ghost last = row@;
        maze.push(row);
        proof {
            assert(symbols_of(maze@) =~= before + seq![last]);
        }
    } else {
        proof {
            assert(symbols_of(maze@) + Seq::<Seq<char>>::empty() =~= symbols_of(maze@));
        }
    }
    maze
}

} // verus!
