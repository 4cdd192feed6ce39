//! The camera: where the player stands and which way they look.

use vstd::prelude::*;
use crate::fixed::ONE;
use crate::maze::{cell_of, in_grid, is_rectangular, symbol_at, GOAL, START};
use crate::trig::TURN;

verus! {

/// A point of the world, in fixed-point coordinates.
#[derive(Clone, Copy, Debug, PartialEq, Eq, Structural)]
pub struct Vector2 {
    pub x: i64,
    pub y: i64,
}

impl Vector2 {
    pub open spec fn spec_new(x: i64, y: i64) -> Vector2 {
        Vector2 { x, y }
    }

    #[verifier::when_used_as_spec(spec_new)]
    pub fn new(x: i64, y: i64) -> (v: Vector2)
        ensures
            v == Vector2::spec_new(x, y),
    {
        Vector2 { x, y }
    }
}

/// The angle a new player looks along, and the width of their field of
/// view: a sixth of a turn.
pub const SIXTH_TURN: i64 = 3_840;

/// The camera state: position, heading and field of view.
#[derive(Clone, Copy, Debug, PartialEq, Eq, Structural)]
pub struct Player {
    /// Position, in fixed-point world coordinates.
    pub pos: Vector2,
    /// Heading, in ticks.
    pub a: i64,
    /// Width of the field of view, in ticks.
    pub fov: i64,
}

/// The raw world coordinate of the middle of cell `index`, for cells
/// `block_size` world units wide.
pub open spec fn cell_center(index: int, block_size: int) -> int {
    (index * block_size + block_size / 2) * ONE
}

/// The cell in column `col` of row `row` holds the start marker, and no
/// cell before it does, going through the maze row by row.
pub open spec fn is_first_start(maze: Seq<Vec<char>>, col: int, row: int) -> bool {
    &&& 0 <= row < maze.len()
    &&& 0 <= col < maze[row]@.len()
    &&& maze[row]@[col] == START
    &&& forall|c: int, r: int|
        0 <= r < maze.len() && 0 <= c < maze[r]@.len() && (r < row || (r == row && c < col))
            ==> #[trigger] maze[r]@[c] != START
}

/// The middles of all cells of the maze have raw coordinates that fit in
/// `i64`.
pub open spec fn centers_fit(maze: Seq<Vec<char>>, block_size: int) -> bool {
    &&& maze.len() * block_size * ONE <= i64::MAX
    &&& forall|r: int|
        0 <= r < maze.len() ==> (#[trigger] maze[r])@.len() * block_size * ONE <= i64::MAX
}

/// Whether the middles of all cells have coordinates in range; see
/// [`centers_fit`].
pub fn centers_in_range(maze: &Vec<Vec<char>>, block_size: usize) -> (ok: bool)
    ensures
        ok == centers_fit(maze@, block_size as int),
{
    if !extent_in_range(maze.len(), block_size) {
        return false;
    }
    let mut row: usize = 0;
    while row < maze.len()
        invariant
            0 <= row <= maze@.len(),
            maze@.len() * block_size * ONE <= i64::MAX,
            forall|r: int|
                0 <= r < row ==> (#[trigger] maze@[r])@.len() * block_size * ONE <= i64::MAX,
        decreases maze@.len() - row,
    {
        if !extent_in_range(maze[row].len(), block_size) {
            return false;
        }
        row += 1;
    }
    true
}

/// Whether `cells` cells of `block_size` world units have a raw extent
/// that fits in `i64`.
fn extent_in_range(cells: usize, block_size: usize) -> (ok: bool)
    ensures
        ok == (cells * block_size * ONE <= i64::MAX),
{
    assert(0 <= cells * block_size <= usize::MAX * usize::MAX) by (nonlinear_arith)
        requires
            0 <= cells <= usize::MAX,
            0 <= block_size <= usize::MAX,
    ;
    assert(usize::MAX * usize::MAX <= u128::MAX) by (nonlinear_arith)
        requires
            usize::MAX <= u64::MAX,
    ;
    let extent: u128 = (cells as u128) * (block_size as u128);
    extent <= (i64::MAX / ONE) as u128
}

impl Player {
    pub open spec fn spec_new(x: i64, y: i64) -> Player {
        Player { pos: Vector2 { x, y }, a: SIXTH_TURN, fov: SIXTH_TURN }
    }

    /// A player at `(x, y)` who looks a sixth of a turn away from the x
    /// axis and sees a sixth of a turn.
    #[verifier::when_used_as_spec(spec_new)]
    pub fn new(x: i64, y: i64) -> (player: Player)
        ensures
            player == Player::spec_new(x, y),
            6 * player.a == TURN,
    {
        Player { pos: Vector2::new(x, y), a: SIXTH_TURN, fov: SIXTH_TURN }
    }

    /// A new player in the middle of the first cell that holds the start
    /// marker, going through the maze row by row; nothing if no cell does.
    pub fn from_maze(maze: &Vec<Vec<char>>, block_size: usize) -> (found: Option<Player>)
        requires
            centers_fit(maze@, block_size as int),
        ensures
            match found {
                Some(player) => exists|col: int, row: int|
                    {
                        &&& #[trigger] is_first_start(maze@, col, row)
                        &&& player == Player::spec_new(
                            cell_center(col, block_size as int) as i64,
                            cell_center(row, block_size as int) as i64,
                        )
                    },
                None => forall|col: int, row: int|
                    0 <= row < maze@.len() && 0 <= col < maze@[row]@.len()
                        ==> #[trigger] maze@[row]@[col] != START,
            },
    {
        let mut row: usize = 0;
        while row < maze.len()
            invariant
                0 <= row <= maze@.len(),
                centers_fit(maze@, block_size as int),
                forall|c: int, r: int|
                    0 <= r < row && 0 <= c < maze@[r]@.len() ==> #[trigger] maze@[r]@[c] != START,
            decreases maze@.len() - row,
        {
            let mut col: usize = 0;
            while col < maze[row].len()
                invariant
                    0 <= row < maze@.len(),
                    0 <= col <= maze@[row as int]@.len(),
                    centers_fit(maze@, block_size as int),
                    forall|c: int, r: int|
                        0 <= r < row && 0 <= c < maze@[r]@.len() ==> #[trigger] maze@[r]@[c]
                            != START,
                    forall|c: int| 0 <= c < col ==> #[trigger] maze@[row as int]@[c] != START,
                decreases maze@[row as int]@.len() - col,
            {
                if maze[row][col] == START {
                    proof {
                        let wide = maze@[row as int]@.len() as int;
                        let high = maze@.len() as int;
                        assert(0 <= (col * block_size + block_size / 2) * ONE <= wide * block_size
                            * ONE && 0 <= (row * block_size + block_size / 2) * ONE <= high
                            * block_size * ONE) by (nonlinear_arith)
                            requires
                                0 <= col < wide,
                                0 <= row < high,
                                0 <= block_size,
                                0 <= block_size / 2 <= block_size,
                        ;
                        assert(0 <= col * block_size + block_size / 2 <= (col * block_size
                            + block_size / 2) * ONE && 0 <= row * block_size + block_size / 2 <= (
                        row * block_size + block_size / 2) * ONE && 0 <= col * block_size && 0
                            <= row * block_size) by (nonlinear_arith)
                            requires
                                0 <= col,
                                0 <= row,
                                0 <= block_size,
                                0 <= block_size / 2,
                        ;
                    }
                    let half = (block_size / 2) as i128;
                    let x = ((col as i128) * (block_size as i128) + half) * (ONE as i128);
                    let y = ((row as i128) * (block_size as i128) + half) * (ONE as i128);
                    proof {
                        assert(is_first_start(maze@, col as int, row as int));
                    }
                    return Some(Player::new(x as i64, y as i64));
                }
                col += 1;
            }
            row += 1;
        }
        None
    }

    /// The player stands on the goal.
    pub open spec fn on_goal(self, maze: Seq<Vec<char>>, block_size: int) -> bool {
        let col = cell_of(self.pos.x as int, block_size);
        let row = cell_of(self.pos.y as int, block_size);
        in_grid(maze, col, row) && symbol_at(maze, col, row) == GOAL
    }

    /// Whether the player stands on the goal. A coordinate below zero
    /// counts as zero.
    pub fn check_victory(&self, maze: &Vec<Vec<char>>, block_size: usize) -> (won: bool)
        requires
            block_size > 0,
            is_rectangular(maze@),
        ensures
            won == self.on_goal(maze@, block_size as int),
    {
        let maze_x = cell_index(self.pos.x, block_size);
        let maze_y = cell_index(self.pos.y, block_size);
        if maze_y < maze.len() as u64 && maze_x < maze[0].len() as u64 {
            return maze[maze_y as usize][maze_x as usize] == GOAL;
        }
        false
    }
}

/// The index of the cell that holds a world coordinate; see
/// [`cell_of`](crate::maze::cell_of).
pub fn cell_index(coord: i64, block_size: usize) -> (index: u64)
    requires
        block_size > 0,
    ensures
        index == cell_of(coord as int, block_size as int),
{
    if coord < 0 {
        0
    } else {
        ((coord / ONE) as u64) / (block_size as u64)
    }
}

} // verus!
