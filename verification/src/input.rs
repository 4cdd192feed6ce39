//! Moving the player: turning, and stepping where the maze allows it.
//!
//! The library does not read a keyboard. The caller says which controls
//! are held, and the player turns and steps accordingly.

use vstd::prelude::*;
use crate::fixed::rem_floor;
use crate::maze::{cell_of, in_grid, is_rectangular, symbol_at, GOAL, OPEN, START};
use crate::player::{cell_index, Player, Vector2};
use crate::trig::{TrigTable, TURN};

verus! {

/// How far the player steps in one frame, in world units.
pub const MOVE_SPEED: i64 = 3;

/// How far the player turns in one frame, in ticks: a hundred-and-twentieth
/// of a turn.
pub const ROTATION_SPEED: i64 = 192;

/// The controls that are held during a frame.
#[derive(Clone, Copy, Debug, PartialEq, Eq, Structural)]
pub struct Controls {
    pub left: bool,
    pub right: bool,
    pub forward: bool,
    pub backward: bool,
}

/// The player may stand at the point `(x, y)`, given in raw world
/// coordinates: it lies in a cell of the maze that is open floor, the
/// start or the goal.
pub open spec fn walkable(maze: Seq<Vec<char>>, block_size: int, x: int, y: int) -> bool {
    let col = cell_of(x, block_size);
    let row = cell_of(y, block_size);
    &&& x >= 0
    &&& y >= 0
    &&& in_grid(maze, col, row)
    &&& (symbol_at(maze, col, row) == OPEN || symbol_at(maze, col, row) == START || symbol_at(
        maze,
        col,
        row,
    ) == GOAL)
}

/// A heading turned by `by` ticks: the sum of the two. Only where the sum
/// does not fit in `i64` it is replaced by the angle in `0..TURN` that it
/// stands for.
pub open spec fn turn(heading: int, by: int) -> int {
    if i64::MIN <= heading + by <= i64::MAX {
        heading + by
    } else {
        (heading + by) % (TURN as int)
    }
}

/// The heading after the turning controls took effect: [`ROTATION_SPEED`]
/// less for a turn to the left, as much more for a turn to the right. A
/// heading that no control turns is left as it is.
pub open spec fn turned(heading: int, controls: Controls) -> int {
    let after_left = if controls.left {
        turn(heading, -ROTATION_SPEED)
    } else {
        heading
    };
    if controls.right {
        turn(after_left, ROTATION_SPEED as int)
    } else {
        after_left
    }
}

/// Where a step of [`MOVE_SPEED`] world units takes the player, along the
/// heading if `forward` is set and against it otherwise. The player stays
/// where a step would leave the walkable maze, or the range of the
/// coordinates.
pub open spec fn stepped(
    pos: Vector2,
    heading: int,
    forward: bool,
    maze: Seq<Vec<char>>,
    block_size: int,
    trig: TrigTable,
) -> Vector2 {
    let run = MOVE_SPEED * trig.spec_cos(heading);
    let rise = MOVE_SPEED * trig.spec_sin(heading);
    let x = if forward {
        pos.x + run
    } else {
        pos.x - run
    };
    let y = if forward {
        pos.y + rise
    } else {
        pos.y - rise
    };
    if x <= i64::MAX && y <= i64::MAX && walkable(maze, block_size, x, y) {
        Vector2 { x: x as i64, y: y as i64 }
    } else {
        pos
    }
}

/// The player after a frame in which `controls` were held: turned first,
/// then stepped forward, then stepped backward.
pub open spec fn after_events(
    player: Player,
    controls: Controls,
    maze: Seq<Vec<char>>,
    block_size: int,
    trig: TrigTable,
) -> Player {
    let heading = turned(player.a as int, controls);
    let ahead = if controls.forward {
        stepped(player.pos, heading, true, maze, block_size, trig)
    } else {
        player.pos
    };
    let back = if controls.backward {
        stepped(ahead, heading, false, maze, block_size, trig)
    } else {
        ahead
    };
    Player { pos: back, a: heading as i64, fov: player.fov }
}

/// A player who stands where they may stand still does so after a frame,
/// whatever controls were held: no step leads into a wall or out of the
/// maze.
pub proof fn lemma_player_stays_walkable(
    player: Player,
    controls: Controls,
    maze: Seq<Vec<char>>,
    block_size: int,
    trig: TrigTable,
)
    requires
        walkable(maze, block_size, player.pos.x as int, player.pos.y as int),
    ensures
        ({
            let after = after_events(player, controls, maze, block_size, trig);
            &&& walkable(maze, block_size, after.pos.x as int, after.pos.y as int)
            &&& after.fov == player.fov
        }),
{
}

/// Whether the player may stand at the point `(x, y)`.
pub fn is_valid_position(x: i64, y: i64, maze: &Vec<Vec<char>>, block_size: usize) -> (valid: bool)
    requires
        block_size > 0,
        is_rectangular(maze@),
    ensures
        valid == walkable(maze@, block_size as int, x as int, y as int),
{
    if x < 0 || y < 0 {
        return false;
    }
    let maze_x = cell_index(x, block_size);
    let maze_y = cell_index(y, block_size);
    if maze_y >= maze.len() as u64 || maze_x >= maze[0].len() as u64 {
        return false;
    }
    let cell = maze[maze_y as usize][maze_x as usize];
    cell == OPEN || cell == START || cell == GOAL
}

/// Takes one step along the heading, or against it, if the maze allows it.
fn step(
    player: &mut Player,
    forward: bool,
    maze: &Vec<Vec<char>>,
    block_size: usize,
    trig: &TrigTable,
)
    requires
        block_size > 0,
        is_rectangular(maze@),
    ensures
        final(player).a == old(player).a,
        final(player).fov == old(player).fov,
        final(player).pos == stepped(
            old(player).pos,
            old(player).a as int,
            forward,
            maze@,
            block_size as int,
            *trig,
        ),
{
    let run = trig.cos(player.a);
    let rise = trig.sin(player.a);
    let new_x: i128 = if forward {
        player.pos.x as i128 + (MOVE_SPEED * run) as i128
    } else {
        player.pos.x as i128 - (MOVE_SPEED * run) as i128
    };
    let new_y: i128 = if forward {
        player.pos.y as i128 + (MOVE_SPEED * rise) as i128
    } else {
        player.pos.y as i128 - (MOVE_SPEED * rise) as i128
    };
    if new_x <= i64::MAX as i128 && new_y <= i64::MAX as i128 && new_x >= 0 && new_y >= 0 {
        if is_valid_position(new_x as i64, new_y as i64, maze, block_size) {
            player.pos = Vector2::new(new_x as i64, new_y as i64);
        }
    }
}

/// Turns a heading by `by` ticks; see [`turn`].
fn turn_by(heading: i64, by: i64) -> (after: i64)
    ensures
        after == turn(heading as int, by as int),
{
    let sum: i128 = heading as i128 + by as i128;
    if sum >= i64::MIN as i128 && sum <= i64::MAX as i128 {
        sum as i64
    } else {
        rem_floor(sum, TURN as i128) as i64
    }
}

/// Moves the player as the held controls say: turns left, turns right,
/// steps forward, steps backward, in that order.
pub fn process_events(
    controls: &Controls,
    player: &mut Player,
    maze: &Vec<Vec<char>>,
    block_size: usize,
    trig: &TrigTable,
)
    requires
        block_size > 0,
        is_rectangular(maze@),
    ensures
        *final(player) == after_events(*old(player), *controls, maze@, block_size as int, *trig),
{
    if controls.left {
        player.a = turn_by(player.a, -ROTATION_SPEED);
    }
    if controls.right {
        player.a = turn_by(player.a, ROTATION_SPEED);
    }
    if controls.forward {
        step(player, true, maze, block_size, trig);
    }
    if controls.backward {
        step(player, false, maze, block_size, trig);
    }
}

} // verus!
