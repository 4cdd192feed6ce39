//! The ray caster: marching a ray through the maze until something stops it.
//!
//! A ray starts at the player and advances one world unit at a time. It
//! stops at the first step that lies outside the world, outside the grid, or
//! in a cell that is not open. The world is as wide and high, in world
//! units, as the framebuffer is in pixels.

use vstd::prelude::*;
use crate::color::Color;
use crate::fixed::{whole, ONE};
use crate::framebuffer::{lemma_paint_nothing, lemma_paint_plot, Framebuffer, Surface};
use crate::maze::{cell_of, in_grid, is_rectangular, spec_is_open, symbol_at, OPEN, START};
use crate::player::Player;
use crate::trig::{lemma_axes, valid_quarter, TrigTable, QUARTER};

verus! {

/// The distance, in world units, after which a ray gives up.
pub const MAX_DISTANCE: u32 = 1000;

/// What a ray met: after how many world units, and the symbol of the cell
/// that stopped it. The symbol is a space if nothing did.
#[derive(Clone, Copy, Debug, PartialEq, Eq, Structural)]
pub struct Intersect {
    pub distance: u32,
    pub impact: char,
}

/// What rays are cast through: a maze of cells `block_size` world units
/// wide, in a world `width` by `height` world units large.
pub struct World {
    pub maze: Seq<Vec<char>>,
    pub width: int,
    pub height: int,
    pub block_size: int,
}

/// A ray: the raw coordinates of its origin and of the step it takes per
/// world unit of distance.
pub struct Ray {
    pub x: int,
    pub y: int,
    pub dx: int,
    pub dy: int,
}

impl Ray {
    /// The point of the ray at distance `d`.
    pub open spec fn at(self, d: int) -> (int, int) {
        (self.x + d * self.dx, self.y + d * self.dy)
    }

    /// The pixel that holds the point at distance `d`, on a surface that
    /// shows one world unit per pixel.
    pub open spec fn pixel_at(self, d: int) -> (int, int) {
        (whole(self.at(d).0), whole(self.at(d).1))
    }

    /// The pixels of the first `n` steps of the ray.
    pub open spec fn trace(self, n: int) -> Set<(int, int)> {
        Set::new(|p: (int, int)| exists|d: int| 0 <= d < n && p == #[trigger] self.pixel_at(d))
    }
}

impl World {
    /// The point lies outside the world.
    pub open spec fn outside(self, p: (int, int)) -> bool {
        p.0 < 0 || p.1 < 0 || p.0 >= self.width * ONE || p.1 >= self.height * ONE
    }

    /// The column of the cell that holds the point.
    pub open spec fn col_of(self, p: (int, int)) -> int {
        cell_of(p.0, self.block_size)
    }

    /// The row of the cell that holds the point.
    pub open spec fn row_of(self, p: (int, int)) -> int {
        cell_of(p.1, self.block_size)
    }

    /// The point lies in the world and in a cell of the maze.
    pub open spec fn in_maze(self, p: (int, int)) -> bool {
        !self.outside(p) && in_grid(self.maze, self.col_of(p), self.row_of(p))
    }

    /// A ray that reaches the point goes no further.
    pub open spec fn stops(self, p: (int, int)) -> bool {
        !self.in_maze(p) || !spec_is_open(symbol_at(self.maze, self.col_of(p), self.row_of(p)))
    }

    /// The symbol a ray reports when it stops at the point: that of the
    /// cell, or a space where there is no cell.
    pub open spec fn symbol_met(self, p: (int, int)) -> char {
        if self.in_maze(p) {
            symbol_at(self.maze, self.col_of(p), self.row_of(p))
        } else {
            OPEN
        }
    }
}

/// What a ray meets that has come as far as distance `d` unhindered.
#[verifier::opaque]
pub open spec fn march(world: World, ray: Ray, d: int) -> Intersect
    decreases MAX_DISTANCE - d,
{
    if d < 0 || d >= MAX_DISTANCE {
        Intersect { distance: MAX_DISTANCE, impact: OPEN }
    } else if world.stops(ray.at(d)) {
        Intersect { distance: d as u32, impact: world.symbol_met(ray.at(d)) }
    } else {
        march(world, ray, d + 1)
    }
}

/// What a ray meets: the first of its steps at which it stops.
pub open spec fn ray_hit(world: World, ray: Ray) -> Intersect {
    march(world, ray, 0)
}

/// The world that a framebuffer and a maze span.
pub open spec fn world_of(surface: Surface, maze: Seq<Vec<char>>, block_size: int) -> World {
    World { maze, width: surface.width, height: surface.height, block_size }
}

/// The ray that leaves the player at `angle`.
pub open spec fn ray_of(player: Player, trig: TrigTable, angle: int) -> Ray {
    Ray {
        x: player.pos.x as int,
        y: player.pos.y as int,
        dx: trig.spec_cos(angle),
        dy: trig.spec_sin(angle),
    }
}

/// The march finds the least distance at which the ray stops: no step
/// before it stops the ray, and the step at it does, unless the ray ran
/// the whole [`MAX_DISTANCE`] unhindered.
pub proof fn lemma_march_first_stop(world: World, ray: Ray, from: int)
    requires
        0 <= from <= MAX_DISTANCE,
    ensures
        from <= march(world, ray, from).distance <= MAX_DISTANCE,
        forall|d: int| from <= d < march(world, ray, from).distance ==> !world.stops(ray.at(d)),
        march(world, ray, from).distance < MAX_DISTANCE ==> {
            &&& world.stops(ray.at(march(world, ray, from).distance as int))
            &&& march(world, ray, from).impact == world.symbol_met(
                ray.at(march(world, ray, from).distance as int),
            )
        },
        march(world, ray, from).distance == MAX_DISTANCE ==> march(world, ray, from).impact
            == OPEN,
    decreases MAX_DISTANCE - from,
{
    reveal(march);
    if from < MAX_DISTANCE && !world.stops(ray.at(from)) {
        lemma_march_first_stop(world, ray, from + 1);
    }
}

/// Whatever symbol a ray reports other than a space is the symbol of the
/// cell that holds the point where the ray stopped: resolving the origin
/// moved by the distance along the direction leads back to the cell that
/// stopped the ray, and that cell is not open. A ray that reports a space
/// ran the whole [`MAX_DISTANCE`] or stopped where there is no cell.
pub proof fn lemma_hit_resolves(world: World, ray: Ray)
    ensures
        ({
            let hit = ray_hit(world, ray);
            let p = ray.at(hit.distance as int);
            &&& hit.impact != OPEN ==> {
                &&& hit.distance < MAX_DISTANCE
                &&& world.in_maze(p)
                &&& symbol_at(world.maze, world.col_of(p), world.row_of(p)) == hit.impact
                &&& !spec_is_open(hit.impact)
            }
            &&& hit.impact == OPEN ==> hit.distance == MAX_DISTANCE || !world.in_maze(p)
        }),
{
    lemma_march_first_stop(world, ray, 0);
}

/// The cell index grows with the coordinate.
pub proof fn lemma_cell_of_ordered(a: int, b: int, block_size: int)
    requires
        0 <= a <= b,
        block_size > 0,
    ensures
        0 <= cell_of(a, block_size) <= cell_of(b, block_size),
{
    vstd::arithmetic::div_mod::lemma_div_is_ordered(a, b, ONE as int);
    vstd::arithmetic::div_mod::lemma_div_is_ordered(whole(a), whole(b), block_size);
    crate::fixed::lemma_div_bounds(whole(a), block_size);
}

/// A ray cast straight along an axis into the wall cell next to its own
/// stops in that cell after less than a cell's width.
///
/// The ray starts in the open cell `(col, row)` and runs along `toward`,
/// one of the four axis directions. The cell next to it in that direction
/// is a wall, and the ray is in that cell at the step `reach`, short of a
/// cell's width and of the distance at which rays give up. A ray that
/// starts less than one world unit from the far side of its cell, as seen
/// from the wall, has no such step: it takes a whole cell's width.
pub proof fn lemma_adjacent_wall(
    world: World,
    ray: Ray,
    col: int,
    row: int,
    toward: (int, int),
    reach: int,
)
    requires
        world.block_size > 0,
        is_rectangular(world.maze),
        toward == (1int, 0int) || toward == (-1int, 0int) || toward == (0int, 1int) || toward == (
            0int,
            -1int,
        ),
        ray.dx == toward.0 * ONE,
        ray.dy == toward.1 * ONE,
        world.in_maze(ray.at(0)),
        world.col_of(ray.at(0)) == col,
        world.row_of(ray.at(0)) == row,
        spec_is_open(symbol_at(world.maze, col, row)),
        0 <= reach < world.block_size,
        reach < MAX_DISTANCE,
        !world.outside(ray.at(reach)),
        world.col_of(ray.at(reach)) == col + toward.0,
        world.row_of(ray.at(reach)) == row + toward.1,
        in_grid(world.maze, col + toward.0, row + toward.1),
        !spec_is_open(symbol_at(world.maze, col + toward.0, row + toward.1)),
    ensures
        ray_hit(world, ray).distance <= reach < world.block_size,
        ray_hit(world, ray).impact == symbol_at(world.maze, col + toward.0, row + toward.1),
{
    let hit = ray_hit(world, ray);
    lemma_march_first_stop(world, ray, 0);
    assert(world.stops(ray.at(reach)));
    assert(hit.distance <= reach);
    let d = hit.distance as int;
    let p = ray.at(d);
    let far = ray.at(reach);
    if toward == (1int, 0int) {
        assert(d * ray.dx == d * ONE && reach * ray.dx == reach * ONE && d * ray.dy == 0 && reach
            * ray.dy == 0) by (nonlinear_arith)
            requires
                ray.dx == ONE,
                ray.dy == 0,
        ;
        lemma_cell_of_ordered(ray.x, p.0, world.block_size);
        lemma_cell_of_ordered(p.0, far.0, world.block_size);
    } else if toward == (-1int, 0int) {
        assert(d * ray.dx == -(d * ONE) && reach * ray.dx == -(reach * ONE) && d * ray.dy == 0
            && reach * ray.dy == 0) by (nonlinear_arith)
            requires
                ray.dx == -ONE,
                ray.dy == 0,
        ;
        lemma_cell_of_ordered(p.0, ray.x, world.block_size);
        lemma_cell_of_ordered(far.0, p.0, world.block_size);
    } else if toward == (0int, 1int) {
        assert(d * ray.dy == d * ONE && reach * ray.dy == reach * ONE && d * ray.dx == 0 && reach
            * ray.dx == 0) by (nonlinear_arith)
            requires
                ray.dy == ONE,
                ray.dx == 0,
        ;
        lemma_cell_of_ordered(ray.y, p.1, world.block_size);
        lemma_cell_of_ordered(p.1, far.1, world.block_size);
    } else {
        assert(d * ray.dy == -(d * ONE) && reach * ray.dy == -(reach * ONE) && d * ray.dx == 0
            && reach * ray.dx == 0) by (nonlinear_arith)
            requires
                ray.dy == -ONE,
                ray.dx == 0,
        ;
        lemma_cell_of_ordered(p.1, ray.y, world.block_size);
        lemma_cell_of_ordered(far.1, p.1, world.block_size);
    }
    assert(!world.outside(p));
    assert(world.col_of(p) == col || world.col_of(p) == col + toward.0);
    assert(world.row_of(p) == row || world.row_of(p) == row + toward.1);
    assert(world.stops(p));
    assert(world.in_maze(p));
}

/// The step of a ray cast straight along an axis, `quarters` quarter turns
/// from the positive x axis: one world unit along that axis, in units of
/// cells.
pub open spec fn axis_step(quarters: int) -> (int, int) {
    if quarters == 0 {
        (1, 0)
    } else if quarters == 1 {
        (0, 1)
    } else if quarters == 2 {
        (-1, 0)
    } else {
        (0, -1)
    }
}

/// A ray that the player casts at a whole number of quarter turns into the
/// wall cell next to their own stops in that cell after less than a cell's
/// width; see [`lemma_adjacent_wall`].
pub proof fn lemma_cast_at_adjacent_wall(
    world: World,
    player: Player,
    trig: TrigTable,
    quarters: int,
    col: int,
    row: int,
    reach: int,
)
    requires
        valid_quarter(trig@),
        0 <= quarters < 4,
        world.block_size > 0,
        is_rectangular(world.maze),
        world.in_maze(ray_of(player, trig, quarters * QUARTER).at(0)),
        world.col_of(ray_of(player, trig, quarters * QUARTER).at(0)) == col,
        world.row_of(ray_of(player, trig, quarters * QUARTER).at(0)) == row,
        spec_is_open(symbol_at(world.maze, col, row)),
        0 <= reach < world.block_size,
        reach < MAX_DISTANCE,
        !world.outside(ray_of(player, trig, quarters * QUARTER).at(reach)),
        world.col_of(ray_of(player, trig, quarters * QUARTER).at(reach)) == col + axis_step(
            quarters,
        ).0,
        world.row_of(ray_of(player, trig, quarters * QUARTER).at(reach)) == row + axis_step(
            quarters,
        ).1,
        in_grid(world.maze, col + axis_step(quarters).0, row + axis_step(quarters).1),
        !spec_is_open(
            symbol_at(world.maze, col + axis_step(quarters).0, row + axis_step(quarters).1),
        ),
    ensures
        ray_hit(world, ray_of(player, trig, quarters * QUARTER)).distance < world.block_size,
        ray_hit(world, ray_of(player, trig, quarters * QUARTER)).impact == symbol_at(
            world.maze,
            col + axis_step(quarters).0,
            row + axis_step(quarters).1,
        ),
{
    lemma_axes(trig@);
    lemma_adjacent_wall(
        world,
        ray_of(player, trig, quarters * QUARTER),
        col,
        row,
        axis_step(quarters),
        reach,
    );
}

/// A ray whose first step leaves the world meets nothing, unless its
/// origin already lies in a cell that is not open: it reports a space, at
/// a distance of at most one.
pub proof fn lemma_outward_ray(world: World, ray: Ray)
    requires
        world.outside(ray.at(1)),
        spec_is_open(world.symbol_met(ray.at(0))),
    ensures
        ray_hit(world, ray).impact == OPEN,
        0 <= ray_hit(world, ray).distance <= 1,
{
    reveal(march);
    lemma_march_first_stop(world, ray, 0);
    assert(world.stops(ray.at(1)));
    assert(march(world, ray, 0) == if world.stops(ray.at(0)) {
        Intersect { distance: 0, impact: world.symbol_met(ray.at(0)) }
    } else {
        march(world, ray, 1)
    });
    assert(march(world, ray, 1) == Intersect { distance: 1, impact: world.symbol_met(ray.at(1)) });
}

/// How far the point `p` lies ahead of the point `from`, for one who looks
/// along the axis that lies `quarters` quarter turns from the positive x
/// axis.
pub open spec fn depth(quarters: int, from: (int, int), p: (int, int)) -> int {
    if quarters == 0 {
        p.0 - from.0
    } else if quarters == 1 {
        p.1 - from.1
    } else if quarters == 2 {
        from.0 - p.0
    } else {
        from.1 - p.1
    }
}

/// How far one step takes a ray ahead along the axis that lies `quarters`
/// quarter turns from the positive x axis.
pub open spec fn advance(ray: Ray, quarters: int) -> int {
    depth(quarters, (0, 0), (ray.dx, ray.dy))
}

/// Step by step a ray gets ahead by its advance.
pub proof fn lemma_depth_of_step(ray: Ray, quarters: int, d: int)
    ensures
        depth(quarters, ray.at(0), ray.at(d)) == d * advance(ray, quarters),
{
    assert(d * (-ray.dx) == -(d * ray.dx) && d * (-ray.dy) == -(d * ray.dy) && 0 * ray.dx == 0 && 0
        * ray.dy == 0) by (nonlinear_arith);
}

/// A ray toward a flat wall that nothing else hides stops at the first
/// step that reaches the wall, so the way it has gone along the axis
/// exceeds its distance from the wall by less than one step.
///
/// The wall lies across one of the four axes, `gap` ahead of the origin of
/// the ray: it is the plane of all points at least that far ahead. The ray
/// runs toward it and stops exactly where it has reached it.
pub proof fn lemma_flat_wall(world: World, ray: Ray, quarters: int, gap: int)
    requires
        0 <= quarters < 4,
        advance(ray, quarters) > 0,
        0 < gap <= (MAX_DISTANCE - 1) * advance(ray, quarters),
        forall|d: int|
            0 <= d < MAX_DISTANCE ==> (world.stops(#[trigger] ray.at(d)) <==> depth(
                quarters,
                ray.at(0),
                ray.at(d),
            ) >= gap),
    ensures
        ({
            let gone = ray_hit(world, ray).distance * advance(ray, quarters);
            gap <= gone < gap + advance(ray, quarters)
        }),
{
    let hit = ray_hit(world, ray);
    let d = hit.distance as int;
    let step = advance(ray, quarters);
    lemma_march_first_stop(world, ray, 0);
    lemma_depth_of_step(ray, quarters, MAX_DISTANCE - 1);
    assert(world.stops(ray.at(MAX_DISTANCE - 1)));
    assert(d < MAX_DISTANCE);
    assert(world.stops(ray.at(d)));
    lemma_depth_of_step(ray, quarters, d);
    lemma_depth_of_step(ray, quarters, 0);
    assert(d > 0) by {
        assert(0 * step == 0) by (nonlinear_arith);
        assert(!world.stops(ray.at(0)));
    }
    assert(!world.stops(ray.at(d - 1)));
    lemma_depth_of_step(ray, quarters, d - 1);
    assert((d - 1) * step == d * step - step) by (nonlinear_arith);
}

/// Two rays that stop at the same steps stop at the same distance. Such are
/// two rays from one origin at equal angles to either side of an axis, cast
/// at a flat wall across that axis that nothing else hides: step by step
/// they are equally far along the axis, and so reach the wall together.
pub proof fn lemma_mirror_rays(world: World, ray: Ray, mirrored: Ray)
    requires
        forall|d: int|
            0 <= d < MAX_DISTANCE ==> (world.stops(#[trigger] ray.at(d)) <==> world.stops(
                mirrored.at(d),
            )),
    ensures
        ray_hit(world, ray).distance == ray_hit(world, mirrored).distance,
{
    let a = ray_hit(world, ray).distance as int;
    let b = ray_hit(world, mirrored).distance as int;
    lemma_march_first_stop(world, ray, 0);
    lemma_march_first_stop(world, mirrored, 0);
    if a < b {
        assert(world.stops(ray.at(a)));
        assert(!world.stops(mirrored.at(a)));
    }
    if b < a {
        assert(world.stops(mirrored.at(b)));
        assert(!world.stops(ray.at(b)));
    }
}

/// Casts a ray from the player at `angle` and reports what it meets.
///
/// The drawing colour becomes white smoke. With `draw_line` set, every
/// step that the ray passed through is plotted in that colour, one pixel
/// per world unit.
pub fn cast_ray(
    framebuffer: &mut Framebuffer,
    maze: &Vec<Vec<char>>,
    player: &Player,
    a: i64,
    block_size: usize,
    draw_line: bool,
    trig: &TrigTable,
) -> (hit: Intersect)
    requires
        block_size > 0,
        is_rectangular(maze@),
    ensures
        hit == ray_hit(
            world_of(old(framebuffer)@, maze@, block_size as int),
            ray_of(*player, *trig, a as int),
        ),
        final(framebuffer)@ == if draw_line {
            old(framebuffer)@.with_color(Color::white_smoke()).paint(
                ray_of(*player, *trig, a as int).trace(hit.distance as int),
            )
        } else {
            old(framebuffer)@.with_color(Color::white_smoke())
        },
        old(framebuffer)@.wf() ==> final(framebuffer)@.wf(),
        hit.distance <= MAX_DISTANCE,
{
    let step_x = trig.cos(a);
    let step_y = trig.sin(a);
    let ghost world = world_of(old(framebuffer)@, maze@, block_size as int);
    let ghost ray = ray_of(*player, *trig, a as int);
    let ghost canvas = old(framebuffer)@.with_color(Color::white_smoke());
    framebuffer.set_current_color(Color::white_smoke());
    proof {
        lemma_paint_nothing(canvas);
        assert(ray.trace(0) =~= Set::empty());
    }
    let mut d: u32 = 0;
    while d < MAX_DISTANCE
        invariant
            0 <= d <= MAX_DISTANCE,
            block_size > 0,
            is_rectangular(maze@),
            world == world_of(old(framebuffer)@, maze@, block_size as int),
            ray == ray_of(*player, *trig, a as int),
            step_x == ray.dx,
            step_y == ray.dy,
            -ONE <= step_x <= ONE,
            -ONE <= step_y <= ONE,
            canvas == old(framebuffer)@.with_color(Color::white_smoke()),
            march(world, ray, 0) == march(world, ray, d as int),
            framebuffer@ == if draw_line {
                canvas.paint(ray.trace(d as int))
            } else {
                canvas
            },
        decreases MAX_DISTANCE - d,
    {
        proof {
            reveal(march);
        }
        assert(-1000 * ONE <= d * step_x <= 1000 * ONE && -1000 * ONE <= d * step_y <= 1000 * ONE)
            by (nonlinear_arith)
            requires
                0 <= d <= 1000,
                -ONE <= step_x <= ONE,
                -ONE <= step_y <= ONE,
        ;
        let x: i128 = player.pos.x as i128 + (d as i128) * (step_x as i128);
        let y: i128 = player.pos.y as i128 + (d as i128) * (step_y as i128);
        assert((x as int, y as int) == ray.at(d as int));
        assert(framebuffer.width * ONE <= 0xffff_ffff * ONE && framebuffer.height * ONE
            <= 0xffff_ffff * ONE);
        if x < 0 || y < 0 || x >= (framebuffer.width as i128) * (ONE as i128) || y >= (
        framebuffer.height as i128) * (ONE as i128) {
            return Intersect { distance: d, impact: OPEN };
        }
        let column = x / (ONE as i128);
        let line = y / (ONE as i128);
        let i = (column as usize) / block_size;
        let j = (line as usize) / block_size;
        assert(i == world.col_of(ray.at(d as int)));
        assert(j == world.row_of(ray.at(d as int)));
        if j >= maze.len() || i >= maze[0].len() {
            return Intersect { distance: d, impact: OPEN };
        }
        let symbol = maze[j][i];
        if symbol != OPEN && symbol != START {
            return Intersect { distance: d, impact: symbol };
        }
        if draw_line {
            proof {
                lemma_paint_plot(canvas, ray.trace(d as int), column as int, line as int);
                assert(ray.pixel_at(d as int) == (column as int, line as int));
                assert(ray.trace(d as int).insert((column as int, line as int)) =~= ray.trace(
                    d + 1,
                ));
            }
            framebuffer.set_pixel(column as u32, line as u32);
        }
        d += 1;
    }
    proof {
        reveal(march);
    }
    Intersect { distance: MAX_DISTANCE, impact: OPEN }
}

} // verus!
