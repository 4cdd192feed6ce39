//! The column projector: one ray per sampled screen column, drawn as a
//! vertical strip of wall.
//!
//! Every second column is sampled and drawn twice, on itself and on its
//! right-hand neighbour. For a sampled column the projector casts a ray,
//! removes the fisheye from its length, projects the wall onto the screen
//! and fills the strip row by row: with a pulsing gold for the goal, with
//! shaded texture for every other wall.

use vstd::prelude::*;
use crate::caster::{
    advance, cast_ray, depth, lemma_depth_of_step, lemma_flat_wall, lemma_mirror_rays, ray_hit,
    ray_of, world_of, World, MAX_DISTANCE,
};
use crate::color::Color;
use crate::fixed::{clamp, div_floor, lemma_div_bounds, rem_floor, whole, HALF, ONE};
use crate::framebuffer::{lemma_index_split, Framebuffer, Surface};
use crate::maze::{is_rectangular, WallKind, GOAL};
use crate::player::Player;
use crate::resources::{lemma_texel_in_square, sampled_index, Textures};
use crate::trig::{
    lemma_mirror, lemma_normalized, lemma_periodic, lemma_quarter_turns, lemma_sine_range,
    valid_quarter, TrigTable, QUARTER, TURN,
};

verus! {

/// The width of a maze cell in world units.
pub const BLOCK_SIZE: usize = 64;

/// The width of a maze cell as a raw fixed-point value.
pub const BLOCK_RAW: i64 = 64_000_000;

/// The projection constant: a wall at this many world units fills half the
/// screen height.
pub const PROJECTION: i64 = 100;

/// The number of world units over which a wall loses all the light that
/// distance can take from it.
pub const FADE_DISTANCE: i64 = 500;

/// The largest share of its light that distance takes from a wall.
pub const MAX_FADE: i64 = 800_000;

/// How far the pulse of the goal advances from one row to the next, in
/// thousandths of a tick: a tenth of a radian.
pub const PULSE_STEP: i64 = 366_693;

/// The angle between the player's heading and the ray of a column, on a
/// screen `width` columns wide.
pub open spec fn ray_offset(player: Player, column: int, width: int) -> int {
    (player.fov * column) / width - player.fov / 2
}

/// The angle of the ray of a column.
pub open spec fn ray_angle(player: Player, column: int, width: int) -> int {
    player.a + ray_offset(player, column, width)
}

/// The length of a ray without its fisheye: its distance along the heading,
/// which is its distance times the cosine of its offset.
pub open spec fn corrected_distance(distance: int, facing: int) -> int {
    distance * facing
}

/// The height on screen, as a fixed-point number of rows, of a wall at the
/// corrected distance `corrected`, on a screen `height` rows high.
pub open spec fn wall_height(height: int, corrected: int) -> int {
    let projected = (height * HALF * PROJECTION * ONE) / corrected;
    if projected < height * ONE {
        projected
    } else {
        height * ONE
    }
}

/// The first row of a wall at the corrected distance `corrected`.
pub open spec fn wall_top(height: int, corrected: int) -> int {
    let from = height * HALF - wall_height(height, corrected) / 2;
    whole(
        if from > 0 {
            from
        } else {
            0
        },
    )
}

/// The row after the last row of a wall at the corrected distance
/// `corrected`.
pub open spec fn wall_bottom(height: int, corrected: int) -> int {
    let to = height * HALF + wall_height(height, corrected) / 2;
    whole(
        if to < height * ONE {
            to
        } else {
            height * ONE
        },
    )
}

/// The strength of the goal's glow in a row, between zero and one.
pub open spec fn pulse(trig: TrigTable, row: int) -> int {
    trig.spec_sin((row * PULSE_STEP) / 1000) / 2 + HALF
}

/// The colour of the goal in a row: gold, its red and green dimmed by the
/// pulse.
pub open spec fn goal_color(trig: TrigTable, row: int) -> Color {
    Color {
        r: ((255 * pulse(trig, row)) / (ONE as int)) as u8,
        g: ((215 * pulse(trig, row)) / (ONE as int)) as u8,
        b: 0,
        a: 255,
    }
}

/// One coordinate of the point where the wall was met: the origin moved by
/// the corrected distance along the ray.
pub open spec fn hit_coord(origin: int, corrected: int, step: int) -> int {
    origin + (corrected * step) / (ONE as int)
}

/// How far along its cell a world coordinate lies, from zero to just under
/// one.
pub open spec fn texture_u(coord: int) -> int {
    (coord % (BLOCK_RAW as int)) / (BLOCK_SIZE as int)
}

/// How far down the strip from `top` to `bottom` a row lies, from zero to
/// just under one.
pub open spec fn texture_v(row: int, top: int, bottom: int) -> int {
    ((row - top) * ONE) / (bottom - top)
}

/// The texel, along one axis of a texture `size` texels wide, at the
/// fraction `fraction` of the way: never before the first and never beyond
/// the last.
pub open spec fn texel_of(fraction: int, size: int) -> int {
    clamp((fraction * size) / (ONE as int), 0, size - 1)
}

/// The share of its light that a wall at the corrected distance
/// `corrected` keeps, between a fifth and one.
pub open spec fn intensity(corrected: int) -> int {
    let fade = corrected / (FADE_DISTANCE as int);
    if fade < MAX_FADE {
        ONE - fade
    } else {
        ONE - MAX_FADE
    }
}

/// A colour with red, green and blue dimmed to `keep`, as opaque as it
/// was.
pub open spec fn shade(color: Color, keep: int) -> Color {
    Color {
        r: ((color.r * keep) / (ONE as int)) as u8,
        g: ((color.g * keep) / (ONE as int)) as u8,
        b: ((color.b * keep) / (ONE as int)) as u8,
        a: color.a,
    }
}

/// The colour of a textured wall in a row of its strip.
pub open spec fn wall_color(
    textures: Textures,
    symbol: char,
    u: int,
    corrected: int,
    top: int,
    bottom: int,
    row: int,
) -> Color {
    let texture = textures.wall_texture(symbol);
    let size = textures.texture_size as int;
    let x = texel_of(u, size);
    let y = texel_of(texture_v(row, top, bottom), size);
    shade(texture[sampled_index(texture.len() as int, size, x, y)], intensity(corrected))
}

/// The colours of the goal, row by row.
pub open spec fn goal_fill(trig: TrigTable) -> spec_fn(int) -> Color {
    |row: int| goal_color(trig, row)
}

/// The colours of a textured wall, row by row.
pub open spec fn wall_fill(
    textures: Textures,
    symbol: char,
    u: int,
    corrected: int,
    top: int,
    bottom: int,
) -> spec_fn(int) -> Color {
    |row: int| wall_color(textures, symbol, u, corrected, top, bottom, row)
}

/// The sample stored at index `k` belongs to the strip of `column`, in a
/// row from `top` to just before `bottom`. A strip is two columns wide.
pub open spec fn in_strip(s: Surface, column: int, top: int, bottom: int, k: int) -> bool {
    &&& s.width > 0
    &&& (k % s.width == column || k % s.width == column + 1)
    &&& top <= k / s.width < bottom
    &&& k / s.width < s.height
}

/// The surface after the strip of `column` was filled from row `top` to just
/// before `bottom`, each row in its colour. The drawing colour is left at
/// that of the last row.
#[verifier::opaque]
pub open spec fn strip(
    s: Surface,
    column: int,
    top: int,
    bottom: int,
    colors: spec_fn(int) -> Color,
) -> Surface {
    Surface {
        pixels: Seq::new(
            s.pixels.len(),
            |k: int|
                if in_strip(s, column, top, bottom, k) {
                    colors(k / s.width)
                } else {
                    s.pixels[k]
                },
        ),
        current: if top < bottom {
            colors(bottom - 1)
        } else {
            s.current
        },
        ..s
    }
}

/// Filling one more row of a strip: choose the colour of the row and plot
/// the two points of the strip in it.
pub proof fn lemma_strip_row(
    s: Surface,
    column: int,
    top: int,
    row: int,
    colors: spec_fn(int) -> Color,
)
    requires
        0 <= top <= row,
        0 <= column,
    ensures
        strip(s, column, top, row + 1, colors) == strip(s, column, top, row, colors).with_color(
            colors(row),
        ).plot(column, row).plot(column + 1, row),
{
    reveal(strip);
    let a = strip(s, column, top, row + 1, colors);
    let mid = strip(s, column, top, row, colors).with_color(colors(row)).plot(column, row);
    let b = mid.plot(column + 1, row);
    assert(a.pixels.len() == b.pixels.len());
    assert forall|k: int| 0 <= k < a.pixels.len() implies a.pixels[k] == b.pixels[k] by {
        if s.width > 0 {
            lemma_div_bounds(k, s.width);
            assert(s.width * (k / s.width) == (k / s.width) * s.width) by (nonlinear_arith);
            if column < s.width {
                lemma_index_split(s.width, column, row);
            }
            if column + 1 < s.width {
                lemma_index_split(s.width, column + 1, row);
            }
        }
    }
    assert(a.pixels =~= b.pixels);
}

/// A strip gives each of its points the colour of its row and leaves every
/// other point as it was.
pub proof fn lemma_strip_pixel(
    s: Surface,
    column: int,
    top: int,
    bottom: int,
    colors: spec_fn(int) -> Color,
    x: int,
    y: int,
)
    requires
        s.holds(x, y),
    ensures
        strip(s, column, top, bottom, colors).holds(x, y),
        strip(s, column, top, bottom, colors).pixel(x, y) == if (x == column || x == column + 1)
            && top <= y < bottom {
            colors(y)
        } else {
            s.pixel(x, y)
        },
        strip(s, column, top, bottom, colors).same_shape(s),
        s.wf() ==> strip(s, column, top, bottom, colors).wf(),
{
    reveal(strip);
    lemma_index_split(s.width, x, y);
    assert(0 <= y * s.width + x) by (nonlinear_arith)
        requires
            0 <= x,
            0 <= y,
            0 < s.width,
    ;
}

/// A strip without rows changes nothing.
pub proof fn lemma_strip_empty(s: Surface, column: int, top: int, colors: spec_fn(int) -> Color)
    ensures
        strip(s, column, top, top, colors) == s,
{
    reveal(strip);
    assert(strip(s, column, top, top, colors).pixels =~= s.pixels);
}

/// The surface after one sampled column was drawn.
///
/// Casting the ray leaves the drawing colour at white smoke. Nothing more
/// happens if the ray stopped at once, or if it points so far from the
/// heading that its corrected distance is not positive.
pub open spec fn column_drawn(
    s: Surface,
    maze: Seq<Vec<char>>,
    player: Player,
    textures: Textures,
    trig: TrigTable,
    column: int,
) -> Surface {
    let angle = ray_angle(player, column, s.width);
    let ray = ray_of(player, trig, angle);
    let hit = ray_hit(world_of(s, maze, BLOCK_SIZE as int), ray);
    let facing = trig.spec_cos(ray_offset(player, column, s.width));
    let corrected = corrected_distance(hit.distance as int, facing);
    let blank = s.with_color(Color::spec_white_smoke());
    if hit.distance < 1 || corrected <= 0 {
        blank
    } else {
        let top = wall_top(s.height, corrected);
        let bottom = wall_bottom(s.height, corrected);
        if hit.impact == GOAL {
            strip(blank, column, top, bottom, goal_fill(trig))
        } else {
            let coord = if WallKind::spec_of_symbol(hit.impact) == Some(WallKind::Upright) {
                hit_coord(ray.y, corrected, ray.dy)
            } else {
                hit_coord(ray.x, corrected, ray.dx)
            };
            strip(
                blank,
                column,
                top,
                bottom,
                wall_fill(textures, hit.impact, texture_u(coord), corrected, top, bottom),
            )
        }
    }
}

/// The surface after every second column from `column` on was drawn, on a
/// screen `width` columns wide.
pub open spec fn columns_drawn(
    s: Surface,
    maze: Seq<Vec<char>>,
    player: Player,
    textures: Textures,
    trig: TrigTable,
    column: int,
    width: int,
) -> Surface
    decreases width - column + 2,
{
    if column >= width {
        s
    } else {
        columns_drawn(
            column_drawn(s, maze, player, textures, trig, column),
            maze,
            player,
            textures,
            trig,
            column + 2,
            width,
        )
    }
}

/// Rays at equal angles to either side of the heading have their lengths
/// corrected by the same factor: equal distances give equal corrected
/// distances.
pub proof fn lemma_fisheye_even(trig: TrigTable, distance: int, offset: int)
    requires
        valid_quarter(trig@),
    ensures
        corrected_distance(distance, trig.spec_cos(offset)) == corrected_distance(
            distance,
            trig.spec_cos(-offset),
        ),
{
    lemma_mirror(trig@, offset);
}

/// Two rays at equal angles to either side of the heading that stop at the
/// same steps, as they do at a flat wall across the heading that nothing
/// else hides, have the same corrected distance.
pub proof fn lemma_fisheye_flat_wall(
    world: World,
    player: Player,
    trig: TrigTable,
    offset: int,
)
    requires
        valid_quarter(trig@),
        forall|d: int|
            0 <= d < MAX_DISTANCE ==> (world.stops(
                #[trigger] ray_of(player, trig, player.a + offset).at(d),
            ) <==> world.stops(ray_of(player, trig, player.a - offset).at(d))),
    ensures
        corrected_distance(
            ray_hit(world, ray_of(player, trig, player.a + offset)).distance as int,
            trig.spec_cos(offset),
        ) == corrected_distance(
            ray_hit(world, ray_of(player, trig, player.a - offset)).distance as int,
            trig.spec_cos(-offset),
        ),
{
    lemma_mirror(trig@, offset);
    lemma_mirror_rays(
        world,
        ray_of(player, trig, player.a + offset),
        ray_of(player, trig, player.a - offset),
    );
}

/// The player looks at a flat wall that nothing else hides: the wall lies
/// across the axis `quarters` quarter turns from the positive x axis, and a
/// ray at `offset` from the heading stops exactly where it is at least
/// `gap` ahead of the player.
pub open spec fn faces_flat_wall(
    world: World,
    player: Player,
    trig: TrigTable,
    quarters: int,
    offset: int,
    gap: int,
) -> bool {
    forall|d: int|
        0 <= d < MAX_DISTANCE ==> (world.stops(
            #[trigger] ray_of(player, trig, player.a + offset).at(d),
        ) <==> depth(
            quarters,
            (player.pos.x as int, player.pos.y as int),
            ray_of(player, trig, player.a + offset).at(d),
        ) >= gap)
}

/// A ray at `offset` from a heading along an axis gets ahead along that
/// axis by the cosine of the offset at each step.
pub proof fn lemma_advance_is_facing(player: Player, trig: TrigTable, quarters: int, offset: int)
    requires
        valid_quarter(trig@),
        0 <= quarters < 4,
        player.a as int % (TURN as int) == quarters * QUARTER,
    ensures
        advance(ray_of(player, trig, player.a + offset), quarters) == trig.spec_cos(offset),
        ray_of(player, trig, player.a + offset).at(0) == (player.pos.x as int, player.pos.y as int),
{
    let ray = ray_of(player, trig, player.a + offset);
    let turns = player.a as int / (TURN as int);
    lemma_div_bounds(player.a as int, TURN as int);
    assert(player.a + offset == quarters * QUARTER + offset + turns * TURN);
    lemma_periodic(trig@, quarters * QUARTER + offset, turns);
    lemma_quarter_turns(trig@, quarters, offset);
    assert(0 * ray.dx == 0 && 0 * ray.dy == 0) by (nonlinear_arith);
}

/// The fisheye is removed: for a player who looks along one of the four
/// axes at a flat wall across it that nothing else hides, the corrected
/// distance of a ray is the distance of the player from the wall, whatever
/// the angle of the ray. It exceeds that distance by less than one step of
/// the ray along the axis, and so by less than one world unit.
pub proof fn lemma_fisheye_removed(
    world: World,
    player: Player,
    trig: TrigTable,
    quarters: int,
    offset: int,
    gap: int,
)
    requires
        valid_quarter(trig@),
        0 <= quarters < 4,
        player.a as int % (TURN as int) == quarters * QUARTER,
        trig.spec_cos(offset) > 0,
        0 < gap <= (MAX_DISTANCE - 1) * trig.spec_cos(offset),
        faces_flat_wall(world, player, trig, quarters, offset, gap),
    ensures
        ({
            let hit = ray_hit(world, ray_of(player, trig, player.a + offset));
            let corrected = corrected_distance(hit.distance as int, trig.spec_cos(offset));
            &&& gap <= corrected < gap + trig.spec_cos(offset)
            &&& corrected < gap + ONE
            &&& hit.distance >= 1
        }),
{
    let ray = ray_of(player, trig, player.a + offset);
    lemma_advance_is_facing(player, trig, quarters, offset);
    lemma_sine_range(trig@, offset);
    lemma_flat_wall(world, ray, quarters, gap);
    let d = ray_hit(world, ray).distance as int;
    if d == 0 {
        assert(d * trig.spec_cos(offset) == 0) by (nonlinear_arith)
            requires
                d == 0,
        ;
    }
}

/// At a flat wall across the heading the rays to either side of the heading
/// are corrected to the same distance, and the walls they show stand on the
/// same rows of the screen.
pub proof fn lemma_fisheye_mirrored(
    world: World,
    player: Player,
    trig: TrigTable,
    quarters: int,
    offset: int,
    gap: int,
    height: int,
)
    requires
        valid_quarter(trig@),
        0 <= quarters < 4,
        player.a as int % (TURN as int) == quarters * QUARTER,
        trig.spec_cos(offset) > 0,
        0 < gap <= (MAX_DISTANCE - 1) * trig.spec_cos(offset),
        faces_flat_wall(world, player, trig, quarters, offset, gap),
        faces_flat_wall(world, player, trig, quarters, -offset, gap),
    ensures
        ({
            let left = corrected_distance(
                ray_hit(world, ray_of(player, trig, player.a + (-offset))).distance as int,
                trig.spec_cos(-offset),
            );
            let right = corrected_distance(
                ray_hit(world, ray_of(player, trig, player.a + offset)).distance as int,
                trig.spec_cos(offset),
            );
            &&& left == right
            &&& gap <= right < gap + ONE
            &&& wall_top(height, left) == wall_top(height, right)
            &&& wall_bottom(height, left) == wall_bottom(height, right)
        }),
{
    let near = ray_of(player, trig, player.a + offset);
    let far = ray_of(player, trig, player.a + (-offset));
    lemma_mirror(trig@, offset);
    lemma_advance_is_facing(player, trig, quarters, offset);
    lemma_advance_is_facing(player, trig, quarters, -offset);
    assert forall|d: int| 0 <= d < MAX_DISTANCE implies (world.stops(#[trigger] near.at(d))
        <==> world.stops(far.at(d))) by {
        lemma_depth_of_step(near, quarters, d);
        lemma_depth_of_step(far, quarters, d);
        assert(world.stops(far.at(d)) <==> depth(
            quarters,
            (player.pos.x as int, player.pos.y as int),
            far.at(d),
        ) >= gap);
    }
    lemma_mirror_rays(world, near, far);
    lemma_fisheye_removed(world, player, trig, quarters, offset, gap);
}

/// The columns as far left of the middle of the screen as right of it look
/// equally far to either side of the heading, where the field of view is
/// an even number of ticks and the column's share of it a whole one.
pub proof fn lemma_mirrored_columns(player: Player, column: int, width: int)
    requires
        0 < column < width,
        player.fov as int % 2 == 0,
        (player.fov * column) % width == 0,
    ensures
        ray_offset(player, width - column, width) == -ray_offset(player, column, width),
{
    let fov = player.fov as int;
    let share = (fov * column) / width;
    lemma_div_bounds(fov * column, width);
    lemma_div_bounds(fov, 2);
    assert(fov * (width - column) == (fov - share) * width) by (nonlinear_arith)
        requires
            fov * column == width * share,
    ;
    vstd::arithmetic::div_mod::lemma_fundamental_div_mod_converse(
        fov * (width - column),
        width,
        fov - share,
        0,
    );
}

/// Every sample of the texture is of the colour `color`.
pub open spec fn is_uniform(texture: Seq<Color>, color: Color) -> bool {
    forall|k: int| 0 <= k < texture.len() ==> #[trigger] texture[k] == color
}

/// What a column shows of a flat wall of one colour across the heading: on
/// the rows that the distance of the player from the wall gives it, the
/// colour of the wall dimmed by that distance, whatever the column.
pub proof fn lemma_column_at_flat_wall(
    s: Surface,
    maze: Seq<Vec<char>>,
    player: Player,
    textures: Textures,
    trig: TrigTable,
    quarters: int,
    column: int,
    gap: int,
    color: Color,
    y: int,
)
    requires
        valid_quarter(trig@),
        0 <= quarters < 4,
        player.a as int % (TURN as int) == quarters * QUARTER,
        0 <= column < s.width,
        s.holds(column, y),
        textures.usable(),
        trig.spec_cos(ray_offset(player, column, s.width)) > 0,
        0 < gap <= (MAX_DISTANCE - 1) * trig.spec_cos(ray_offset(player, column, s.width)),
        faces_flat_wall(
            world_of(s, maze, BLOCK_SIZE as int),
            player,
            trig,
            quarters,
            ray_offset(player, column, s.width),
            gap,
        ),
        ray_hit(
            world_of(s, maze, BLOCK_SIZE as int),
            ray_of(player, trig, ray_angle(player, column, s.width)),
        ).impact != GOAL,
        is_uniform(
            textures.wall_texture(
                ray_hit(
                    world_of(s, maze, BLOCK_SIZE as int),
                    ray_of(player, trig, ray_angle(player, column, s.width)),
                ).impact,
            ),
            color,
        ),
    ensures
        ({
            let offset = ray_offset(player, column, s.width);
            let hit = ray_hit(
                world_of(s, maze, BLOCK_SIZE as int),
                ray_of(player, trig, player.a + offset),
            );
            let corrected = corrected_distance(hit.distance as int, trig.spec_cos(offset));
            let after = column_drawn(s, maze, player, textures, trig, column);
            &&& gap <= corrected < gap + ONE
            &&& after.holds(column, y)
            &&& after.pixel(column, y) == if wall_top(s.height, corrected) <= y < wall_bottom(
                s.height,
                corrected,
            ) {
                shade(color, intensity(corrected))
            } else {
                s.pixel(column, y)
            }
        }),
{
    let offset = ray_offset(player, column, s.width);
    let world = world_of(s, maze, BLOCK_SIZE as int);
    let ray = ray_of(player, trig, player.a + offset);
    let hit = ray_hit(world, ray);
    let corrected = corrected_distance(hit.distance as int, trig.spec_cos(offset));
    let blank = s.with_color(Color::spec_white_smoke());
    let top = wall_top(s.height, corrected);
    let bottom = wall_bottom(s.height, corrected);
    lemma_fisheye_removed(world, player, trig, quarters, offset, gap);
    let coord = if WallKind::spec_of_symbol(hit.impact) == Some(WallKind::Upright) {
        hit_coord(ray.y, corrected, ray.dy)
    } else {
        hit_coord(ray.x, corrected, ray.dx)
    };
    let colors = wall_fill(textures, hit.impact, texture_u(coord), corrected, top, bottom);
    assert(column_drawn(s, maze, player, textures, trig, column) == strip(
        blank,
        column,
        top,
        bottom,
        colors,
    ));
    lemma_strip_pixel(blank, column, top, bottom, colors, column, y);
    let texture = textures.wall_texture(hit.impact);
    let size = textures.texture_size as int;
    lemma_texel_in_bounds(
        texture.len() as int,
        size,
        texture_u(coord),
        texture_v(y, top, bottom),
    );
}

/// Mirrored columns show a flat wall alike. Where the player looks along an
/// axis at a flat wall of one colour across it, the columns as far left of
/// the middle of the screen as right of it are filled on the same rows with
/// the same colour, and their corrected distances differ from the
/// distance of the player from the wall by less than one world unit.
pub proof fn lemma_mirrored_columns_drawn(
    s: Surface,
    maze: Seq<Vec<char>>,
    player: Player,
    textures: Textures,
    trig: TrigTable,
    quarters: int,
    column: int,
    gap: int,
    color: Color,
    y: int,
)
    requires
        valid_quarter(trig@),
        0 <= quarters < 4,
        player.a as int % (TURN as int) == quarters * QUARTER,
        0 < column < s.width,
        player.fov as int % 2 == 0,
        (player.fov * column) % s.width == 0,
        s.holds(column, y),
        s.holds(s.width - column, y),
        textures.usable(),
        trig.spec_cos(ray_offset(player, column, s.width)) > 0,
        0 < gap <= (MAX_DISTANCE - 1) * trig.spec_cos(ray_offset(player, column, s.width)),
        faces_flat_wall(
            world_of(s, maze, BLOCK_SIZE as int),
            player,
            trig,
            quarters,
            ray_offset(player, column, s.width),
            gap,
        ),
        faces_flat_wall(
            world_of(s, maze, BLOCK_SIZE as int),
            player,
            trig,
            quarters,
            -ray_offset(player, column, s.width),
            gap,
        ),
        ray_hit(
            world_of(s, maze, BLOCK_SIZE as int),
            ray_of(player, trig, ray_angle(player, column, s.width)),
        ).impact != GOAL,
        ray_hit(
            world_of(s, maze, BLOCK_SIZE as int),
            ray_of(player, trig, ray_angle(player, s.width - column, s.width)),
        ).impact != GOAL,
        is_uniform(
            textures.wall_texture(
                ray_hit(
                    world_of(s, maze, BLOCK_SIZE as int),
                    ray_of(player, trig, ray_angle(player, column, s.width)),
                ).impact,
            ),
            color,
        ),
        is_uniform(
            textures.wall_texture(
                ray_hit(
                    world_of(s, maze, BLOCK_SIZE as int),
                    ray_of(player, trig, ray_angle(player, s.width - column, s.width)),
                ).impact,
            ),
            color,
        ),
    ensures
        ({
            let world = world_of(s, maze, BLOCK_SIZE as int);
            let offset = ray_offset(player, column, s.width);
            let corrected = corrected_distance(
                ray_hit(world, ray_of(player, trig, player.a + offset)).distance as int,
                trig.spec_cos(offset),
            );
            let mirrored = corrected_distance(
                ray_hit(world, ray_of(player, trig, player.a - offset)).distance as int,
                trig.spec_cos(-offset),
            );
            let here = column_drawn(s, maze, player, textures, trig, column);
            let there = column_drawn(s, maze, player, textures, trig, s.width - column);
            let painted = wall_top(s.height, corrected) <= y < wall_bottom(s.height, corrected);
            &&& mirrored == corrected
            &&& gap <= corrected < gap + ONE
            &&& painted ==> here.pixel(column, y) == shade(color, intensity(corrected))
                && there.pixel(s.width - column, y) == shade(color, intensity(corrected))
            &&& !painted ==> here.pixel(column, y) == s.pixel(column, y) && there.pixel(
                s.width - column,
                y,
            ) == s.pixel(s.width - column, y)
        }),
{
    let offset = ray_offset(player, column, s.width);
    lemma_mirrored_columns(player, column, s.width);
    lemma_mirror(trig@, offset);
    lemma_fisheye_mirrored(
        world_of(s, maze, BLOCK_SIZE as int),
        player,
        trig,
        quarters,
        offset,
        gap,
        s.height,
    );
    lemma_column_at_flat_wall(s, maze, player, textures, trig, quarters, column, gap, color, y);
    lemma_column_at_flat_wall(
        s,
        maze,
        player,
        textures,
        trig,
        quarters,
        s.width - column,
        gap,
        color,
        y,
    );
}

/// The farther a wall, the lower it stands on screen: the projected height
/// never grows with the corrected distance.
pub proof fn lemma_wall_height_falls(height: int, nearer: int, farther: int)
    requires
        0 <= height,
        0 < nearer <= farther,
    ensures
        wall_height(height, nearer) >= wall_height(height, farther),
        0 <= wall_height(height, farther) <= height * ONE,
{
    let scaled = height * HALF * PROJECTION * ONE;
    assert(scaled >= 0) by (nonlinear_arith)
        requires
            height >= 0,
            scaled == height * HALF * PROJECTION * ONE,
            HALF == 500_000,
            PROJECTION == 100,
            ONE == 1_000_000,
    ;
    vstd::arithmetic::div_mod::lemma_div_is_ordered_by_denominator(scaled, nearer, farther);
    lemma_div_bounds(scaled, farther);
}

/// The strip of a wall lies on the screen, and never grows with the
/// corrected distance: its first row is not above the top of the screen,
/// its last not below the bottom, and a farther wall begins no higher and
/// ends no lower than a nearer one.
pub proof fn lemma_wall_extent_shrinks(height: int, nearer: int, farther: int)
    requires
        0 <= height,
        0 < nearer <= farther,
    ensures
        0 <= wall_top(height, nearer) <= wall_top(height, farther),
        wall_top(height, farther) <= wall_bottom(height, farther),
        wall_bottom(height, farther) <= wall_bottom(height, nearer) <= height,
{
    lemma_wall_height_falls(height, nearer, farther);
    lemma_wall_height_falls(height, nearer, nearer);
}

/// Texture sampling stays inside the texture: whatever the two fractions,
/// the texel they select lies in the square of the texture, and the sample
/// read for it is a sample of the texture. In a square texture it is the
/// sample at the texel's own row-major place.
pub proof fn lemma_texel_in_bounds(len: int, size: int, u: int, v: int)
    requires
        size >= 1,
        len >= 1,
    ensures
        0 <= texel_of(u, size) < size,
        0 <= texel_of(v, size) < size,
        0 <= sampled_index(len, size, texel_of(u, size), texel_of(v, size)) < len,
        len == size * size ==> sampled_index(len, size, texel_of(u, size), texel_of(v, size))
            == texel_of(v, size) * size + texel_of(u, size),
{
    let x = texel_of(u, size);
    let y = texel_of(v, size);
    lemma_texel_in_square(size, x, y);
}

/// The offset of a column's ray from the heading, as an angle in `0..TURN`.
pub fn column_offset(player: &Player, column: u32, width: u32) -> (offset: i64)
    requires
        column < width,
    ensures
        offset == ray_offset(*player, column as int, width as int) % (TURN as int),
        0 <= offset < TURN,
{
    assert(-0x8000_0000_0000_0000 * 0x1_0000_0000 <= player.fov * column <= 0x8000_0000_0000_0000
        * 0x1_0000_0000) by (nonlinear_arith)
        requires
            -0x8000_0000_0000_0000 <= player.fov <= 0x8000_0000_0000_0000,
            0 <= column <= 0x1_0000_0000,
    ;
    let product: i128 = (player.fov as i128) * (column as i128);
    let sweep = div_floor(product, width as i128);
    let half = div_floor(player.fov as i128, 2);
    proof {
        lemma_div_bounds(product as int, width as int);
        lemma_div_bounds(player.fov as int, 2);
    }
    rem_floor(sweep - half, TURN as i128) as i64
}

/// The rows that a wall at the corrected distance `corrected` takes on a
/// screen `height` rows high: the first, and the one after the last.
pub fn wall_extent(height: u32, corrected: i64) -> (rows: (u32, u32))
    requires
        corrected > 0,
    ensures
        rows.0 == wall_top(height as int, corrected as int),
        rows.1 == wall_bottom(height as int, corrected as int),
        rows.0 <= rows.1 <= height,
{
    let full: i128 = (height as i128) * 1_000_000;
    let middle: i128 = (height as i128) * 500_000;
    let scaled: i128 = middle * 100_000_000;
    let projected: i128 = scaled / (corrected as i128);
    proof {
        lemma_div_bounds(scaled as int, corrected as int);
        assert(height * HALF * PROJECTION * ONE == scaled);
        assert(full == height * ONE && middle == height * HALF);
    }
    let tall = if projected < full {
        projected
    } else {
        full
    };
    let half = tall / 2;
    let from = middle - half;
    let to = middle + half;
    let top = (if from > 0 {
        from
    } else {
        0
    }) / 1_000_000;
    let bottom = (if to < full {
        to
    } else {
        full
    }) / 1_000_000;
    (top as u32, bottom as u32)
}

/// The colour of the goal in a row.
pub fn goal_color_at(trig: &TrigTable, row: u32) -> (color: Color)
    ensures
        color == goal_color(*trig, row as int),
{
    let angle: i64 = ((row as i64) * PULSE_STEP) / 1000;
    let wave = trig.sin(angle);
    let glow: i128 = div_floor(wave as i128, 2) + (HALF as i128);
    let r = (255 * glow) / (ONE as i128);
    let g = (215 * glow) / (ONE as i128);
    Color::new(r as u8, g as u8, 0, 255)
}

/// How far along its cell a world coordinate lies, from zero to just under
/// one.
pub fn cell_fraction(coord: i128) -> (u: i64)
    ensures
        u == texture_u(coord as int),
        0 <= u < ONE,
{
    let within = rem_floor(coord, BLOCK_RAW as i128);
    (within / (BLOCK_SIZE as i128)) as i64
}

/// A part of a whole is a fraction of it from zero to just under one.
proof fn lemma_fraction(part: int, whole: int)
    requires
        0 <= part < whole,
    ensures
        0 <= (part * ONE) / whole < ONE,
{
    lemma_div_bounds(part * ONE, whole);
    assert((part * ONE) / whole < ONE) by (nonlinear_arith)
        requires
            0 <= part < whole,
            0 <= (part * ONE) % whole,
            part * ONE == whole * ((part * ONE) / whole) + (part * ONE) % whole,
    ;
}

/// How far down the strip from `top` to `bottom` a row lies, from zero to
/// just under one.
pub fn row_fraction(row: u32, top: u32, bottom: u32) -> (v: i64)
    requires
        top <= row < bottom,
    ensures
        v == texture_v(row as int, top as int, bottom as int),
        0 <= v < ONE,
{
    let part: u64 = (row - top) as u64;
    let span: u64 = (bottom - top) as u64;
    let gone: u64 = part * 1_000_000;
    proof {
        lemma_fraction(part as int, span as int);
    }
    (gone / span) as i64
}

/// The texel, along one axis of a texture `size` texels wide, at the
/// fraction `fraction` of the way.
pub fn texel_along(fraction: i64, size: usize) -> (texel: usize)
    requires
        size >= 1,
    ensures
        texel == texel_of(fraction as int, size as int),
        texel < size,
{
    assert(-0x8000_0000_0000_0000 * 0xffff_ffff_ffff_ffff <= fraction * size
        <= 0x8000_0000_0000_0000 * 0xffff_ffff_ffff_ffff) by (nonlinear_arith)
        requires
            -0x8000_0000_0000_0000 <= fraction <= 0x8000_0000_0000_0000,
            0 <= size <= 0xffff_ffff_ffff_ffff,
    ;
    let scaled: i128 = (fraction as i128) * (size as i128);
    let t = div_floor(scaled, ONE as i128);
    if t < 0 {
        0
    } else if t < (size - 1) as i128 {
        t as usize
    } else {
        size - 1
    }
}

/// The share of its light that a wall at the corrected distance
/// `corrected` keeps.
pub fn light_kept(corrected: i64) -> (keep: i64)
    requires
        corrected >= 0,
    ensures
        keep == intensity(corrected as int),
        ONE - MAX_FADE <= keep <= ONE,
{
    let fade = corrected / FADE_DISTANCE;
    if fade < MAX_FADE {
        ONE - fade
    } else {
        ONE - MAX_FADE
    }
}

/// A colour with red, green and blue dimmed to `keep`, as opaque as it
/// was.
pub fn shade_color(color: Color, keep: i64) -> (dimmed: Color)
    requires
        0 <= keep <= ONE,
    ensures
        dimmed == shade(color, keep as int),
{
    assert(0 <= color.r * keep <= 255 * ONE && 0 <= color.g * keep <= 255 * ONE && 0 <= color.b
        * keep <= 255 * ONE) by (nonlinear_arith)
        requires
            0 <= keep <= ONE,
            0 <= color.r <= 255,
            0 <= color.g <= 255,
            0 <= color.b <= 255,
    ;
    let r = ((color.r as i64) * keep) / ONE;
    let g = ((color.g as i64) * keep) / ONE;
    let b = ((color.b as i64) * keep) / ONE;
    Color::new(r as u8, g as u8, b as u8, color.a)
}

/// Fills one row of the strip of `column` with `color`.
fn fill_row(framebuffer: &mut Framebuffer, column: u32, row: u32, color: Color)
    requires
        column < old(framebuffer).width,
    ensures
        final(framebuffer)@ == old(framebuffer)@.with_color(color).plot(
            column as int,
            row as int,
        ).plot(column + 1, row as int),
{
    framebuffer.set_current_color(color);
    framebuffer.set_pixel(column, row);
    if column + 1 <= framebuffer.width - 1 {
        framebuffer.set_pixel(column + 1, row);
    }
}

/// Fills the strip of a column that shows the goal.
fn draw_goal_strip(
    framebuffer: &mut Framebuffer,
    trig: &TrigTable,
    column: u32,
    top: u32,
    bottom: u32,
)
    requires
        column < old(framebuffer).width,
        top <= bottom,
    ensures
        final(framebuffer)@ == strip(
            old(framebuffer)@,
            column as int,
            top as int,
            bottom as int,
            goal_fill(*trig),
        ),
        final(framebuffer)@.same_shape(old(framebuffer)@),
{
    let ghost blank = framebuffer@;
    let ghost colors = goal_fill(*trig);
    proof {
        lemma_strip_empty(blank, column as int, top as int, colors);
    }
    let mut row = top;
    while row < bottom
        invariant
            top <= row <= bottom,
            column < framebuffer.width,
            colors == goal_fill(*trig),
            framebuffer@.same_shape(blank),
            framebuffer@ == strip(blank, column as int, top as int, row as int, colors),
        decreases bottom - row,
    {
        let color = goal_color_at(trig, row);
        proof {
            lemma_strip_row(blank, column as int, top as int, row as int, colors);
        }
        fill_row(framebuffer, column, row, color);
        row += 1;
    }
}

/// Fills the strip of a column that shows a textured wall.
fn draw_wall_strip(
    framebuffer: &mut Framebuffer,
    textures: &Textures,
    symbol: char,
    u: i64,
    corrected: i64,
    column: u32,
    top: u32,
    bottom: u32,
)
    requires
        column < old(framebuffer).width,
        top <= bottom,
        textures.usable(),
        0 <= u < ONE,
        corrected >= 0,
    ensures
        final(framebuffer)@ == strip(
            old(framebuffer)@,
            column as int,
            top as int,
            bottom as int,
            wall_fill(*textures, symbol, u as int, corrected as int, top as int, bottom as int),
        ),
        final(framebuffer)@.same_shape(old(framebuffer)@),
{
    let texture = textures.get_wall_texture(symbol);
    let keep = light_kept(corrected);
    let tex_x = texel_along(u, textures.texture_size);
    let ghost blank = framebuffer@;
    let ghost colors = wall_fill(
        *textures,
        symbol,
        u as int,
        corrected as int,
        top as int,
        bottom as int,
    );
    proof {
        lemma_strip_empty(blank, column as int, top as int, colors);
    }
    let mut row = top;
    while row < bottom
        invariant
            top <= row <= bottom,
            column < framebuffer.width,
            textures.usable(),
            texture@ == textures.wall_texture(symbol),
            texture@.len() >= 1,
            keep == intensity(corrected as int),
            0 <= keep <= ONE,
            tex_x == texel_of(u as int, textures.texture_size as int),
            framebuffer@.same_shape(blank),
            colors == wall_fill(
                *textures,
                symbol,
                u as int,
                corrected as int,
                top as int,
                bottom as int,
            ),
            framebuffer@ == strip(blank, column as int, top as int, row as int, colors),
        decreases bottom - row,
    {
        let v = row_fraction(row, top, bottom);
        let tex_y = texel_along(v, textures.texture_size);
        let sample = textures.get_texture_pixel(texture, tex_x, tex_y);
        let color = shade_color(sample, keep);
        proof {
            assert(color == colors(row as int));
            lemma_strip_row(blank, column as int, top as int, row as int, colors);
        }
        fill_row(framebuffer, column, row, color);
        row += 1;
    }
}

/// The world coordinate along which the texture of the wall runs, at the
/// point where the ray met the wall.
fn wall_coord(
    player: &Player,
    trig: &TrigTable,
    angle: i64,
    corrected: i64,
    symbol: char,
) -> (coord: i128)
    requires
        0 <= corrected <= 1000 * ONE,
    ensures
        coord == if WallKind::spec_of_symbol(symbol) == Some(WallKind::Upright) {
            hit_coord(player.pos.y as int, corrected as int, trig.spec_sin(angle as int))
        } else {
            hit_coord(player.pos.x as int, corrected as int, trig.spec_cos(angle as int))
        },
{
    let upright = match WallKind::of_symbol(symbol) {
        Some(kind) => kind.runs_along_y(),
        None => false,
    };
    let (origin, step) = if upright {
        (player.pos.y, trig.sin(angle))
    } else {
        (player.pos.x, trig.cos(angle))
    };
    assert(-1000 * ONE * ONE <= corrected * step <= 1000 * ONE * ONE) by (nonlinear_arith)
        requires
            0 <= corrected <= 1000 * ONE,
            -ONE <= step <= ONE,
    ;
    let along = div_floor((corrected as i128) * (step as i128), ONE as i128);
    proof {
        lemma_div_bounds(corrected * step, ONE as int);
    }
    origin as i128 + along
}

/// The ray of a column: its offset from the heading and its angle, both as
/// angles in `0..TURN`.
fn aim(player: &Player, trig: &TrigTable, column: u32, width: u32) -> (ray: (i64, i64))
    requires
        column < width,
    ensures
        0 <= ray.0 < TURN,
        0 <= ray.1 < TURN,
        trig.spec_cos(ray.0 as int) == trig.spec_cos(
            ray_offset(*player, column as int, width as int),
        ),
        ray_of(*player, *trig, ray.1 as int) == ray_of(
            *player,
            *trig,
            ray_angle(*player, column as int, width as int),
        ),
{
    let offset = column_offset(player, column, width);
    let angle = rem_floor(player.a as i128 + offset as i128, TURN as i128) as i64;
    proof {
        let exact_offset = ray_offset(*player, column as int, width as int);
        let exact_angle = ray_angle(*player, column as int, width as int);
        lemma_normalized(trig@, exact_offset);
        lemma_normalized(trig@, exact_angle);
        vstd::arithmetic::div_mod::lemma_add_mod_noop_right(
            player.a as int,
            exact_offset,
            TURN as int,
        );
        assert(angle == exact_angle % (TURN as int));
    }
    (offset, angle)
}

/// Draws one sampled column: casts its ray and fills its strip.
pub fn draw_column(
    framebuffer: &mut Framebuffer,
    player: &Player,
    maze: &Vec<Vec<char>>,
    textures: &Textures,
    trig: &TrigTable,
    column: u32,
)
    requires
        column < old(framebuffer).width,
        is_rectangular(maze@),
        textures.usable(),
    ensures
        final(framebuffer)@ == column_drawn(
            old(framebuffer)@,
            maze@,
            *player,
            *textures,
            *trig,
            column as int,
        ),
        final(framebuffer)@.same_shape(old(framebuffer)@),
        old(framebuffer)@.wf() ==> final(framebuffer)@.wf(),
{
    let height = framebuffer.height;
    let (offset, angle) = aim(player, trig, column, framebuffer.width);
    let hit = cast_ray(framebuffer, maze, player, angle, BLOCK_SIZE, false, trig);
    if hit.distance < 1 {
        return ;
    }
    let facing = trig.cos(offset);
    assert(-1000 * ONE <= hit.distance * facing <= 1000 * ONE) by (nonlinear_arith)
        requires
            0 <= hit.distance <= 1000,
            -ONE <= facing <= ONE,
    ;
    let corrected: i64 = (hit.distance as i64) * facing;
    if corrected <= 0 {
        return ;
    }
    let (top, bottom) = wall_extent(height, corrected);
    if hit.impact == GOAL {
        draw_goal_strip(framebuffer, trig, column, top, bottom);
    } else {
        let coord = wall_coord(player, trig, angle, corrected, hit.impact);
        let u = cell_fraction(coord);
        draw_wall_strip(framebuffer, textures, hit.impact, u, corrected, column, top, bottom);
    }
}

/// Draws the first-person view of the maze onto the framebuffer.
///
/// Every second column is sampled, from the left edge on; its strip covers
/// the column and its right-hand neighbour.
pub fn render3d(
    framebuffer: &mut Framebuffer,
    player: &Player,
    maze: &Vec<Vec<char>>,
    textures: &Textures,
    trig: &TrigTable,
)
    requires
        is_rectangular(maze@),
        textures.usable(),
    ensures
        final(framebuffer)@ == columns_drawn(
            old(framebuffer)@,
            maze@,
            *player,
            *textures,
            *trig,
            0,
            old(framebuffer).width as int,
        ),
        final(framebuffer)@.same_shape(old(framebuffer)@),
        old(framebuffer)@.wf() ==> final(framebuffer)@.wf(),
{
    let num_rays = framebuffer.width;
    let mut i: u64 = 0;
    while i < num_rays as u64
        invariant
            i <= num_rays + 1,
            framebuffer.width == num_rays,
            num_rays == old(framebuffer).width,
            framebuffer@.same_shape(old(framebuffer)@),
            old(framebuffer)@.wf() ==> framebuffer@.wf(),
            is_rectangular(maze@),
            textures.usable(),
            columns_drawn(old(framebuffer)@, maze@, *player, *textures, *trig, 0, num_rays as int)
                == columns_drawn(
                framebuffer@,
                maze@,
                *player,
                *textures,
                *trig,
                i as int,
                num_rays as int,
            ),
        decreases num_rays + 2 - i,
    {
        draw_column(framebuffer, player, maze, textures, trig, i as u32);
        i += 2;
    }
}

} // verus!
