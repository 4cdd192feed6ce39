//! The minimap projector: the maze seen from above, in a small square of
//! the screen.
//!
//! World coordinates are divided by the scale of the minimap and moved so
//! that the maze sits in the middle of the square. Walls are drawn as small
//! squares, the field of view as two lines from the player, the player as a
//! disc with a short line along the heading, and the whole is framed.

use vstd::prelude::*;
use crate::color::Color;
use crate::fixed::{div_floor, lemma_div_bounds, pixel_of, rem_floor, to_pixel, ONE};
use crate::framebuffer::{disc_region, lemma_paint_pixel, rect_region, Framebuffer, Line, Surface};
use crate::maze::{grid_cols, is_rectangular, rectangular, WallKind};
use crate::player::Player;
use crate::trig::{lemma_normalized, TrigTable, TURN};

verus! {

/// The length of the two lines that mark the field of view, in pixels.
pub const CONE_LENGTH: i64 = 50;

/// The length of the line that marks the heading, in pixels.
pub const HEADING_LENGTH: i64 = 15;

/// The radius of the disc that marks the player, in pixels.
pub const PLAYER_RADIUS: i32 = 4;

/// The least side of the square of a wall cell, in pixels.
pub const MIN_CELL_SIDE: i32 = 2;

/// The minimap transform: a square of the screen, `size` pixels wide, with
/// its corner at `(offset_x, offset_y)`, that shows the world `scale` times
/// smaller. The scale is a fixed-point number.
pub struct Minimap {
    pub size: u32,
    pub offset_x: u32,
    pub offset_y: u32,
    pub scale: i64,
}

/// The colour of the minimap's background: black, partly transparent.
pub open spec fn backdrop_color() -> Color {
    Color::spec_new(0, 0, 0, 180)
}

/// The colour of the lines that mark the field of view: yellow, mostly
/// transparent.
pub open spec fn cone_color() -> Color {
    Color::spec_new(255, 255, 0, 100)
}

impl Minimap {
    /// The scale is positive, and the square with its frame has pixel
    /// coordinates that fit in `i32`.
    pub open spec fn wf(&self) -> bool {
        &&& self.scale > 0
        &&& self.offset_x + self.size + 2 <= i32::MAX
        &&& self.offset_y + self.size + 2 <= i32::MAX
    }

    /// The minimap of the game: 210 pixels wide, 20 pixels from the left
    /// and the top of the screen, at a scale of 3.2 world units per pixel.
    pub fn new(screen_width: u32, screen_height: u32) -> (minimap: Minimap)
        ensures
            minimap.wf(),
            minimap.size == 210,
            minimap.offset_x == 20,
            minimap.offset_y == 20,
            minimap.scale == 3_200_000,
    {
        Minimap { size: 210, offset_x: 20, offset_y: 20, scale: 3_200_000 }
    }

    /// Whether the minimap is well formed; see [`Minimap::wf`].
    pub fn valid(&self) -> (ok: bool)
        ensures
            ok == self.wf(),
    {
        self.scale > 0 && self.offset_x as u64 + self.size as u64 + 2 <= i32::MAX as u64
            && self.offset_y as u64 + self.size as u64 + 2 <= i32::MAX as u64
    }

    /// Whether the maze can be shown; see [`Minimap::shows`].
    pub fn can_show(maze: &Vec<Vec<char>>, block_size: usize) -> (ok: bool)
        ensures
            ok == Self::shows(maze@, block_size as int),
    {
        if maze.len() == 0 || !rectangular(maze) {
            return false;
        }
        let rows = maze.len();
        let cols = maze[0].len();
        assert(0 <= cols * block_size <= usize::MAX * usize::MAX && 0 <= rows * block_size
            <= usize::MAX * usize::MAX) by (nonlinear_arith)
            requires
                0 <= cols <= usize::MAX,
                0 <= rows <= usize::MAX,
                0 <= block_size <= usize::MAX,
        ;
        assert(usize::MAX * usize::MAX <= u128::MAX) by (nonlinear_arith)
            requires
                usize::MAX <= u64::MAX,
        ;
        (cols as u128) * (block_size as u128) <= usize::MAX as u128 && (rows as u128) * (
        block_size as u128) <= usize::MAX as u128
    }

    /// A length of the world, as a length on the minimap. Both are raw
    /// fixed-point values.
    pub open spec fn scaled(&self, world: int) -> int {
        (world * ONE) / (self.scale as int)
    }

    /// How far the maze is moved to sit in the middle of the square, along
    /// an axis on which it is `extent` world units long.
    pub open spec fn center_offset(&self, extent: int) -> int {
        (self.size * ONE - self.scaled(extent * ONE)) / 2
    }

    /// The minimap coordinate of the world coordinate `world`, along an
    /// axis on which the square begins at `offset` and the maze is `extent`
    /// world units long. The world coordinate and the result are raw
    /// fixed-point values.
    pub open spec fn project(&self, offset: int, extent: int, world: int) -> int {
        offset * ONE + self.center_offset(extent) + self.scaled(world)
    }

    /// The pixel `(x, y)` lies in the square of the minimap.
    pub open spec fn contains(&self, x: int, y: int) -> bool {
        &&& self.offset_x <= x < self.offset_x + self.size
        &&& self.offset_y <= y < self.offset_y + self.size
    }

    /// The side of the square of a wall cell, in pixels.
    pub open spec fn cell_side(&self, block_size: int) -> int {
        let side = pixel_of(self.scaled(block_size * ONE));
        if side > MIN_CELL_SIDE {
            side
        } else {
            MIN_CELL_SIDE as int
        }
    }

    /// The corner of the square of the cell in column `col` of row `row`.
    pub open spec fn cell_corner(
        &self,
        maze: Seq<Vec<char>>,
        block_size: int,
        col: int,
        row: int,
    ) -> (int, int) {
        (
            pixel_of(
                self.project(
                    self.offset_x as int,
                    grid_cols(maze) * block_size,
                    col * block_size * ONE,
                ),
            ),
            pixel_of(
                self.project(
                    self.offset_y as int,
                    maze.len() * block_size,
                    row * block_size * ONE,
                ),
            ),
        )
    }

    /// The surface after the background of the minimap was filled.
    pub open spec fn background_drawn(&self, s: Surface) -> Surface {
        s.with_color(backdrop_color()).paint(
            rect_region(
                self.offset_x as int,
                self.offset_y as int,
                self.size as int,
                self.size as int,
            ),
        )
    }

    /// The surface after one cell of the maze was drawn: a square in the
    /// colour of its kind of wall. A cell that rays pass through is not
    /// drawn, nor one whose corner falls outside the minimap.
    pub open spec fn cell_drawn(
        &self,
        s: Surface,
        maze: Seq<Vec<char>>,
        block_size: int,
        col: int,
        row: int,
    ) -> Surface {
        let corner = self.cell_corner(maze, block_size, col, row);
        let side = self.cell_side(block_size);
        match WallKind::spec_of_symbol(maze[row]@[col]) {
            Some(kind) => if self.contains(corner.0, corner.1) {
                s.with_color(kind.spec_minimap_color()).paint(
                    rect_region(corner.0, corner.1, side, side),
                )
            } else {
                s
            },
            None => s,
        }
    }

    /// The cell in column `col` of row `row` is drawn: it is a wall of some
    /// kind and its corner falls inside the minimap.
    pub open spec fn draws_cell(
        &self,
        maze: Seq<Vec<char>>,
        block_size: int,
        col: int,
        row: int,
    ) -> bool {
        let corner = self.cell_corner(maze, block_size, col, row);
        WallKind::spec_of_symbol(maze[row]@[col]).is_some() && self.contains(corner.0, corner.1)
    }

    /// The square of the cell in column `col` of row `row`.
    pub open spec fn cell_square(
        &self,
        maze: Seq<Vec<char>>,
        block_size: int,
        col: int,
        row: int,
    ) -> Set<(int, int)> {
        let corner = self.cell_corner(maze, block_size, col, row);
        let side = self.cell_side(block_size);
        rect_region(corner.0, corner.1, side, side)
    }

    /// Drawing a cell draws its square or nothing. A cell is drawn if and
    /// only if it is a wall of some kind and its corner falls inside the
    /// minimap; its square, at least two pixels wide, then has its corner
    /// and so at least that point inside the minimap, and is filled with
    /// the colour of the kind of wall. Every other cell is skipped, and
    /// the surface stays as it is. The surface keeps its shape, and a point
    /// of it changes its sample only if it lies in the square of a cell
    /// that is drawn: what falls off the surface is dropped, never written
    /// elsewhere.
    pub proof fn lemma_cell_confined(
        &self,
        s: Surface,
        maze: Seq<Vec<char>>,
        block_size: int,
        col: int,
        row: int,
        x: int,
        y: int,
    )
        requires
            s.holds(x, y),
        ensures
            ({
                let after = self.cell_drawn(s, maze, block_size, col, row);
                let corner = self.cell_corner(maze, block_size, col, row);
                let square = self.cell_square(maze, block_size, col, row);
                &&& after.same_shape(s)
                &&& after.holds(x, y)
                &&& !self.draws_cell(maze, block_size, col, row) ==> after == s
                &&& self.draws_cell(maze, block_size, col, row) ==> {
                    &&& self.cell_side(block_size) >= MIN_CELL_SIDE
                    &&& square.contains(corner)
                    &&& self.contains(corner.0, corner.1)
                    &&& square.contains((x, y)) ==> after.pixel(x, y) == WallKind::spec_of_symbol(
                        maze[row]@[col],
                    ).unwrap().spec_minimap_color()
                }
                &&& after.pixel(x, y) != s.pixel(x, y) ==> {
                    &&& self.draws_cell(maze, block_size, col, row)
                    &&& square.contains((x, y))
                }
            }),
    {
        let corner = self.cell_corner(maze, block_size, col, row);
        let side = self.cell_side(block_size);
        match WallKind::spec_of_symbol(maze[row]@[col]) {
            Some(kind) => {
                lemma_paint_pixel(
                    s.with_color(kind.spec_minimap_color()),
                    rect_region(corner.0, corner.1, side, side),
                    x,
                    y,
                );
            },
            None => {},
        }
    }

    /// The point `(x, y)` lies in the square of a cell that is drawn, among
    /// the first `cols` cells of row `row`.
    pub open spec fn row_covers(
        &self,
        maze: Seq<Vec<char>>,
        block_size: int,
        row: int,
        cols: int,
        x: int,
        y: int,
    ) -> bool {
        exists|col: int|
            0 <= col < cols && #[trigger] self.draws_cell(maze, block_size, col, row)
                && self.cell_square(maze, block_size, col, row).contains((x, y))
    }

    /// The point `(x, y)` lies in the square of a cell that is drawn, in
    /// one of the first `rows` rows of the maze.
    pub open spec fn maze_covers(
        &self,
        maze: Seq<Vec<char>>,
        block_size: int,
        rows: int,
        x: int,
        y: int,
    ) -> bool {
        exists|row: int|
            0 <= row < rows && #[trigger] self.row_covers(
                maze,
                block_size,
                row,
                maze[row]@.len() as int,
                x,
                y,
            )
    }

    /// Drawing the cells of a row keeps to the squares of the cells that
    /// are drawn: the surface keeps its shape, and a point of it changes
    /// its sample only if it lies in one of those squares.
    pub proof fn lemma_row_confined(
        &self,
        s: Surface,
        maze: Seq<Vec<char>>,
        block_size: int,
        row: int,
        cols: int,
        x: int,
        y: int,
    )
        requires
            s.holds(x, y),
        ensures
            self.row_drawn(s, maze, block_size, row, cols).same_shape(s),
            self.row_drawn(s, maze, block_size, row, cols).holds(x, y),
            self.row_drawn(s, maze, block_size, row, cols).pixel(x, y) != s.pixel(x, y)
                ==> self.row_covers(maze, block_size, row, cols, x, y),
        decreases cols,
    {
        if cols > 0 {
            let before = self.row_drawn(s, maze, block_size, row, cols - 1);
            self.lemma_row_confined(s, maze, block_size, row, cols - 1, x, y);
            self.lemma_cell_confined(before, maze, block_size, cols - 1, row, x, y);
            let after = self.row_drawn(s, maze, block_size, row, cols);
            if after.pixel(x, y) != s.pixel(x, y) {
                if before.pixel(x, y) != s.pixel(x, y) {
                    let col = choose|col: int|
                        0 <= col < cols - 1 && #[trigger] self.draws_cell(
                            maze,
                            block_size,
                            col,
                            row,
                        ) && self.cell_square(maze, block_size, col, row).contains((x, y));
                    assert(self.draws_cell(maze, block_size, col, row));
                } else {
                    assert(self.draws_cell(maze, block_size, cols - 1, row));
                }
            }
        }
    }

    /// Drawing the walls of the maze keeps to the squares of the cells that
    /// are drawn: the surface keeps its shape, and a point of it changes
    /// its sample only if it lies in the square of a wall cell whose corner
    /// falls inside the minimap.
    pub proof fn lemma_maze_confined(
        &self,
        s: Surface,
        maze: Seq<Vec<char>>,
        block_size: int,
        rows: int,
        x: int,
        y: int,
    )
        requires
            s.holds(x, y),
        ensures
            self.maze_drawn(s, maze, block_size, rows).same_shape(s),
            self.maze_drawn(s, maze, block_size, rows).holds(x, y),
            self.maze_drawn(s, maze, block_size, rows).pixel(x, y) != s.pixel(x, y)
                ==> self.maze_covers(maze, block_size, rows, x, y),
        decreases rows,
    {
        if rows > 0 {
            let before = self.maze_drawn(s, maze, block_size, rows - 1);
            let cols = maze[rows - 1]@.len() as int;
            self.lemma_maze_confined(s, maze, block_size, rows - 1, x, y);
            self.lemma_row_confined(before, maze, block_size, rows - 1, cols, x, y);
            let after = self.maze_drawn(s, maze, block_size, rows);
            if after.pixel(x, y) != s.pixel(x, y) {
                if before.pixel(x, y) != s.pixel(x, y) {
                    let row = choose|row: int|
                        0 <= row < rows - 1 && #[trigger] self.row_covers(
                            maze,
                            block_size,
                            row,
                            maze[row]@.len() as int,
                            x,
                            y,
                        );
                    assert(self.row_covers(maze, block_size, row, maze[row]@.len() as int, x, y));
                } else {
                    assert(self.row_covers(maze, block_size, rows - 1, cols, x, y));
                }
            }
        }
    }

    /// The surface after the first `cols` cells of row `row` were drawn.
    pub open spec fn row_drawn(
        &self,
        s: Surface,
        maze: Seq<Vec<char>>,
        block_size: int,
        row: int,
        cols: int,
    ) -> Surface
        decreases cols,
    {
        if cols <= 0 {
            s
        } else {
            self.cell_drawn(
                self.row_drawn(s, maze, block_size, row, cols - 1),
                maze,
                block_size,
                cols - 1,
                row,
            )
        }
    }

    /// The surface after the first `rows` rows of the maze were drawn.
    pub open spec fn maze_drawn(
        &self,
        s: Surface,
        maze: Seq<Vec<char>>,
        block_size: int,
        rows: int,
    ) -> Surface
        decreases rows,
    {
        if rows <= 0 {
            s
        } else {
            self.row_drawn(
                self.maze_drawn(s, maze, block_size, rows - 1),
                maze,
                block_size,
                rows - 1,
                maze[rows - 1]@.len() as int,
            )
        }
    }

    /// Where the player stands on the minimap, as raw fixed-point
    /// coordinates.
    pub open spec fn player_at(&self, player: Player, maze: Seq<Vec<char>>, block_size: int) -> (
        int,
        int,
    ) {
        (
            self.project(self.offset_x as int, grid_cols(maze) * block_size, player.pos.x as int),
            self.project(self.offset_y as int, maze.len() * block_size, player.pos.y as int),
        )
    }

    /// The line of `length` pixels from the minimap point `from`, given in
    /// raw fixed-point coordinates, along `angle`.
    pub open spec fn spoke(from: (int, int), length: int, angle: int, trig: TrigTable) -> Line {
        Line {
            x0: pixel_of(from.0),
            y0: pixel_of(from.1),
            x1: pixel_of(from.0 + length * trig.spec_cos(angle)),
            y1: pixel_of(from.1 + length * trig.spec_sin(angle)),
        }
    }

    /// The surface after the two edges of the field of view were drawn: two
    /// lines from where the player stands. A player who stands outside the
    /// minimap has no field of view drawn.
    pub open spec fn cone_drawn(
        &self,
        s: Surface,
        player: Player,
        maze: Seq<Vec<char>>,
        block_size: int,
        trig: TrigTable,
    ) -> Surface {
        let at = self.player_at(player, maze, block_size);
        let half = player.fov / 2;
        if self.contains(pixel_of(at.0), pixel_of(at.1)) {
            s.with_color(cone_color()).paint(
                Self::spoke(at, CONE_LENGTH as int, player.a - half, trig).region(),
            ).paint(Self::spoke(at, CONE_LENGTH as int, player.a + half, trig).region())
        } else {
            s
        }
    }

    /// The surface after the player was drawn: a red disc and a white line
    /// along the heading. A player who stands outside the minimap is not
    /// drawn.
    pub open spec fn player_drawn(
        &self,
        s: Surface,
        player: Player,
        maze: Seq<Vec<char>>,
        block_size: int,
        trig: TrigTable,
    ) -> Surface {
        let at = self.player_at(player, maze, block_size);
        let x = pixel_of(at.0);
        let y = pixel_of(at.1);
        if self.contains(x, y) {
            s.with_color(Color::spec_red()).paint(
                disc_region(x, y, PLAYER_RADIUS as int),
            ).with_color(Color::spec_white()).paint(
                Self::spoke(
                    (x * ONE, y * ONE),
                    HEADING_LENGTH as int,
                    player.a as int,
                    trig,
                ).region(),
            )
        } else {
            s
        }
    }

    /// The surface after the frame was drawn: four white bars, two pixels
    /// thick, on the edges of the square.
    pub open spec fn border_drawn(&self, s: Surface) -> Surface {
        let left = self.offset_x - 1;
        let top = self.offset_y - 1;
        let long = self.size + 2;
        s.with_color(Color::spec_white()).paint(rect_region(left, top, long, 2)).paint(
            rect_region(left, top + self.size, long, 2),
        ).paint(rect_region(left, top, 2, long)).paint(rect_region(left + self.size, top, 2, long))
    }

    /// The surface after the whole minimap was drawn.
    pub open spec fn rendered(
        &self,
        s: Surface,
        player: Player,
        maze: Seq<Vec<char>>,
        block_size: int,
        trig: TrigTable,
    ) -> Surface {
        let walls = self.maze_drawn(
            self.background_drawn(s),
            maze,
            block_size,
            maze.len() as int,
        );
        let cone = self.cone_drawn(walls, player, maze, block_size, trig);
        self.border_drawn(self.player_drawn(cone, player, maze, block_size, trig))
    }

    /// The maze can be shown: it has a row, all rows are as long as the
    /// first, and its extent in world units fits in `usize`.
    pub open spec fn shows(maze: Seq<Vec<char>>, block_size: int) -> bool {
        &&& maze.len() > 0
        &&& is_rectangular(maze)
        &&& grid_cols(maze) * block_size <= usize::MAX
        &&& maze.len() * block_size <= usize::MAX
    }

    /// The minimap coordinate of a world coordinate; see
    /// [`Minimap::project`].
    fn place(&self, offset: u32, extent: usize, world: i128) -> (at: i128)
        requires
            self.wf(),
            -0x1_0000_0000_0000_0000 * ONE <= world <= 0x1_0000_0000_0000_0000 * ONE,
        ensures
            at == self.project(offset as int, extent as int, world as int),
            -0x1_0000_0000_0000_0000 * ONE * ONE * 2 <= at <= 0x1_0000_0000_0000_0000 * ONE * ONE
                * 2,
    {
        let long: i128 = (extent as i128) * (ONE as i128) * (ONE as i128);
        let long_scaled = div_floor(long, self.scale as i128);
        let center = div_floor((self.size as i128) * (ONE as i128) - long_scaled, 2);
        let world_scaled = div_floor(world * (ONE as i128), self.scale as i128);
        proof {
            lemma_div_bounds(long as int, self.scale as int);
            lemma_div_bounds(world * ONE, self.scale as int);
            lemma_div_bounds(self.size * ONE - long_scaled, 2);
            assert(extent * ONE * ONE == long);
        }
        (offset as i128) * (ONE as i128) + center + world_scaled
    }

    /// Whether the pixel `(x, y)` lies in the square of the minimap.
    pub fn is_in_minimap_bounds(&self, x: i32, y: i32) -> (inside: bool)
        requires
            self.wf(),
        ensures
            inside == self.contains(x as int, y as int),
    {
        x >= self.offset_x as i32 && x < (self.offset_x + self.size) as i32 && y
            >= self.offset_y as i32 && y < (self.offset_y + self.size) as i32
    }

    /// Fills the square of the minimap with its background.
    pub fn draw_background(&self, framebuffer: &mut Framebuffer)
        requires
            self.wf(),
        ensures
            final(framebuffer)@ == self.background_drawn(old(framebuffer)@),
    {
        framebuffer.set_current_color(Color::new(0, 0, 0, 180));
        framebuffer.draw_rectangle(
            self.offset_x as i32,
            self.offset_y as i32,
            self.size as i32,
            self.size as i32,
        );
    }

    /// Draws the walls of the maze, cell by cell and row by row: a square
    /// for every wall cell whose corner falls inside the minimap, nothing
    /// for any other cell.
    #[verifier::loop_isolation(false)]
    pub fn draw_maze(&self, framebuffer: &mut Framebuffer, maze: &Vec<Vec<char>>, block_size: usize)
        requires
            self.wf(),
            Self::shows(maze@, block_size as int),
        ensures
            final(framebuffer)@ == self.maze_drawn(
                old(framebuffer)@,
                maze@,
                block_size as int,
                maze@.len() as int,
            ),
            final(framebuffer)@.same_shape(old(framebuffer)@),
    {
        let rows = maze.len();
        let cols = maze[0].len();
        let maze_width = cols * block_size;
        let maze_height = rows * block_size;
        let side_wide = div_floor(
            (block_size as i128) * (ONE as i128) * (ONE as i128),
            self.scale as i128,
        );
        let side_pixels = to_pixel(side_wide);
        let cell_size = if side_pixels > MIN_CELL_SIDE {
            side_pixels
        } else {
            MIN_CELL_SIDE
        };
        assert(cell_size == self.cell_side(block_size as int));
        let mut row: usize = 0;
        while row < rows
            invariant
                0 <= row <= rows,
                framebuffer@.same_shape(old(framebuffer)@),
                framebuffer@ == self.maze_drawn(
                    old(framebuffer)@,
                    maze@,
                    block_size as int,
                    row as int,
                ),
            decreases rows - row,
        {
            let ghost before = framebuffer@;
            let mut col: usize = 0;
            while col < cols
                invariant
                    0 <= col <= cols,
                    row < rows,
                    framebuffer@.same_shape(old(framebuffer)@),
                    framebuffer@ == self.row_drawn(
                        before,
                        maze@,
                        block_size as int,
                        row as int,
                        col as int,
                    ),
                decreases cols - col,
            {
                let cell = maze[row][col];
                match WallKind::of_symbol(cell) {
                    Some(kind) => {
                        assert(col * block_size <= cols * block_size && row * block_size <= rows
                            * block_size && 0 <= col * block_size && 0 <= row * block_size)
                            by (nonlinear_arith)
                            requires
                                0 <= col <= cols,
                                0 <= row <= rows,
                                0 <= block_size,
                        ;
                        let world_x: i128 = ((col * block_size) as i128) * (ONE as i128);
                        let world_y: i128 = ((row * block_size) as i128) * (ONE as i128);
                        let minimap_x = to_pixel(self.place(self.offset_x, maze_width, world_x));
                        let minimap_y = to_pixel(self.place(self.offset_y, maze_height, world_y));
                        assert((minimap_x as int, minimap_y as int) == self.cell_corner(
                            maze@,
                            block_size as int,
                            col as int,
                            row as int,
                        ));
                        if self.is_in_minimap_bounds(minimap_x, minimap_y) {
                            framebuffer.set_current_color(kind.minimap_color());
                            framebuffer.draw_rectangle(minimap_x, minimap_y, cell_size, cell_size);
                        }
                    },
                    None => {},
                }
                col += 1;
            }
            row += 1;
        }
    }

    /// Draws the line of `length` pixels from the minimap point
    /// `(from_x, from_y)` along `angle`; see [`Minimap::spoke`].
    fn draw_spoke(
        framebuffer: &mut Framebuffer,
        from_x: i128,
        from_y: i128,
        length: i64,
        angle: i128,
        trig: &TrigTable,
    )
        requires
            0 <= length <= 1000,
            -0x1_0000_0000_0000_0000 * ONE * ONE * 2 <= from_x <= 0x1_0000_0000_0000_0000 * ONE
                * ONE * 2,
            -0x1_0000_0000_0000_0000 * ONE * ONE * 2 <= from_y <= 0x1_0000_0000_0000_0000 * ONE
                * ONE * 2,
        ensures
            final(framebuffer)@ == old(framebuffer)@.paint(
                Self::spoke(
                    (from_x as int, from_y as int),
                    length as int,
                    angle as int,
                    *trig,
                ).region(),
            ),
    {
        let turned = rem_floor(angle, TURN as i128) as i64;
        let run = trig.cos(turned);
        let rise = trig.sin(turned);
        proof {
            lemma_normalized(trig@, angle as int);
            assert(-1000 * ONE <= length * run <= 1000 * ONE && -1000 * ONE <= length * rise
                <= 1000 * ONE) by (nonlinear_arith)
                requires
                    0 <= length <= 1000,
                    -ONE <= run <= ONE,
                    -ONE <= rise <= ONE,
            ;
        }
        let to_x = from_x + (length as i128) * (run as i128);
        let to_y = from_y + (length as i128) * (rise as i128);
        framebuffer.draw_line(to_pixel(from_x), to_pixel(from_y), to_pixel(to_x), to_pixel(to_y));
    }

    /// Draws the two edges of the player's field of view.
    pub fn draw_fov_cone(
        &self,
        framebuffer: &mut Framebuffer,
        player: &Player,
        maze: &Vec<Vec<char>>,
        block_size: usize,
        trig: &TrigTable,
    )
        requires
            self.wf(),
            Self::shows(maze@, block_size as int),
        ensures
            final(framebuffer)@ == self.cone_drawn(
                old(framebuffer)@,
                *player,
                maze@,
                block_size as int,
                *trig,
            ),
    {
        let maze_width = maze[0].len() * block_size;
        let maze_height = maze.len() * block_size;
        let at_x = self.place(self.offset_x, maze_width, player.pos.x as i128);
        let at_y = self.place(self.offset_y, maze_height, player.pos.y as i128);
        if !self.is_in_minimap_bounds(to_pixel(at_x), to_pixel(at_y)) {
            return ;
        }
        let half_fov = div_floor(player.fov as i128, 2);
        proof {
            lemma_div_bounds(player.fov as int, 2);
        }
        framebuffer.set_current_color(Color::new(255, 255, 0, 100));
        Self::draw_spoke(framebuffer, at_x, at_y, CONE_LENGTH, player.a as i128 - half_fov, trig);
        Self::draw_spoke(framebuffer, at_x, at_y, CONE_LENGTH, player.a as i128 + half_fov, trig);
    }

    /// Draws the player: a disc, and a line along the heading.
    pub fn draw_player(
        &self,
        framebuffer: &mut Framebuffer,
        player: &Player,
        maze: &Vec<Vec<char>>,
        block_size: usize,
        trig: &TrigTable,
    )
        requires
            self.wf(),
            Self::shows(maze@, block_size as int),
        ensures
            final(framebuffer)@ == self.player_drawn(
                old(framebuffer)@,
                *player,
                maze@,
                block_size as int,
                *trig,
            ),
    {
        let maze_width = maze[0].len() * block_size;
        let maze_height = maze.len() * block_size;
        let x = to_pixel(self.place(self.offset_x, maze_width, player.pos.x as i128));
        let y = to_pixel(self.place(self.offset_y, maze_height, player.pos.y as i128));
        if self.is_in_minimap_bounds(x, y) {
            framebuffer.set_current_color(Color::red());
            framebuffer.draw_circle(x, y, PLAYER_RADIUS);
            framebuffer.set_current_color(Color::white());
            Self::draw_spoke(
                framebuffer,
                (x as i128) * (ONE as i128),
                (y as i128) * (ONE as i128),
                HEADING_LENGTH,
                player.a as i128,
                trig,
            );
        }
    }

    /// Draws the frame of the minimap.
    pub fn draw_border(&self, framebuffer: &mut Framebuffer)
        requires
            self.wf(),
        ensures
            final(framebuffer)@ == self.border_drawn(old(framebuffer)@),
    {
        framebuffer.set_current_color(Color::white());
        let left = self.offset_x as i32 - 1;
        let top = self.offset_y as i32 - 1;
        let long = self.size as i32 + 2;
        framebuffer.draw_rectangle(left, top, long, 2);
        framebuffer.draw_rectangle(left, (self.offset_y + self.size) as i32 - 1, long, 2);
        framebuffer.draw_rectangle(left, top, 2, long);
        framebuffer.draw_rectangle((self.offset_x + self.size) as i32 - 1, top, 2, long);
    }

    /// Draws the minimap over what the framebuffer shows: background,
    /// walls, field of view, player and frame, in that order.
    pub fn render(
        &self,
        framebuffer: &mut Framebuffer,
        player: &Player,
        maze: &Vec<Vec<char>>,
        block_size: usize,
        trig: &TrigTable,
    )
        requires
            self.wf(),
            Self::shows(maze@, block_size as int),
        ensures
            final(framebuffer)@ == self.rendered(
                old(framebuffer)@,
                *player,
                maze@,
                block_size as int,
                *trig,
            ),
            final(framebuffer)@.same_shape(old(framebuffer)@),
            old(framebuffer)@.wf() ==> final(framebuffer)@.wf(),
    {
        self.draw_background(framebuffer);
        self.draw_maze(framebuffer, maze, block_size);
        self.draw_fov_cone(framebuffer, player, maze, block_size, trig);
        self.draw_player(framebuffer, player, maze, block_size, trig);
        self.draw_border(framebuffer);
    }
}

} // verus!
