//! The pixel surface and its drawing primitives.
//!
//! A [`Framebuffer`] is a rectangle of colour samples stored row by row,
//! together with the colour that the next drawing operation will use. Every
//! drawing operation is total: a point outside the surface is skipped, never
//! written elsewhere and never an error.
//!
//! Contracts are stated over [`Surface`], the mathematical picture of a
//! framebuffer. A shape is a set of points, and drawing a shape is
//! [`Surface::paint`] of that set.

use vstd::prelude::*;
use crate::color::Color;

verus! {

/// The mathematical picture of a framebuffer.
pub struct Surface {
    pub width: int,
    pub height: int,
    pub pixels: Seq<Color>,
    pub background: Color,
    pub current: Color,
}

impl Surface {
    /// The surface stores exactly one sample per point.
    pub open spec fn wf(self) -> bool {
        &&& 0 <= self.width
        &&& 0 <= self.height
        &&& self.pixels.len() == self.width * self.height
    }

    /// The two surfaces have the same width, height, number of samples and
    /// background colour: drawing on one gave the other.
    pub open spec fn same_shape(self, other: Surface) -> bool {
        &&& self.width == other.width
        &&& self.height == other.height
        &&& self.pixels.len() == other.pixels.len()
        &&& self.background == other.background
    }

    /// Where the sample of the point `(x, y)` is stored.
    pub open spec fn index_of(self, x: int, y: int) -> int {
        y * self.width + x
    }

    /// The point `(x, y)` lies on the surface and has a sample.
    pub open spec fn holds(self, x: int, y: int) -> bool {
        &&& 0 <= x < self.width
        &&& 0 <= y < self.height
        &&& self.index_of(x, y) < self.pixels.len()
    }

    /// The sample of the point `(x, y)`.
    pub open spec fn pixel(self, x: int, y: int) -> Color {
        self.pixels[self.index_of(x, y)]
    }

    /// The same surface with another drawing colour.
    pub open spec fn with_color(self, color: Color) -> Surface {
        Surface { current: color, ..self }
    }

    /// The same surface with another background colour.
    pub open spec fn with_background(self, color: Color) -> Surface {
        Surface { background: color, ..self }
    }

    /// The surface with every sample set to the background colour.
    pub open spec fn cleared(self) -> Surface {
        Surface { pixels: Seq::new(self.pixels.len(), |k: int| self.background), ..self }
    }

    /// The surface after the point `(x, y)` took the drawing colour; the
    /// surface itself if it does not hold that point.
    pub open spec fn plot(self, x: int, y: int) -> Surface {
        if self.holds(x, y) {
            Surface { pixels: self.pixels.update(self.index_of(x, y), self.current), ..self }
        } else {
            self
        }
    }

    /// The sample stored at index `k` belongs to a point of `region`.
    pub open spec fn covers(self, region: Set<(int, int)>, k: int) -> bool {
        &&& self.width > 0
        &&& k / self.width < self.height
        &&& region.contains((k % self.width, k / self.width))
    }

    /// The surface after every point of `region` that it holds took the
    /// drawing colour.
    pub open spec fn paint(self, region: Set<(int, int)>) -> Surface {
        Surface {
            pixels: Seq::new(
                self.pixels.len(),
                |k: int|
                    if self.covers(region, k) {
                        self.current
                    } else {
                        self.pixels[k]
                    },
            ),
            ..self
        }
    }
}

/// A row-major index splits into its column and row in only one way.
pub proof fn lemma_index_split(width: int, x: int, y: int)
    requires
        0 <= x < width,
    ensures
        (y * width + x) % width == x,
        (y * width + x) / width == y,
{
    vstd::arithmetic::div_mod::lemma_fundamental_div_mod_converse(y * width + x, width, y, x);
}

/// Painting nothing changes nothing.
pub proof fn lemma_paint_nothing(s: Surface)
    ensures
        s.paint(Set::empty()) == s,
{
    assert(s.paint(Set::empty()).pixels =~= s.pixels);
}

/// Painting a region and then plotting one more point is painting the
/// region with that point added.
pub proof fn lemma_paint_plot(s: Surface, region: Set<(int, int)>, x: int, y: int)
    ensures
        s.paint(region).plot(x, y) == s.paint(region.insert((x, y))),
{
    let a = s.paint(region).plot(x, y);
    let b = s.paint(region.insert((x, y)));
    assert(a.pixels.len() == b.pixels.len());
    assert forall|k: int| 0 <= k < a.pixels.len() implies a.pixels[k] == b.pixels[k] by {
        if s.width > 0 {
            vstd::arithmetic::div_mod::lemma_fundamental_div_mod(k, s.width);
            vstd::arithmetic::div_mod::lemma_mod_bound(k, s.width);
            crate::fixed::lemma_div_bounds(k, s.width);
            if 0 <= x < s.width {
                lemma_index_split(s.width, x, y);
            }
            assert(s.width * (k / s.width) == (k / s.width) * s.width) by (nonlinear_arith);
        }
    }
    assert(a.pixels =~= b.pixels);
}

/// A surface that stores one sample per point holds exactly the points
/// within its width and height.
pub proof fn lemma_wf_holds(s: Surface, x: int, y: int)
    requires
        s.wf(),
    ensures
        s.holds(x, y) <==> (0 <= x < s.width && 0 <= y < s.height),
{
    if 0 <= x < s.width && 0 <= y < s.height {
        assert(y * s.width + x < s.width * s.height) by (nonlinear_arith)
            requires
                0 <= x < s.width,
                0 <= y < s.height,
        ;
    }
}

/// Plotting a point gives that point the drawing colour and leaves every
/// other point as it was. Plotting a point that the surface does not hold
/// changes nothing.
pub proof fn lemma_plot_pixel(s: Surface, x: int, y: int, a: int, b: int)
    requires
        s.holds(a, b),
    ensures
        s.plot(x, y).holds(a, b),
        s.plot(x, y).pixel(a, b) == if (a, b) == (x, y) {
            s.current
        } else {
            s.pixel(a, b)
        },
        !s.holds(x, y) ==> s.plot(x, y) == s,
        s.wf() ==> s.plot(x, y).wf(),
{
    lemma_index_split(s.width, a, b);
    if s.holds(x, y) {
        lemma_index_split(s.width, x, y);
    }
    assert(0 <= b * s.width + a) by (nonlinear_arith)
        requires
            0 <= a,
            0 <= b,
            0 < s.width,
    ;
}

/// Painting a region that has no point on the surface changes nothing.
pub proof fn lemma_paint_off_surface(s: Surface, region: Set<(int, int)>)
    requires
        forall|p: (int, int)|
            #[trigger] region.contains(p) ==> !(0 <= p.0 < s.width && 0 <= p.1 < s.height),
    ensures
        s.paint(region) == s,
{
    assert forall|k: int| 0 <= k < s.pixels.len() implies !s.covers(region, k) by {
        if s.width > 0 {
            crate::fixed::lemma_div_bounds(k, s.width);
        }
    }
    assert(s.paint(region).pixels =~= s.pixels);
}

/// Painting leaves a point outside the region as it was and gives a point
/// inside it the drawing colour.
pub proof fn lemma_paint_pixel(s: Surface, region: Set<(int, int)>, x: int, y: int)
    requires
        s.holds(x, y),
    ensures
        s.paint(region).holds(x, y),
        s.paint(region).pixel(x, y) == if region.contains((x, y)) {
            s.current
        } else {
            s.pixel(x, y)
        },
        s.wf() ==> s.paint(region).wf(),
{
    lemma_index_split(s.width, x, y);
    assert(0 <= y * s.width + x) by (nonlinear_arith)
        requires
            0 <= x,
            0 <= y,
            0 < s.width,
    ;
}

/// The points of the rectangle whose corner is `(x, y)`, `width` wide and
/// `height` high. It is empty when either extent is not positive.
pub open spec fn rect_region(x: int, y: int, width: int, height: int) -> Set<(int, int)> {
    Set::new(|p: (int, int)| x <= p.0 < x + width && y <= p.1 < y + height)
}

/// The rectangle of [`rect_region`] as far as a row-by-row sweep has come:
/// the first `rows` rows and the first `cols` points of the next.
pub open spec fn rect_swept(x: int, y: int, width: int, rows: int, cols: int) -> Set<(int, int)> {
    Set::new(
        |p: (int, int)|
            (x <= p.0 < x + width && y <= p.1 < y + rows) || (x <= p.0 < x + cols && p.1 == y
                + rows),
    )
}

/// The points of the disc around `(cx, cy)` with radius `radius`: those
/// whose distance from the centre, squared, is at most the radius squared.
/// It is empty when the radius is negative.
pub open spec fn disc_region(cx: int, cy: int, radius: int) -> Set<(int, int)> {
    Set::new(
        |p: (int, int)|
            {
                &&& -radius <= p.0 - cx <= radius
                &&& -radius <= p.1 - cy <= radius
                &&& (p.0 - cx) * (p.0 - cx) + (p.1 - cy) * (p.1 - cy) <= radius * radius
            },
    )
}

/// The disc of [`disc_region`] as far as a row-by-row sweep has come: the
/// rows above the offset `row`, and in that row the points left of the
/// offset `col`.
pub open spec fn disc_swept(cx: int, cy: int, radius: int, row: int, col: int) -> Set<(int, int)> {
    Set::new(
        |p: (int, int)|
            disc_region(cx, cy, radius).contains(p) && (p.1 - cy < row || (p.1 - cy == row && p.0
                - cx < col)),
    )
}

/// Where a line walk stands: a point and the error term that decides the
/// next step.
pub struct LineWalk {
    pub x: int,
    pub y: int,
    pub err: int,
}

/// A line from `(x0, y0)` to `(x1, y1)`.
pub struct Line {
    pub x0: int,
    pub y0: int,
    pub x1: int,
    pub y1: int,
}

impl Line {
    /// The extent of the line along x.
    pub open spec fn dx(self) -> int {
        if self.x1 >= self.x0 {
            self.x1 - self.x0
        } else {
            self.x0 - self.x1
        }
    }

    /// The extent of the line along y.
    pub open spec fn dy(self) -> int {
        if self.y1 >= self.y0 {
            self.y1 - self.y0
        } else {
            self.y0 - self.y1
        }
    }

    /// The direction of the line along x.
    pub open spec fn sx(self) -> int {
        if self.x0 < self.x1 {
            1
        } else {
            -1
        }
    }

    /// The direction of the line along y.
    pub open spec fn sy(self) -> int {
        if self.y0 < self.y1 {
            1
        } else {
            -1
        }
    }

    /// Where the walk along the line begins.
    pub open spec fn start(self) -> LineWalk {
        LineWalk { x: self.x0, y: self.y0, err: self.dx() - self.dy() }
    }

    /// The walk has arrived at the far end of the line.
    pub open spec fn arrived(self, w: LineWalk) -> bool {
        w.x == self.x1 && w.y == self.y1
    }

    /// One step of the walk: along x if twice the error exceeds `-dy`,
    /// along y if it is below `dx`, along both if both hold. A walk that
    /// has arrived stays where it is.
    pub open spec fn step(self, w: LineWalk) -> LineWalk {
        if self.arrived(w) {
            w
        } else {
            let along_x = 2 * w.err > -self.dy();
            let along_y = 2 * w.err < self.dx();
            LineWalk {
                x: if along_x {
                    w.x + self.sx()
                } else {
                    w.x
                },
                y: if along_y {
                    w.y + self.sy()
                } else {
                    w.y
                },
                err: w.err - (if along_x {
                    self.dy()
                } else {
                    0
                }) + (if along_y {
                    self.dx()
                } else {
                    0
                }),
            }
        }
    }

    /// Where the walk stands after `k` steps.
    pub open spec fn walk(self, k: nat) -> LineWalk
        decreases k,
    {
        if k == 0 {
            self.start()
        } else {
            self.step(self.walk((k - 1) as nat))
        }
    }

    /// The point where the walk stands after `k` steps.
    pub open spec fn point(self, k: nat) -> (int, int) {
        (self.walk(k).x, self.walk(k).y)
    }

    /// The points of the walk before its step `n`.
    pub open spec fn trace(self, n: nat) -> Set<(int, int)> {
        Set::new(|p: (int, int)| exists|k: nat| k < n && p == #[trigger] self.point(k))
    }

    /// The points of the whole walk, from one end of the line to the
    /// other.
    pub open spec fn region(self) -> Set<(int, int)> {
        Set::new(|p: (int, int)| exists|k: nat| p == #[trigger] self.point(k))
    }

    /// How far the walk has come along x after `k` steps.
    pub open spec fn gone_x(self, k: nat) -> int {
        if self.x0 < self.x1 {
            self.walk(k).x - self.x0
        } else {
            self.x0 - self.walk(k).x
        }
    }

    /// How far the walk has come along y after `k` steps.
    pub open spec fn gone_y(self, k: nat) -> int {
        if self.y0 < self.y1 {
            self.walk(k).y - self.y0
        } else {
            self.y0 - self.walk(k).y
        }
    }

    /// The longer of the two extents of the line.
    pub open spec fn longer(self) -> int {
        if self.dx() >= self.dy() {
            self.dx()
        } else {
            self.dy()
        }
    }

    /// How far the walk has come after `k` steps along the axis on which
    /// the line is longer.
    pub open spec fn gone_longer(self, k: nat) -> int {
        if self.dx() >= self.dy() {
            self.gone_x(k)
        } else {
            self.gone_y(k)
        }
    }

    /// Twice the amount by which the walk is off the straight line after
    /// `k` steps, in units of the line's extents: zero where the point of
    /// the walk lies on the straight line exactly.
    pub open spec fn drift(self, k: nat) -> int {
        2 * (self.gone_y(k) * self.dx() - self.gone_x(k) * self.dy())
    }

    /// The error term keeps within the bounds that make the walk advance
    /// along the longer axis at every step.
    pub open spec fn steady(self, k: nat) -> bool {
        let e = 2 * self.walk(k).err;
        if self.dx() > self.dy() {
            self.dx() - 2 * self.dy() <= e < 3 * self.dx() - 2 * self.dy()
        } else if self.dx() < self.dy() {
            2 * self.dx() - 3 * self.dy() < e <= 2 * self.dx() - self.dy()
        } else {
            e == 0
        }
    }

    /// The walk never leaves the box spanned by the two ends of the line,
    /// and its error term is what the distances gone make it.
    pub open spec fn on_course(self, k: nat) -> bool {
        &&& 0 <= self.gone_x(k) <= self.dx()
        &&& 0 <= self.gone_y(k) <= self.dy()
        &&& self.walk(k).err == self.dx() - self.dy() - self.gone_x(k) * self.dy() + self.gone_y(
            k,
        ) * self.dx()
    }
}

/// The walk stays on course: within the box of the line, with the error
/// term that goes with its position. Until it arrives, every step brings
/// it nearer to the far end.
pub proof fn lemma_walk_on_course(line: Line, k: nat)
    ensures
        line.on_course(k),
        !line.arrived(line.walk(k)) ==> line.gone_x(k + 1) + line.gone_y(k + 1) > line.gone_x(k)
            + line.gone_y(k),
        line.arrived(line.walk(k)) <==> (line.gone_x(k) == line.dx() && line.gone_y(k)
            == line.dy()),
    decreases k,
{
    if k > 0 {
        lemma_walk_on_course(line, (k - 1) as nat);
    }
    let w = line.walk(k);
    let gx = line.gone_x(k);
    let gy = line.gone_y(k);
    let dx = line.dx();
    let dy = line.dy();
    assert(line.on_course(k)) by {
        if k > 0 {
            let v = line.walk((k - 1) as nat);
            let hx = line.gone_x((k - 1) as nat);
            let hy = line.gone_y((k - 1) as nat);
            assert(line.arrived(v) <==> (hx == dx && hy == dy));
            if !line.arrived(v) {
                lemma_no_overshoot(dx, dy, hx, hy);
                assert((hx + 1) * dy == hx * dy + dy) by (nonlinear_arith);
                assert((hy + 1) * dx == hy * dx + dx) by (nonlinear_arith);
            }
        }
    }
    assert(w == line.walk(k));
    if !line.arrived(w) {
        lemma_no_overshoot(dx, dy, gx, gy);
        assert(line.walk(k + 1) == line.step(w));
    }
}

/// While the walk is short of the far end, its error term sends it along
/// an axis on which it still has way to go, and along at least one.
pub proof fn lemma_no_overshoot(dx: int, dy: int, gx: int, gy: int)
    requires
        0 <= gx <= dx,
        0 <= gy <= dy,
        gx < dx || gy < dy,
    ensures
        ({
            let err = dx - dy - gx * dy + gy * dx;
            &&& gx == dx ==> !(2 * err > -dy)
            &&& gy == dy ==> !(2 * err < dx)
            &&& 2 * err > -dy || 2 * err < dx
        }),
{
    let err = dx - dy - gx * dy + gy * dx;
    if gx == dx {
        assert(dx * (1 + gy - dy) <= 0) by (nonlinear_arith)
            requires
                dx >= 0,
                1 + gy - dy <= 0,
        ;
        assert(dx - dy - dx * dy + gy * dx == dx * (1 + gy - dy) - dy) by (nonlinear_arith);
    }
    if gy == dy {
        assert(dy * (dx - gx - 1) >= 0) by (nonlinear_arith)
            requires
                dy >= 0,
                dx - gx - 1 >= 0,
        ;
        assert(dx - dy - gx * dy + dy * dx == dx + dy * (dx - gx - 1)) by (nonlinear_arith);
    }
}

/// The error term of the walk stays within its bounds, and until the walk
/// arrives every step advances it by one along the longer axis.
pub proof fn lemma_walk_steady(line: Line, k: nat)
    ensures
        line.steady(k),
        line.on_course(k),
        !line.arrived(line.walk(k)) ==> line.gone_longer(k + 1) == line.gone_longer(k) + 1,
    decreases k,
{
    lemma_walk_on_course(line, k);
    if k > 0 {
        lemma_walk_steady(line, (k - 1) as nat);
        lemma_walk_on_course(line, (k - 1) as nat);
        assert(line.walk(k) == line.step(line.walk((k - 1) as nat)));
    }
    assert(line.walk(k + 1) == line.step(line.walk(k)));
}

/// The walk is the straight line, rounded: it takes one step along the
/// longer axis at a time, as many as the line is long, and across that axis
/// each of its points lies within half a pixel of the straight line.
pub proof fn lemma_walk_follows_line(line: Line, k: nat)
    requires
        k <= line.longer(),
    ensures
        line.gone_longer(k) == k,
        -line.longer() <= line.drift(k) <= line.longer(),
        line.arrived(line.walk(k)) <==> k == line.longer(),
    decreases k,
{
    lemma_walk_steady(line, k);
    lemma_walk_on_course(line, k);
    if k > 0 {
        lemma_walk_follows_line(line, (k - 1) as nat);
        lemma_walk_steady(line, (k - 1) as nat);
        lemma_walk_on_course(line, (k - 1) as nat);
    }
    let gx = line.gone_x(k);
    let gy = line.gone_y(k);
    let dx = line.dx();
    let dy = line.dy();
    assert(line.drift(k) == 2 * line.walk(k).err - 2 * dx + 2 * dy);
    if line.gone_longer(k) == line.longer() && !line.arrived(line.walk(k)) {
        lemma_no_overshoot(dx, dy, gx, gy);
        if dx >= dy {
            assert(gx * dy == dx * dy) by (nonlinear_arith)
                requires
                    gx == dx,
            ;
            assert(gy * dx <= (dy - 1) * dx) by (nonlinear_arith)
                requires
                    gy <= dy - 1,
                    dx >= 0,
            ;
            assert((dy - 1) * dx == dy * dx - dx && dy * dx == dx * dy) by (nonlinear_arith);
        } else {
            assert(gy * dx == dy * dx) by (nonlinear_arith)
                requires
                    gy == dy,
            ;
            assert(gx * dy <= (dx - 1) * dy) by (nonlinear_arith)
                requires
                    gx <= dx - 1,
                    dy >= 0,
            ;
            assert((dx - 1) * dy == dx * dy - dy && dy * dx == dx * dy) by (nonlinear_arith);
        }
    }
}

/// The points of a line are those of the first steps of its walk, one more
/// than the line is long.
pub proof fn lemma_line_length(line: Line)
    ensures
        line.point(0) == (line.x0, line.y0),
        line.point(line.longer() as nat) == (line.x1, line.y1),
        line.region() == line.trace((line.longer() + 1) as nat),
{
    let n = line.longer() as nat;
    lemma_walk_follows_line(line, n);
    assert(line.region() =~= line.trace(n + 1)) by {
        assert forall|p: (int, int)| line.region().contains(p) implies line.trace(
            n + 1,
        ).contains(p) by {
            let j = choose|j: nat| p == #[trigger] line.point(j);
            if j > n {
                lemma_walk_stays(line, n, j);
                assert(p == line.point(n));
            }
        }
    }
}

/// Once the walk has arrived it stays.
pub proof fn lemma_walk_stays(line: Line, k: nat, later: nat)
    requires
        line.arrived(line.walk(k)),
        k <= later,
    ensures
        line.walk(later) == line.walk(k),
    decreases later - k,
{
    if later > k {
        lemma_walk_stays(line, k, (later - 1) as nat);
    }
}

/// A rectangle of colour samples with a current drawing colour.
pub struct Framebuffer {
    pub width: u32,
    pub height: u32,
    pub buffer: Vec<Color>,
    pub background_color: Color,
    pub current_color: Color,
}

impl View for Framebuffer {
    type V = Surface;

    open spec fn view(&self) -> Surface {
        Surface {
            width: self.width as int,
            height: self.height as int,
            pixels: self.buffer@,
            background: self.background_color,
            current: self.current_color,
        }
    }
}

impl Framebuffer {
    /// A surface of `width` by `height` samples, all of the background
    /// colour, that draws in white.
    pub fn new(width: u32, height: u32, background_color: Color) -> (fb: Framebuffer)
        requires
            width * height <= u32::MAX,
        ensures
            fb@.wf(),
            fb@ == (Surface {
                width: width as int,
                height: height as int,
                pixels: Seq::new((width * height) as nat, |k: int| background_color),
                background: background_color,
                current: Color::white(),
            }),
    {
        let size = (width * height) as usize;
        let buffer = vec![background_color; size];
        let fb = Framebuffer {
            width,
            height,
            buffer,
            background_color,
            current_color: Color::white(),
        };
        assert(fb@.pixels =~= Seq::new((width * height) as nat, |k: int| background_color));
        fb
    }

    /// Sets every sample to the background colour.
    pub fn clear(&mut self)
        ensures
            final(self)@ == old(self)@.cleared(),
            old(self)@.wf() ==> final(self)@.wf(),
    {
        let n = self.buffer.len();
        let mut k: usize = 0;
        while k < n
            invariant
                0 <= k <= n,
                n == self.buffer@.len(),
                self.width == old(self).width,
                self.height == old(self).height,
                self.background_color == old(self).background_color,
                self.current_color == old(self).current_color,
                self.buffer@.len() == old(self).buffer@.len(),
                forall|j: int| 0 <= j < k ==> self.buffer@[j] == self.background_color,
                forall|j: int| k <= j < n ==> self.buffer@[j] == old(self).buffer@[j],
            decreases n - k,
        {
            self.buffer[k] = self.background_color;
            k += 1;
        }
        assert(self@.pixels =~= old(self)@.cleared().pixels);
    }

    /// Gives the point `(x, y)` the drawing colour, if the surface holds it.
    pub fn set_pixel(&mut self, x: u32, y: u32)
        ensures
            final(self)@ == old(self)@.plot(x as int, y as int),
            old(self)@.wf() ==> final(self)@.wf(),
    {
        if x < self.width && y < self.height {
            assert(y * self.width + x <= 0xffff_ffff * 0xffff_ffff + 0xffff_ffff)
                by (nonlinear_arith)
                requires
                    0 <= y <= 0xffff_ffff,
                    0 <= self.width <= 0xffff_ffff,
                    0 <= x <= 0xffff_ffff,
            ;
            let index: u64 = (y as u64) * (self.width as u64) + (x as u64);
            if index < self.buffer.len() as u64 {
                self.buffer[index as usize] = self.current_color;
            }
        }
    }

    /// The sample of the point `(x, y)`, if the surface holds it.
    pub fn get_pixel(&self, x: u32, y: u32) -> (sample: Option<Color>)
        ensures
            sample == if self@.holds(x as int, y as int) {
                Some(self@.pixel(x as int, y as int))
            } else {
                None
            },
    {
        if x < self.width && y < self.height {
            assert(y * self.width + x <= 0xffff_ffff * 0xffff_ffff + 0xffff_ffff)
                by (nonlinear_arith)
                requires
                    0 <= y <= 0xffff_ffff,
                    0 <= self.width <= 0xffff_ffff,
                    0 <= x <= 0xffff_ffff,
            ;
            let index: u64 = (y as u64) * (self.width as u64) + (x as u64);
            if index < self.buffer.len() as u64 {
                return Some(self.buffer[index as usize]);
            }
        }
        None
    }

    /// Chooses the colour that drawing uses from now on.
    pub fn set_current_color(&mut self, color: Color)
        ensures
            final(self)@ == old(self)@.with_color(color),
    {
        self.current_color = color;
    }

    /// Chooses the colour that [`Framebuffer::clear`] fills with.
    pub fn set_background_color(&mut self, color: Color)
        ensures
            final(self)@ == old(self)@.with_background(color),
    {
        self.background_color = color;
    }

    /// Plots the point `(x, y)` given in signed coordinates of any size.
    pub fn plot_signed(&mut self, x: i64, y: i64)
        ensures
            final(self)@ == old(self)@.plot(x as int, y as int),
            old(self)@.wf() ==> final(self)@.wf(),
    {
        if x >= 0 && y >= 0 && x <= u32::MAX as i64 && y <= u32::MAX as i64 {
            self.set_pixel(x as u32, y as u32);
        }
    }

    /// Fills the rectangle whose corner is `(x, y)`, `width` wide and
    /// `height` high, with the drawing colour.
    pub fn draw_rectangle(&mut self, x: i32, y: i32, width: i32, height: i32)
        ensures
            final(self)@ == old(self)@.paint(
                rect_region(x as int, y as int, width as int, height as int),
            ),
            old(self)@.wf() ==> final(self)@.wf(),
    {
        let mut dy: i64 = 0;
        proof {
            lemma_paint_nothing(old(self)@);
            assert(rect_swept(x as int, y as int, width as int, 0, 0) =~= Set::empty());
        }
        while dy < height as i64
            invariant
                0 <= dy,
                dy <= height || dy == 0,
                self@ == old(self)@.paint(
                    rect_swept(x as int, y as int, width as int, dy as int, 0),
                ),
            decreases height - dy,
        {
            let mut dx: i64 = 0;
            while dx < width as i64
                invariant
                    0 <= dx,
                    dx <= width || dx == 0,
                    0 <= dy < height,
                    self@ == old(self)@.paint(
                        rect_swept(x as int, y as int, width as int, dy as int, dx as int),
                    ),
                decreases width - dx,
            {
                let px = x as i64 + dx;
                let py = y as i64 + dy;
                proof {
                    lemma_paint_plot(
                        old(self)@,
                        rect_swept(x as int, y as int, width as int, dy as int, dx as int),
                        px as int,
                        py as int,
                    );
                    let swept = rect_swept(x as int, y as int, width as int, dy as int, dx as int);
                    assert(swept.insert((px as int, py as int)) =~= rect_swept(
                        x as int,
                        y as int,
                        width as int,
                        dy as int,
                        dx + 1,
                    ));
                }
                self.plot_signed(px, py);
                dx += 1;
            }
            proof {
                assert(rect_swept(x as int, y as int, width as int, dy as int, dx as int)
                    =~= rect_swept(x as int, y as int, width as int, dy + 1, 0));
            }
            dy += 1;
        }
        proof {
            assert(rect_swept(x as int, y as int, width as int, dy as int, 0) =~= rect_region(
                x as int,
                y as int,
                width as int,
                height as int,
            ));
        }
    }

    /// Fills the disc around `(center_x, center_y)` with radius `radius`
    /// with the drawing colour.
    pub fn draw_circle(&mut self, center_x: i32, center_y: i32, radius: i32)
        ensures
            final(self)@ == old(self)@.paint(
                disc_region(center_x as int, center_y as int, radius as int),
            ),
            old(self)@.wf() ==> final(self)@.wf(),
    {
        let r = radius as i64;
        let ghost cx = center_x as int;
        let ghost cy = center_y as int;
        let mut y: i64 = -r;
        proof {
            lemma_paint_nothing(old(self)@);
            assert(disc_swept(cx, cy, r as int, -r, -r) =~= Set::empty());
        }
        while y <= r
            invariant
                r == radius,
                cx == center_x,
                cy == center_y,
                -r <= y <= r + 1 || y == -r,
                self@ == old(self)@.paint(disc_swept(cx, cy, r as int, y as int, -r)),
            decreases r + 1 - y,
        {
            let mut x: i64 = -r;
            while x <= r
                invariant
                    r == radius,
                    cx == center_x,
                    cy == center_y,
                    -r <= y <= r,
                    -r <= x <= r + 1,
                    self@ == old(self)@.paint(disc_swept(cx, cy, r as int, y as int, x as int)),
                decreases r + 1 - x,
            {
                assert(x * x <= 0x7fff_ffff * 0x7fff_ffff && y * y <= 0x7fff_ffff * 0x7fff_ffff
                    && r * r <= 0x7fff_ffff * 0x7fff_ffff && 0 <= x * x && 0 <= y * y)
                    by (nonlinear_arith)
                    requires
                        -0x7fff_ffff <= x <= 0x7fff_ffff,
                        -0x7fff_ffff <= y <= 0x7fff_ffff,
                        0 <= r <= 0x7fff_ffff,
                ;
                if x * x + y * y <= r * r {
                    let px = center_x as i64 + x;
                    let py = center_y as i64 + y;
                    proof {
                        lemma_paint_plot(
                            old(self)@,
                            disc_swept(cx, cy, r as int, y as int, x as int),
                            px as int,
                            py as int,
                        );
                        assert(px - cx == x && py - cy == y);
                        assert(disc_region(cx, cy, r as int).contains((px as int, py as int)));
                        assert(disc_swept(cx, cy, r as int, y as int, x as int).insert(
                            (px as int, py as int),
                        ) =~= disc_swept(cx, cy, r as int, y as int, x + 1));
                    }
                    self.plot_signed(px, py);
                } else {
                    proof {
                        assert(!disc_region(cx, cy, r as int).contains((cx + x, cy + y)));
                        assert(disc_swept(cx, cy, r as int, y as int, x as int) =~= disc_swept(
                            cx,
                            cy,
                            r as int,
                            y as int,
                            x + 1,
                        ));
                    }
                }
                x += 1;
            }
            proof {
                assert(disc_swept(cx, cy, r as int, y as int, x as int) =~= disc_swept(
                    cx,
                    cy,
                    r as int,
                    y + 1,
                    -r,
                ));
            }
            y += 1;
        }
        proof {
            assert(disc_swept(cx, cy, r as int, y as int, -r) =~= disc_region(cx, cy, r as int));
        }
    }

    /// Draws the line from `(x0, y0)` to `(x1, y1)` in the drawing colour,
    /// both ends included, one point per step of the line's walk.
    pub fn draw_line(&mut self, x0: i32, y0: i32, x1: i32, y1: i32)
        ensures
            final(self)@ == old(self)@.paint(
                (Line { x0: x0 as int, y0: y0 as int, x1: x1 as int, y1: y1 as int }).region(),
            ),
            old(self)@.wf() ==> final(self)@.wf(),
    {
        let ghost line = Line { x0: x0 as int, y0: y0 as int, x1: x1 as int, y1: y1 as int };
        let dx: i64 = if x1 >= x0 {
            x1 as i64 - x0 as i64
        } else {
            x0 as i64 - x1 as i64
        };
        let dy: i64 = if y1 >= y0 {
            y1 as i64 - y0 as i64
        } else {
            y0 as i64 - y1 as i64
        };
        let sx: i64 = if x0 < x1 {
            1
        } else {
            -1
        };
        let sy: i64 = if y0 < y1 {
            1
        } else {
            -1
        };
        let mut x: i64 = x0 as i64;
        let mut y: i64 = y0 as i64;
        let mut err: i64 = dx - dy;
        let ghost mut k: nat = 0;
        proof {
            lemma_paint_nothing(old(self)@);
            assert(line.trace(0) =~= Set::empty());
        }
        loop
            invariant_except_break
                self@ == old(self)@.paint(line.trace(k)),
            invariant
                line == (Line { x0: x0 as int, y0: y0 as int, x1: x1 as int, y1: y1 as int }),
                dx == line.dx(),
                dy == line.dy(),
                sx == line.sx(),
                sy == line.sy(),
                line.walk(k) == (LineWalk { x: x as int, y: y as int, err: err as int }),
                -2 * dy <= err <= 2 * dx,
            ensures
                self@ == old(self)@.paint(line.region()),
            decreases (line.dx() - line.gone_x(k)) + (line.dy() - line.gone_y(k)),
        {
            proof {
                lemma_walk_on_course(line, k);
                lemma_paint_plot(old(self)@, line.trace(k), x as int, y as int);
                assert(line.point(k) == (x as int, y as int));
                assert(line.trace(k).insert((x as int, y as int)) =~= line.trace(k + 1));
            }
            self.plot_signed(x, y);
            if x == x1 as i64 && y == y1 as i64 {
                proof {
                    assert(line.region() =~= line.trace(k + 1)) by {
                        assert forall|p: (int, int)| line.region().contains(p) implies line.trace(
                            k + 1,
                        ).contains(p) by {
                            let j = choose|j: nat| p == #[trigger] line.point(j);
                            if j > k {
                                lemma_walk_stays(line, k, j);
                                assert(p == line.point(k));
                            }
                        }
                    }
                }
                break ;
            }
            let e2 = 2 * err;
            if e2 > -dy {
                err -= dy;
                x += sx;
            }
            if e2 < dx {
                err += dx;
                y += sy;
            }
            proof {
                assert(line.walk(k + 1) == line.step(line.walk(k)));
                k = k + 1;
                lemma_walk_on_course(line, k);
            }
        }
    }
}

} // verus!
