//! The layout of what the game shows around the picture: the width of a
//! line of text, and the stars of the victory screen.
//!
//! Positions are pixel coordinates. They are computed in `i64`, so that no
//! screen size or star size can make them overflow.

use vstd::prelude::*;
use crate::fixed::{clamp, lemma_div_bounds};

verus! {

/// The quotient of `a` by the positive number `b`, rounded toward zero.
pub open spec fn quotient(a: int, b: int) -> int {
    if a >= 0 {
        a / b
    } else {
        -((-a) / b)
    }
}

/// The quotient of `a` by the positive number `b`, rounded toward zero.
fn divide(a: i64, b: i64) -> (q: i64)
    requires
        b > 0,
        a > i64::MIN,
    ensures
        q == quotient(a as int, b as int),
{
    proof {
        lemma_div_bounds(a as int, b as int);
        lemma_div_bounds(-(a as int), b as int);
    }
    if a >= 0 {
        a / b
    } else {
        -((-a) / b)
    }
}

/// The width in pixels that a text of `length` characters is taken to
/// have at a font size of `font_size`: half the font size per character.
pub open spec fn text_width(length: int, font_size: int) -> int {
    clamp(quotient(length * font_size, 2), i32::MIN as int, i32::MAX as int)
}

/// The width in pixels of a text of `length` characters at a font size of
/// `font_size`, held at the ends of `i32` where it would not fit.
pub fn measure_text(length: usize, font_size: i32) -> (width: i32)
    ensures
        width == text_width(length as int, font_size as int),
{
    assert(-0x8000_0000 * 0xffff_ffff_ffff_ffff <= length * font_size <= 0x8000_0000
        * 0xffff_ffff_ffff_ffff) by (nonlinear_arith)
        requires
            0 <= length <= 0xffff_ffff_ffff_ffff,
            -0x8000_0000 <= font_size <= 0x8000_0000,
    ;
    let product: i128 = (length as i128) * (font_size as i128);
    proof {
        lemma_div_bounds(product as int, 2);
        lemma_div_bounds(-(product as int), 2);
    }
    let half: i128 = if product >= 0 {
        product / 2
    } else {
        -((-product) / 2)
    };
    if half > i32::MAX as i128 {
        i32::MAX
    } else if half < i32::MIN as i128 {
        i32::MIN
    } else {
        half as i32
    }
}

/// A point of the screen.
#[derive(Clone, Copy, Debug, PartialEq, Eq, Structural)]
pub struct Point {
    pub x: i64,
    pub y: i64,
}

/// A triangle, by its corners.
#[derive(Clone, Copy, Debug, PartialEq, Eq, Structural)]
pub struct Triangle {
    pub a: Point,
    pub b: Point,
    pub c: Point,
}

/// A star of the victory screen: two triangles, one pointing up and one
/// pointing down.
#[derive(Clone, Copy, Debug, PartialEq, Eq, Structural)]
pub struct Star {
    pub up: Triangle,
    pub down: Triangle,
}

/// Where the four stars of the victory screen stand, on a screen of the
/// given size: 250 pixels to either side of its middle and 150 pixels
/// above and below it.
pub open spec fn star_centers(screen_width: int, screen_height: int) -> Seq<Point> {
    let x = quotient(screen_width, 2);
    let y = quotient(screen_height, 2);
    seq![
        Point { x: (x - 250) as i64, y: (y - 150) as i64 },
        Point { x: (x + 250) as i64, y: (y - 150) as i64 },
        Point { x: (x - 250) as i64, y: (y + 150) as i64 },
        Point { x: (x + 250) as i64, y: (y + 150) as i64 },
    ]
}

/// Where the four stars of the victory screen stand.
pub fn star_positions(screen_width: i32, screen_height: i32) -> (centers: [Point; 4])
    ensures
        centers@ == star_centers(screen_width as int, screen_height as int),
{
    let x = divide(screen_width as i64, 2);
    let y = divide(screen_height as i64, 2);
    let centers = [
        Point { x: x - 250, y: y - 150 },
        Point { x: x + 250, y: y - 150 },
        Point { x: x - 250, y: y + 150 },
        Point { x: x + 250, y: y + 150 },
    ];
    assert(centers@ =~= star_centers(screen_width as int, screen_height as int));
    centers
}

/// The star around `(x, y)` of the given size. The upward triangle has
/// its tip `size` above the centre and its base a third of `size` below
/// it, as wide as `size`; the downward triangle mirrors it.
pub open spec fn star_shape(x: int, y: int, size: int) -> Star {
    let half = quotient(size, 2);
    let third = quotient(size, 3);
    Star {
        up: Triangle {
            a: Point { x: x as i64, y: (y - size) as i64 },
            b: Point { x: (x - half) as i64, y: (y + third) as i64 },
            c: Point { x: (x + half) as i64, y: (y + third) as i64 },
        },
        down: Triangle {
            a: Point { x: x as i64, y: (y + size) as i64 },
            b: Point { x: (x - half) as i64, y: (y - third) as i64 },
            c: Point { x: (x + half) as i64, y: (y - third) as i64 },
        },
    }
}

/// The star around `(x, y)` of the given size.
pub fn star_corners(x: i32, y: i32, size: i32) -> (star: Star)
    ensures
        star == star_shape(x as int, y as int, size as int),
{
    let half = divide(size as i64, 2);
    let third = divide(size as i64, 3);
    let cx = x as i64;
    let cy = y as i64;
    let reach = size as i64;
    Star {
        up: Triangle {
            a: Point { x: cx, y: cy - reach },
            b: Point { x: cx - half, y: cy + third },
            c: Point { x: cx + half, y: cy + third },
        },
        down: Triangle {
            a: Point { x: cx, y: cy + reach },
            b: Point { x: cx - half, y: cy - third },
            c: Point { x: cx + half, y: cy - third },
        },
    }
}

} // verus!
