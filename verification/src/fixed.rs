//! Fixed-point arithmetic on world coordinates.
//!
//! A fixed-point number is an integer that counts millionths: the raw value
//! `1_500_000` stands for one and a half. Distances, positions and the
//! entries of the sine table are all kept this way, in `i64`; products are
//! formed in `i128` so that no intermediate value can overflow.

use vstd::prelude::*;

verus! {

/// The raw value of the fixed-point number one.
pub const ONE: i64 = 1_000_000;

/// The raw value of one half.
pub const HALF: i64 = 500_000;

/// `x` held between `lo` and `hi`.
pub open spec fn clamp(x: int, lo: int, hi: int) -> int {
    if x < lo {
        lo
    } else if x > hi {
        hi
    } else {
        x
    }
}

/// The whole part of the fixed-point number with raw value `x`, rounded
/// toward zero.
pub open spec fn whole(x: int) -> int {
    if x >= 0 {
        x / (ONE as int)
    } else {
        -((-x) / (ONE as int))
    }
}

/// The pixel coordinate that the fixed-point number with raw value `x`
/// falls on: its whole part, held at the ends of `i32` where it would not
/// fit.
pub open spec fn pixel_of(x: int) -> int {
    clamp(whole(x), i32::MIN as int, i32::MAX as int)
}

/// The quotient of a division by a positive number stays within the
/// magnitude of the dividend.
pub proof fn lemma_div_bounds(a: int, b: int)
    requires
        b > 0,
    ensures
        a >= 0 ==> 0 <= a / b <= a,
        a < 0 ==> a <= a / b < 0,
        0 <= a % b < b,
        a == b * (a / b) + a % b,
{
    vstd::arithmetic::div_mod::lemma_fundamental_div_mod(a, b);
    vstd::arithmetic::div_mod::lemma_mod_bound(a, b);
    assert(a >= 0 ==> 0 <= a / b <= a) by (nonlinear_arith)
        requires
            b > 0,
            a == b * (a / b) + a % b,
            0 <= a % b < b,
    ;
    assert(a < 0 ==> a <= a / b < 0) by (nonlinear_arith)
        requires
            b > 0,
            a == b * (a / b) + a % b,
            0 <= a % b < b,
    ;
}

/// Division that rounds toward negative infinity.
pub fn div_floor(a: i128, b: i128) -> (q: i128)
    requires
        b > 0,
    ensures
        q == a / b,
{
    proof {
        lemma_div_bounds(a as int, b as int);
    }
    match a.checked_div_euclid(b) {
        Some(q) => q,
        None => 0,
    }
}

/// The remainder that goes with [`div_floor`]; it is never negative.
pub fn rem_floor(a: i128, b: i128) -> (r: i128)
    requires
        b > 0,
    ensures
        r == a % b,
        0 <= r < b,
{
    proof {
        lemma_div_bounds(a as int, b as int);
    }
    match a.checked_rem_euclid(b) {
        Some(r) => r,
        None => 0,
    }
}

/// The whole part of `x`, rounded toward zero.
pub fn whole_part(x: i128) -> (n: i128)
    ensures
        n == whole(x as int),
{
    proof {
        lemma_div_bounds(x as int, ONE as int);
        lemma_div_bounds(-(x as int), ONE as int);
    }
    if x >= 0 {
        x / (ONE as i128)
    } else if x == i128::MIN {
        -(i128::MAX / (ONE as i128))
    } else {
        -((-x) / (ONE as i128))
    }
}

/// The whole part of `x` as a pixel coordinate: rounded toward zero, and
/// held at the ends of `i32` where it would not fit.
pub fn to_pixel(x: i128) -> (n: i32)
    ensures
        n == pixel_of(x as int),
{
    let w = whole_part(x);
    if w < i32::MIN as i128 {
        i32::MIN
    } else if w > i32::MAX as i128 {
        i32::MAX
    } else {
        w as i32
    }
}

} // verus!
