//! Angles in ticks and a table of sines.
//!
//! An angle is an integer number of ticks; [`TURN`] ticks make a full turn,
//! so one tick is a sixty-fourth of a degree. Angle zero points along the
//! positive x axis and angles grow toward the positive y axis. Any integer is
//! an angle: it stands for its remainder modulo [`TURN`].
//!
//! Sines are looked up, not computed. The caller supplies the sines of the
//! first quarter turn once, as fixed-point numbers, and the table derives the
//! other three quarters by symmetry. What the renderer proves about its
//! geometry rests only on those symmetries and on the range of the entries.

use vstd::prelude::*;
use crate::fixed::ONE;

verus! {

/// Ticks in a full turn.
pub const TURN: i64 = 23_040;

/// Ticks in a quarter turn.
pub const QUARTER: i64 = 5_760;

/// Ticks in half a turn.
pub const HALF_TURN: i64 = 11_520;

/// What a sequence must satisfy to serve as the first quarter of a sine
/// wave: one entry per tick from zero to a quarter turn inclusive, starting
/// at zero, ending at one, and nowhere outside that range.
pub open spec fn valid_quarter(q: Seq<i64>) -> bool {
    &&& q.len() == QUARTER + 1
    &&& q[0] == 0
    &&& q[QUARTER as int] == ONE
    &&& forall|k: int| 0 <= k <= QUARTER ==> 0 <= #[trigger] q[k] <= ONE
}

/// The sine of `angle`, read off the quarter wave `q`.
#[verifier::opaque]
pub open spec fn sine_of(q: Seq<i64>, angle: int) -> int {
    let t = angle % (TURN as int);
    if t <= QUARTER {
        q[t] as int
    } else if t <= 2 * QUARTER {
        q[2 * QUARTER - t] as int
    } else if t <= 3 * QUARTER {
        -(q[t - 2 * QUARTER] as int)
    } else {
        -(q[4 * QUARTER - t] as int)
    }
}

/// The cosine of `angle`: the sine a quarter turn further on.
pub open spec fn cosine_of(q: Seq<i64>, angle: int) -> int {
    sine_of(q, angle + QUARTER)
}

/// Sines and cosines never leave the range from minus one to one.
pub proof fn lemma_sine_range(q: Seq<i64>, angle: int)
    requires
        valid_quarter(q),
    ensures
        -ONE <= sine_of(q, angle) <= ONE,
        -ONE <= cosine_of(q, angle) <= ONE,
{
    reveal(sine_of);
    let t = angle % (TURN as int);
    let u = (angle + QUARTER) % (TURN as int);
    assert(0 <= t < TURN && 0 <= u < TURN);
}

/// The sine is odd and the cosine is even.
pub proof fn lemma_mirror(q: Seq<i64>, angle: int)
    requires
        valid_quarter(q),
    ensures
        sine_of(q, -angle) == -sine_of(q, angle),
        cosine_of(q, -angle) == cosine_of(q, angle),
{
    reveal(sine_of);
    let t = angle % (TURN as int);
    let n = (-angle) % (TURN as int);
    assert(n == if t == 0 { 0 } else { TURN - t });
    let u = (angle + QUARTER) % (TURN as int);
    let v = (-angle + QUARTER) % (TURN as int);
    assert(u == if t < 3 * QUARTER { t + QUARTER } else { t - 3 * QUARTER });
    assert(v == if t <= QUARTER { QUARTER - t } else { 5 * QUARTER - t });
}

/// Angles a whole number of turns apart have the same sine and cosine.
pub proof fn lemma_periodic(q: Seq<i64>, angle: int, turns: int)
    ensures
        sine_of(q, angle + turns * TURN) == sine_of(q, angle),
        cosine_of(q, angle + turns * TURN) == cosine_of(q, angle),
{
    reveal(sine_of);
    vstd::arithmetic::div_mod::lemma_mod_multiples_vanish(turns, angle, TURN as int);
    vstd::arithmetic::div_mod::lemma_mod_multiples_vanish(turns, angle + QUARTER, TURN as int);
    assert(angle + turns * TURN + QUARTER == TURN * turns + (angle + QUARTER));
    assert(angle + turns * TURN == TURN * turns + angle);
}

/// An angle and its remainder modulo a turn have the same sine and cosine.
pub proof fn lemma_normalized(q: Seq<i64>, angle: int)
    ensures
        sine_of(q, angle % (TURN as int)) == sine_of(q, angle),
        cosine_of(q, angle % (TURN as int)) == cosine_of(q, angle),
{
    reveal(sine_of);
    let t = angle % (TURN as int);
    assert(t % (TURN as int) == t);
    assert((t + QUARTER) % (TURN as int) == (angle + QUARTER) % (TURN as int));
}

/// Half a turn on, the sine and the cosine have changed their signs.
pub proof fn lemma_half_turn(q: Seq<i64>, angle: int)
    requires
        valid_quarter(q),
    ensures
        sine_of(q, angle + HALF_TURN) == -sine_of(q, angle),
        cosine_of(q, angle + HALF_TURN) == -cosine_of(q, angle),
{
    reveal(sine_of);
    let t = angle % (TURN as int);
    let u = (angle + HALF_TURN) % (TURN as int);
    assert(u == if t < HALF_TURN { t + HALF_TURN } else { t - HALF_TURN });
    let v = (angle + QUARTER) % (TURN as int);
    let w = (angle + HALF_TURN + QUARTER) % (TURN as int);
    assert(w == if v < HALF_TURN { v + HALF_TURN } else { v - HALF_TURN });
}

/// The sine and the cosine of an angle that lies a whole number of quarter
/// turns on from another: those of the other, turned as many quarters.
pub proof fn lemma_quarter_turns(q: Seq<i64>, quarters: int, angle: int)
    requires
        valid_quarter(q),
        0 <= quarters < 4,
    ensures
        quarters == 0 ==> cosine_of(q, quarters * QUARTER + angle) == cosine_of(q, angle)
            && sine_of(q, quarters * QUARTER + angle) == sine_of(q, angle),
        quarters == 1 ==> cosine_of(q, quarters * QUARTER + angle) == -sine_of(q, angle)
            && sine_of(q, quarters * QUARTER + angle) == cosine_of(q, angle),
        quarters == 2 ==> cosine_of(q, quarters * QUARTER + angle) == -cosine_of(q, angle)
            && sine_of(q, quarters * QUARTER + angle) == -sine_of(q, angle),
        quarters == 3 ==> cosine_of(q, quarters * QUARTER + angle) == sine_of(q, angle)
            && sine_of(q, quarters * QUARTER + angle) == -cosine_of(q, angle),
{
    lemma_half_turn(q, angle);
    lemma_half_turn(q, angle + QUARTER);
    if quarters == 1 {
        assert(QUARTER + angle + QUARTER == angle + HALF_TURN);
    } else if quarters == 2 {
        assert(2 * QUARTER + angle == angle + HALF_TURN);
    } else if quarters == 3 {
        assert(3 * QUARTER + angle == angle + QUARTER + HALF_TURN);
        assert(3 * QUARTER + angle + QUARTER == angle + HALF_TURN + HALF_TURN);
        lemma_half_turn(q, angle + HALF_TURN);
    }
}

/// Along the four axes the table is exact.
pub proof fn lemma_axes(q: Seq<i64>)
    requires
        valid_quarter(q),
    ensures
        cosine_of(q, 0) == ONE && sine_of(q, 0) == 0,
        cosine_of(q, QUARTER as int) == 0 && sine_of(q, QUARTER as int) == ONE,
        cosine_of(q, HALF_TURN as int) == -ONE && sine_of(q, HALF_TURN as int) == 0,
        cosine_of(q, 3 * QUARTER) == 0 && sine_of(q, 3 * QUARTER) == -ONE,
{
    reveal(sine_of);
}

/// A sine table: the first quarter of the wave, from which the rest follows.
pub struct TrigTable {
    quarter: Vec<i64>,
}

impl View for TrigTable {
    type V = Seq<i64>;

    closed spec fn view(&self) -> Seq<i64> {
        self.quarter@
    }
}

impl TrigTable {
    /// Every table is a valid quarter wave.
    #[verifier::type_invariant]
    pub closed spec fn wf(&self) -> bool {
        valid_quarter(self.quarter@)
    }

    /// Makes a table from the sines of the angles `0..=QUARTER`, or nothing
    /// if the entries are not a valid quarter wave.
    pub fn new(quarter: Vec<i64>) -> (table: Option<TrigTable>)
        ensures
            table.is_some() <==> valid_quarter(quarter@),
            table matches Some(t) ==> t@ == quarter@,
    {
        if quarter.len() != (QUARTER + 1) as usize {
            return None;
        }
        if quarter[0] != 0 || quarter[QUARTER as usize] != ONE {
            return None;
        }
        let mut k: usize = 0;
        while k < quarter.len()
            invariant
                quarter@.len() == QUARTER + 1,
                0 <= k <= quarter@.len(),
                forall|j: int| 0 <= j < k ==> 0 <= #[trigger] quarter@[j] <= ONE,
            decreases quarter@.len() - k,
        {
            if quarter[k] < 0 || quarter[k] > ONE {
                return None;
            }
            k += 1;
        }
        Some(TrigTable { quarter })
    }

    /// The sine of `angle` according to this table.
    pub open spec fn spec_sin(&self, angle: int) -> int {
        sine_of(self@, angle)
    }

    /// The cosine of `angle` according to this table.
    pub open spec fn spec_cos(&self, angle: int) -> int {
        cosine_of(self@, angle)
    }

    /// The sine of `angle`, as a fixed-point number.
    pub fn sin(&self, angle: i64) -> (s: i64)
        ensures
            s == self.spec_sin(angle as int),
            -ONE <= s <= ONE,
            valid_quarter(self@),
    {
        proof {
            use_type_invariant(self);
            lemma_sine_range(self@, angle as int);
            reveal(sine_of);
        }
        let t = normalize(angle);
        if t <= QUARTER {
            self.quarter[t as usize]
        } else if t <= 2 * QUARTER {
            self.quarter[(2 * QUARTER - t) as usize]
        } else if t <= 3 * QUARTER {
            -self.quarter[(t - 2 * QUARTER) as usize]
        } else {
            -self.quarter[(4 * QUARTER - t) as usize]
        }
    }

    /// The cosine of `angle`, as a fixed-point number.
    pub fn cos(&self, angle: i64) -> (c: i64)
        ensures
            c == self.spec_cos(angle as int),
            -ONE <= c <= ONE,
            valid_quarter(self@),
    {
        let t = normalize(angle);
        proof {
            use_type_invariant(self);
            lemma_sine_range(self@, angle as int);
            lemma_normalized(self@, angle as int);
        }
        self.sin(t + QUARTER)
    }
}

/// The angle in `0..TURN` that `angle` stands for.
pub fn normalize(angle: i64) -> (t: i64)
    ensures
        t == (angle as int) % (TURN as int),
        0 <= t < TURN,
{
    match angle.checked_rem_euclid(TURN) {
        Some(t) => t,
        None => 0,
    }
}

} // verus!
