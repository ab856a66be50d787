//! Fixed-point angles and trigonometry.
//!
//! An angle is a number of steps of a full turn split into `TURN` equal
//! parts; any integer is accepted and reduced modulo `TURN`.  Sine and
//! cosine are the standard quarter-wave parabola approximation, scaled by
//! `TRIG_ONE`, so every value is exact integer arithmetic: the peak values
//! are exactly `TRIG_ONE` and `-TRIG_ONE`, and periodicity holds exactly.

use vstd::prelude::*;
use vstd::arithmetic::div_mod::lemma_mod_add_multiples_vanish;
use crate::num::mod_floor;

verus! {

/// Number of angle steps in one full turn.
pub const TURN: i64 = 2048;

/// Half a turn, where the sine changes sign.
pub const HALF_TURN: i64 = 1024;

/// A quarter turn, the phase shift between sine and cosine.
pub const QUARTER_TURN: i64 = 512;

/// The fixed-point scale of trigonometric values: this value stands for 1.
pub const TRIG_ONE: i64 = 1024;

/// The fixed-point sine of an angle given in steps of `TURN` per turn.
///
/// On the first half turn this is the parabola `r * (HALF_TURN - r) / 256`,
/// which rises from 0 to `TRIG_ONE` and back; on the second half turn it is
/// the exact negative of the first.
pub open spec fn sin_fp(a: int) -> int {
    let r = a % (TURN as int);
    if r < HALF_TURN {
        r * (HALF_TURN - r) / 256
    } else {
        -((r - HALF_TURN) * (TURN - r) / 256)
    }
}

/// The fixed-point cosine: the sine a quarter turn ahead.
pub open spec fn cos_fp(a: int) -> int {
    sin_fp(a + QUARTER_TURN)
}

/// The parabola value on a quarter-wave argument never exceeds `TRIG_ONE`
/// after the division by 256, and never drops below 0.
proof fn lemma_parabola_bounds(r: int)
    requires
        0 <= r <= HALF_TURN,
    ensures
        0 <= r * (HALF_TURN - r) <= 262144,
{
    assert(0 <= r * (1024 - r) <= 262144) by (nonlinear_arith)
        requires
            0 <= r <= 1024,
    ;
}

/// The sine always lies between `-TRIG_ONE` and `TRIG_ONE`.
pub proof fn lemma_sin_fp_bounds(a: int)
    ensures
        -(TRIG_ONE as int) <= sin_fp(a) <= TRIG_ONE as int,
{
    let r = a % (TURN as int);
    if r < HALF_TURN {
        lemma_parabola_bounds(r);
    } else {
        lemma_parabola_bounds(TURN - r);
        assert((r - HALF_TURN) * (TURN - r) == (TURN - r) * (HALF_TURN - (TURN - r)))
            by (nonlinear_arith);
    }
}

/// The sine is periodic with period `TURN`, exactly.
pub proof fn lemma_sin_fp_periodic(a: int)
    ensures
        sin_fp(a + TURN) == sin_fp(a),
{
    lemma_mod_add_multiples_vanish(a, TURN as int);
}

/// Computes `sin_fp` on machine integers.
pub fn sin_q(a: i64) -> (r: i64)
    requires
        -0x4000_0000_0000_0000 < a < 0x4000_0000_0000_0000,
    ensures
        r == sin_fp(a as int),
        -TRIG_ONE <= r <= TRIG_ONE,
{
    let red: i64 = mod_floor(a, TURN);
    if red < HALF_TURN {
        proof {
            lemma_parabola_bounds(red as int);
        }
        red * (HALF_TURN - red) / 256
    } else {
        proof {
            lemma_parabola_bounds((TURN - red) as int);
            assert((red - HALF_TURN) * (TURN - red) == (TURN - red) * (HALF_TURN - (TURN - red)))
                by (nonlinear_arith);
        }
        -((red - HALF_TURN) * (TURN - red) / 256)
    }
}

/// Computes `cos_fp` on machine integers.
pub fn cos_q(a: i64) -> (r: i64)
    requires
        -0x4000_0000_0000_0000 < a < 0x3000_0000_0000_0000,
    ensures
        r == cos_fp(a as int),
        -TRIG_ONE <= r <= TRIG_ONE,
{
    sin_q(a + QUARTER_TURN)
}

} // verus!
