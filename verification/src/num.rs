//! Integer helpers shared by the whole pipeline: floor division and
//! remainder with a positive divisor, clamping, and an integer square root.

use vstd::prelude::*;
use vstd::arithmetic::div_mod::lemma_fundamental_div_mod;
use vstd::arithmetic::div_mod::lemma_fundamental_div_mod_converse;
use vstd::arithmetic::mul::lemma_mul_upper_bound;
use vstd::arithmetic::div_mod::lemma_div_is_ordered;
use vstd::arithmetic::div_mod::lemma_div_multiples_vanish;

verus! {

/// A product of factors bounded in magnitude is bounded in magnitude.
pub proof fn lemma_mul_abs_bound(a: int, b: int, ma: int, mb: int)
    by (nonlinear_arith)
    requires
        -ma <= a <= ma,
        -mb <= b <= mb,
    ensures
        -(ma * mb) <= a * b <= ma * mb,
{
}

/// A quotient with a positive divisor stays between the quotients of any
/// two enclosing multiples of the divisor.
pub proof fn lemma_div_range(a: int, b: int, lo: int, hi: int)
    requires
        0 < b,
        lo * b <= a <= hi * b,
    ensures
        lo <= a / b <= hi,
{
    lemma_div_is_ordered(lo * b, a, b);
    lemma_div_is_ordered(a, hi * b, b);
    assert(lo * b == b * lo) by (nonlinear_arith);
    assert(hi * b == b * hi) by (nonlinear_arith);
    lemma_div_multiples_vanish(lo, b);
    lemma_div_multiples_vanish(hi, b);
}

/// The mathematical clamp of `v` to the closed interval `[lo, hi]`.
pub open spec fn clamp_s(v: int, lo: int, hi: int) -> int {
    if v < lo {
        lo
    } else if v > hi {
        hi
    } else {
        v
    }
}

/// A quotient with a positive divisor never grows in magnitude and never
/// changes sign.
pub proof fn lemma_div_magnitude(a: int, b: int)
    requires
        0 < b,
    ensures
        a >= 0 ==> 0 <= a / b <= a,
        a <= 0 ==> a <= a / b <= 0,
{
    if a >= 0 {
        assert(a <= a * b) by (nonlinear_arith)
            requires
                a >= 0 && b >= 1,
        ;
        assert(0 * b == 0) by (nonlinear_arith);
        lemma_div_range(a, b, 0, a);
    } else {
        assert(a * b <= a) by (nonlinear_arith)
            requires
                a <= 0 && b >= 1,
        ;
        assert(0 * b == 0) by (nonlinear_arith);
        lemma_div_range(a, b, a, 0);
    }
}

/// Floor division by a positive divisor; agrees with the mathematical
/// (Euclidean) `/` of the specification language.
pub fn div_floor(a: i64, b: i64) -> (r: i64)
    requires
        0 < b,
        -0x4000_0000_0000_0000 < a < 0x4000_0000_0000_0000,
    ensures
        r == a as int / b as int,
{
    if a >= 0 {
        let q: i64 = a / b;
        q
    } else {
        let m: i64 = -a;
        let q0: i64 = m / b;
        let rem: i64 = m % b;
        proof {
            lemma_fundamental_div_mod(m as int, b as int);
            assert(m == b * (m as int / b as int) + m as int % b as int);
            assert((-(q0 as int)) * (b as int) == -(b as int * q0 as int)) by (nonlinear_arith);
            assert((-(q0 as int) - 1) * (b as int) == -(b as int * q0 as int) - b as int)
                by (nonlinear_arith);
        }
        if rem == 0 {
            proof {
                lemma_fundamental_div_mod_converse(a as int, b as int, -(q0 as int), 0);
            }
            -q0
        } else {
            proof {
                lemma_fundamental_div_mod_converse(
                    a as int,
                    b as int,
                    -(q0 as int) - 1,
                    b - rem,
                );
            }
            -q0 - 1
        }
    }
}

/// Euclidean remainder by a positive divisor; agrees with the mathematical
/// `%` of the specification language, so the result always lies in `[0, b)`.
pub fn mod_floor(a: i64, b: i64) -> (r: i64)
    requires
        0 < b < 0x4000_0000_0000_0000,
        -0x4000_0000_0000_0000 < a < 0x4000_0000_0000_0000,
    ensures
        r == a as int % b as int,
        0 <= r < b,
{
    let q: i64 = div_floor(a, b);
    proof {
        lemma_fundamental_div_mod(a as int, b as int);
    }
    a - b * q
}

/// Clamps `v` to the closed interval `[lo, hi]`.
pub fn clamp_i64(v: i64, lo: i64, hi: i64) -> (r: i64)
    requires
        lo <= hi,
    ensures
        r == clamp_s(v as int, lo as int, hi as int),
        lo <= r <= hi,
{
    if v < lo {
        lo
    } else if v > hi {
        hi
    } else {
        v
    }
}

/// The integer square root of a nonnegative number: the unique `r >= 0`
/// with `r * r <= n < (r + 1) * (r + 1)`.
pub open spec fn sqrt_floor_s(n: int) -> int {
    choose|r: int| 0 <= r && #[trigger] (r * r) <= n && n < (r + 1) * (r + 1)
}

/// Any nonnegative `r` whose square encloses `n` is the integer square
/// root of `n`.
pub proof fn lemma_sqrt_floor_unique(n: int, r: int)
    requires
        0 <= r,
        r * r <= n,
        n < (r + 1) * (r + 1),
    ensures
        sqrt_floor_s(n) == r,
{
    assert(exists|q: int| 0 <= q && #[trigger] (q * q) <= n && n < (q + 1) * (q + 1)) by {
        assert(0 <= r && r * r <= n && n < (r + 1) * (r + 1));
    }
    let c = sqrt_floor_s(n);
    assert(0 <= c && c * c <= n && n < (c + 1) * (c + 1));
    assert(c == r) by (nonlinear_arith)
        requires
            0 <= r,
            r * r <= n,
            n < ((r + 1) * (r + 1)),
            0 <= c,
            c * c <= n,
            n < ((c + 1) * (c + 1)),
    ;
}

/// The integer square root: the largest `r` with `r * r <= n`.
pub fn isqrt(n: u64) -> (r: u64)
    ensures
        r * r <= n < (r + 1) * (r + 1),
        r == sqrt_floor_s(n as int),
{
    let mut lo: u64 = 0;
    let mut hi: u64 = 0x1_0000_0000;
    proof {
        assert((0x1_0000_0000u64 as int) * (0x1_0000_0000u64 as int) > u64::MAX as int)
            by (nonlinear_arith);
    }
    while hi - lo > 1
        invariant
            lo < hi <= 0x1_0000_0000,
            lo * lo <= n,
            n < hi * hi,
        decreases hi - lo,
    {
        let mid: u64 = lo + (hi - lo) / 2;
        proof {
            lemma_mul_upper_bound(mid as int, 0xffff_ffff, mid as int, 0xffff_ffff);
        }
        let sq: u64 = mid * mid;
        if sq <= n {
            lo = mid;
        } else {
            hi = mid;
        }
    }
    proof {
        lemma_sqrt_floor_unique(n as int, lo as int);
    }
    lo
}

} // verus!
