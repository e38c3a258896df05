//! Fixed-point circular functions on angles in milliradians.
//!
//! The simulation measures angles in milliradians and lengths in
//! milli-units.  `sin_mrad` and `cos_mrad` return the sine and cosine
//! scaled by 1000, computed from an integer rational approximation that
//! is exact at 0, at the quarter turn and at the half turn, and always
//! stays within `[-1000, 1000]`.

use vstd::prelude::*;
use vstd::arithmetic::div_mod::{lemma_fundamental_div_mod, lemma_mod_bound};
use crate::math::euclid_mod;

verus! {

/// One half turn (pi) in milliradians.
pub const PI_MRAD: i64 = 3142;
/// One full turn (two pi) in milliradians.
pub const TWO_PI_MRAD: i64 = 6284;
/// One quarter turn (pi / 2) in milliradians.
pub const HALF_PI_MRAD: i64 = 1571;
/// Sine, scaled by 1000, of an angle in `[0, PI_MRAD]`: the rational
/// approximation `16000 u / (5 pi^2 - 4 u)` with `u = x (pi - x)`,
/// everything in milliradians.
pub open spec fn sin_half_turn(x: int) -> int
    recommends
        0 <= x <= PI_MRAD,
{
    let u = x * (3142 - x);
    (16000 * u) / (49360820 - 4 * u)
}

/// Sine, scaled by 1000, of any angle in milliradians: the angle is
/// reduced to one turn and the second half turn mirrors the first.
pub open spec fn spec_sin_mrad(a: int) -> int {
    let x = a % 6284;
    if x <= 3142 {
        sin_half_turn(x)
    } else {
        -sin_half_turn(x - 3142)
    }
}

/// Cosine, scaled by 1000: the sine a quarter turn ahead.
pub open spec fn spec_cos_mrad(a: int) -> int {
    spec_sin_mrad(a + 1571)
}

fn sin_half_turn_exec(x: i64) -> (r: i64)
    requires
        0 <= x <= PI_MRAD,
    ensures
        r == sin_half_turn(x as int),
        0 <= r <= 1000,
{
    proof {
        assert(0 <= x * (3142 - x) <= 2468041) by (nonlinear_arith)
            requires
                0 <= x as int <= 3142,
        ;
    }
    let u = x * (3142 - x);
    let num = 16000 * u;
    let den = 49360820 - 4 * u;
    let r = num / den;
    proof {
        lemma_fundamental_div_mod(num as int, den as int);
        lemma_mod_bound(num as int, den as int);
        let q = num as int / den as int;
        let md = num as int % den as int;
        assert(0 <= q <= 1000) by (nonlinear_arith)
            requires
                num == den * q + md,
                0 <= md < den,
                0 <= num as int,
                num == 16000 * u,
                den == 49360820 - 4 * (u as int),
                0 <= u as int <= 2468041,
        ;
    }
    r
}

/// The half-turn approximation stays within the scaled unit interval.
pub proof fn lemma_sin_half_turn_range(x: int)
    requires
        0 <= x <= PI_MRAD,
    ensures
        0 <= sin_half_turn(x) <= 1000,
{
    let u = x * (3142 - x);
    assert(0 <= u <= 2468041) by (nonlinear_arith)
        requires
            0 <= x <= 3142,
            u == x * (3142 - x),
    ;
    let num = 16000 * u;
    let den = 49360820 - 4 * u;
    lemma_fundamental_div_mod(num, den);
    lemma_mod_bound(num, den);
    let q = num / den;
    let md = num % den;
    assert(0 <= q <= 1000) by (nonlinear_arith)
        requires
            num == den * q + md,
            0 <= md < den,
            0 <= num,
            num == 16000 * u,
            den == 49360820 - 4 * u,
            0 <= u <= 2468041,
    ;
}

/// The sine of any angle stays within the scaled unit interval.
pub proof fn lemma_sin_unit_range(a: int)
    ensures
        -1000 <= spec_sin_mrad(a) <= 1000,
{
    lemma_mod_bound(a, 6284);
    let x = a % 6284;
    if x <= 3142 {
        lemma_sin_half_turn_range(x);
    } else {
        lemma_sin_half_turn_range(x - 3142);
    }
}

/// Sine, scaled by 1000, of an angle in milliradians.
pub fn sin_mrad(a: i64) -> (r: i64)
    requires
        i64::MIN < a,
    ensures
        r == spec_sin_mrad(a as int),
        -1000 <= r <= 1000,
{
    let x = euclid_mod(a, TWO_PI_MRAD);
    if x <= PI_MRAD {
        sin_half_turn_exec(x)
    } else {
        -sin_half_turn_exec(x - PI_MRAD)
    }
}

/// Cosine, scaled by 1000, of an angle in milliradians.
pub fn cos_mrad(a: i64) -> (r: i64)
    requires
        i64::MIN < a,
        a <= i64::MAX - HALF_PI_MRAD,
    ensures
        r == spec_cos_mrad(a as int),
        -1000 <= r <= 1000,
{
    sin_mrad(a + HALF_PI_MRAD)
}

} // verus!
