//! Integer helpers shared by the simulation: Euclidean remainder and a
//! flooring square root, both with exact contracts.

use vstd::prelude::*;
use vstd::arithmetic::div_mod::{
    lemma_fundamental_div_mod, lemma_mod_bound, lemma_mod_multiples_vanish, lemma_small_mod,
    lemma_div_pos_is_pos,
};
use vstd::math::abs;

verus! {

/// Remainder of `a` modulo `m` in `[0, m)`, matching the mathematical
/// (Euclidean) remainder that spec arithmetic uses.
pub fn euclid_mod(a: i64, m: i64) -> (r: i64)
    requires
        1 <= m,
        i64::MIN < a,
    ensures
        r == a as int % m as int,
        0 <= r < m,
{
    if a >= 0 {
        a % m
    } else {
        let t = (-a) % m;
        proof {
            let na = (-a) as int;
            let mi = m as int;
            lemma_fundamental_div_mod(na, mi);
            let q = na / mi;
            assert(a as int == mi * (-q) + (-(t as int))) by (nonlinear_arith)
                requires
                    na == mi * q + t,
                    a as int == -na,
            ;
            if t == 0 {
                lemma_mod_multiples_vanish(-q, 0, mi);
                lemma_small_mod(0, mi as nat);
            } else {
                assert(a as int == mi * (-q - 1) + (mi - t)) by (nonlinear_arith)
                    requires
                        a as int == mi * (-q) + (-(t as int)),
                ;
                lemma_mod_multiples_vanish(-q - 1, mi - t, mi);
                lemma_small_mod((mi - t) as nat, mi as nat);
            }
        }
        if t == 0 {
            0
        } else {
            m - t
        }
    }
}

/// Division as Rust's `/` computes it on signed integers: the quotient
/// rounded toward zero.
pub open spec fn div_trunc(a: int, b: int) -> int
    recommends
        b > 0,
{
    if a >= 0 {
        a / b
    } else {
        -((-a) / b)
    }
}

/// The flooring square root, as a mathematical function.
pub open spec fn floor_sqrt(n: int) -> int
    recommends
        n >= 0,
    decreases n,
{
    if n <= 0 {
        0
    } else {
        let p = floor_sqrt(n - 1);
        if (p + 1) * (p + 1) <= n {
            p + 1
        } else {
            p
        }
    }
}

pub proof fn lemma_floor_sqrt_bounds(n: int)
    requires
        n >= 0,
    ensures
        floor_sqrt(n) >= 0,
        floor_sqrt(n) * floor_sqrt(n) <= n < (floor_sqrt(n) + 1) * (floor_sqrt(n) + 1),
    decreases n,
{
    if n > 0 {
        lemma_floor_sqrt_bounds(n - 1);
        let p = floor_sqrt(n - 1);
        if (p + 1) * (p + 1) <= n {
            assert(n < (p + 2) * (p + 2)) by (nonlinear_arith)
                requires
                    p >= 0,
                    n - 1 < (p + 1) * (p + 1),
            ;
        }
    }
}

/// The two-sided bound pins the flooring square root down.
pub proof fn lemma_floor_sqrt_unique(n: int, r: int)
    requires
        n >= 0,
        r >= 0,
        r * r <= n < (r + 1) * (r + 1),
    ensures
        r == floor_sqrt(n),
{
    lemma_floor_sqrt_bounds(n);
    let q = floor_sqrt(n);
    assert(r == q) by (nonlinear_arith)
        requires
            r >= 0,
            q >= 0,
            r * r <= n < (r + 1) * (r + 1),
            q * q <= n < (q + 1) * (q + 1),
    ;
}

/// Truncating division never overstates the quotient: scaled back by the
/// divisor it stays within the dividend.
pub proof fn lemma_div_trunc_scale(n: int, d: int)
    requires
        1 <= d,
    ensures
        abs(div_trunc(n, d)) >= 0,
        abs(div_trunc(n, d)) * d <= abs(n),
{
    if n >= 0 {
        lemma_fundamental_div_mod(n, d);
        lemma_mod_bound(n, d);
        lemma_div_pos_is_pos(n, d);
        let q = n / d;
        assert(q * d <= n) by (nonlinear_arith)
            requires
                n == d * q + n % d,
                n % d >= 0,
        ;
    } else {
        lemma_fundamental_div_mod(-n, d);
        lemma_mod_bound(-n, d);
        lemma_div_pos_is_pos(-n, d);
        let q = (-n) / d;
        assert(q * d <= -n) by (nonlinear_arith)
            requires
                -n == d * q + (-n) % d,
                (-n) % d >= 0,
        ;
    }
}

/// The flooring square root is monotone.
pub proof fn lemma_floor_sqrt_monotone(a: int, b: int)
    requires
        0 <= a <= b,
    ensures
        floor_sqrt(a) <= floor_sqrt(b),
{
    lemma_floor_sqrt_bounds(a);
    lemma_floor_sqrt_bounds(b);
    let ra = floor_sqrt(a);
    let rb = floor_sqrt(b);
    assert(ra <= rb) by (nonlinear_arith)
        requires
            ra >= 0,
            rb >= 0,
            ra * ra <= a,
            a <= b,
            b < (rb + 1) * (rb + 1),
    ;
}

/// The flooring square root of a perfect square.
pub proof fn lemma_floor_sqrt_square(x: int)
    requires
        x >= 0,
    ensures
        floor_sqrt(x * x) == x,
{
    assert(x * x < (x + 1) * (x + 1)) by (nonlinear_arith)
        requires
            x >= 0,
    ;
    lemma_floor_sqrt_unique(x * x, x);
}

/// Flooring square root: the greatest `r` with `r * r <= n`.
pub fn isqrt(n: u64) -> (r: u64)
    ensures
        r * r <= n < (r + 1) * (r + 1),
        r == floor_sqrt(n as int),
{
    let mut lo: u64 = 0;
    let mut hi: u64 = 4294967296;
    while lo + 1 < hi
        invariant
            lo < hi <= 4294967296,
            lo * lo <= n,
            n < hi * hi,
        decreases hi - lo,
    {
        let mid: u64 = lo + (hi - lo) / 2;
        proof {
            assert((mid as int) * (mid as int) <= 0x10000000000000000) by (nonlinear_arith)
                requires
                    0 <= mid as int <= 0x100000000,
            ;
        }
        if (mid as u128) * (mid as u128) <= n as u128 {
            lo = mid;
        } else {
            hi = mid;
        }
    }
    proof {
        lemma_floor_sqrt_unique(n as int, lo as int);
    }
    lo
}

} // verus!
