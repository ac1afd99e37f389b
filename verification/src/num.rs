//! Scalar arithmetic for the fixed-point simulation: truncating division
//! (the rounding that machine integer division performs) and integer square
//! roots, with the facts about them that the physics proofs lean on.

use vstd::prelude::*;
use vstd::arithmetic::div_mod::{
    lemma_div_nonincreasing, lemma_div_pos_is_pos, lemma_fundamental_div_mod,
    lemma_mod_division_less_than_divisor,
};

verus! {

/// Quotient of `a` by `b` rounded toward zero, the rounding of the
/// executable `/` on the machine integer types; meaningful for `b > 0`.
pub open spec fn tdiv(a: int, b: int) -> int {
    if a >= 0 {
        a / b
    } else {
        -((-a) / b)
    }
}

/// Truncation never overshoots the exact quotient in magnitude and
/// undershoots it by less than one whole `b`.
pub proof fn lemma_tdiv(a: int, b: int)
    requires
        1 <= b,
    ensures
        0 <= a ==> 0 <= tdiv(a, b) <= a && b * tdiv(a, b) <= a < b * (tdiv(a, b) + 1),
        a < 0 ==> a <= tdiv(a, b) <= 0 && b * (tdiv(a, b) - 1) < a <= b * tdiv(a, b),
{
    if 0 <= a {
        lemma_fundamental_div_mod(a, b);
        lemma_mod_division_less_than_divisor(a, b);
        lemma_div_pos_is_pos(a, b);
        lemma_div_nonincreasing(a, b);
        let q = a / b;
        assert(b * (q + 1) == b * q + b) by (nonlinear_arith);
    } else {
        lemma_fundamental_div_mod(-a, b);
        lemma_mod_division_less_than_divisor(-a, b);
        lemma_div_pos_is_pos(-a, b);
        lemma_div_nonincreasing(-a, b);
        let q = (-a) / b;
        assert(b * (-q) == -(b * q)) by (nonlinear_arith);
        assert(b * (-q - 1) == -(b * q) - b) by (nonlinear_arith);
    }
}

/// Scaling the quotient back up by the divisor stays within the magnitude
/// of the dividend: `|b * tdiv(a, b)| <= |a|`.
pub proof fn lemma_tdiv_mul_bound(a: int, b: int)
    requires
        1 <= b,
    ensures
        0 <= a ==> 0 <= b * tdiv(a, b) <= a,
        a < 0 ==> a <= b * tdiv(a, b) <= 0,
{
    lemma_tdiv(a, b);
    if 0 <= a {
        assert(0 <= b * tdiv(a, b)) by (nonlinear_arith)
            requires 1 <= b && 0 <= tdiv(a, b);
    } else {
        assert(b * tdiv(a, b) <= 0) by (nonlinear_arith)
            requires 1 <= b && tdiv(a, b) <= 0;
    }
}

/// A quotient is bounded by `m` whenever its dividend is bounded by `b * m`.
pub proof fn lemma_tdiv_bounded(a: int, b: int, m: int)
    requires
        1 <= b,
        0 <= m,
        -(b * m) <= a <= b * m,
    ensures
        -m <= tdiv(a, b) <= m,
{
    lemma_tdiv(a, b);
    if 0 <= a {
        assert(tdiv(a, b) <= m) by (nonlinear_arith)
            requires 1 <= b && b * tdiv(a, b) <= b * m;
    } else {
        assert(-m <= tdiv(a, b)) by (nonlinear_arith)
            requires 1 <= b && -(b * m) <= b * tdiv(a, b);
    }
}

/// Interval bound for a product: `|a| <= p` and `|b| <= q` give
/// `|a * b| <= p * q`.
pub proof fn lemma_mul_interval(a: int, b: int, p: int, q: int)
    requires
        -p <= a <= p,
        -q <= b <= q,
    ensures
        -(p * q) <= a * b <= p * q,
{
    assert(-(p * q) <= a * b <= p * q) by (nonlinear_arith)
        requires -p <= a <= p && -q <= b <= q;
}

/// Multiplication commutes; stated for terms the linear solver keeps
/// apart.
pub proof fn lemma_mul_comm(a: int, b: int)
    ensures
        a * b == b * a,
{
    assert(a * b == b * a) by (nonlinear_arith);
}

/// A factor `s` between `0` and `-2q` scales a bounded product `q * c`
/// to at most twice its bound.
pub proof fn lemma_scale_bound(s: int, q: int, c: int, cap: int)
    requires
        q <= 0,
        0 <= s <= 2 * (-q),
        -cap <= q * c <= cap,
        0 <= cap,
    ensures
        -(2 * cap) <= s * c <= 2 * cap,
{
    assert(-(2 * cap) <= s * c <= 2 * cap) by (nonlinear_arith)
        requires
            q <= 0 && 0 <= s <= 2 * (-q) && -cap <= q * c <= cap && 0 <= cap;
}

/// A number and its negation have the same square.
pub proof fn lemma_abs_sq(a: int)
    ensures
        (-a) * (-a) == a * a,
{
    assert((-a) * (-a) == a * a) by (nonlinear_arith);
}

/// Truncating division of machine integers, `b > 0`.
pub fn div_tr(a: i128, b: i128) -> (r: i128)
    requires
        1 <= b,
    ensures
        r == tdiv(a as int, b as int),
{
    proof {
        lemma_tdiv(a as int, b as int);
    }
    let q: Option<i128> = a.checked_div(b);
    q.unwrap()
}

/// Floor of the square root of a nonnegative integer.
pub open spec fn sqrt_down(n: int) -> int {
    choose|r: int| 0 <= r && #[trigger] (r * r) <= n && n < (r + 1) * (r + 1)
}

/// Ceiling of the square root of a nonnegative integer.
pub open spec fn sqrt_up(n: int) -> int {
    if sqrt_down(n) * sqrt_down(n) == n {
        sqrt_down(n)
    } else {
        sqrt_down(n) + 1
    }
}

/// `sqrt_down(n)` is what its name says: the largest integer whose square
/// is at most `n`.
pub proof fn lemma_sqrt_down(n: int)
    requires
        0 <= n,
    ensures
        0 <= sqrt_down(n),
        sqrt_down(n) * sqrt_down(n) <= n,
        n < (sqrt_down(n) + 1) * (sqrt_down(n) + 1),
    decreases n,
{
    if n == 0 {
        let z: int = 0;
        assert(z * z <= n && n < (z + 1) * (z + 1)) by (nonlinear_arith)
            requires n == 0 && z == 0;
        assert(exists|r: int| 0 <= r && #[trigger] (r * r) <= n && n < (r + 1) * (r + 1));
    } else {
        lemma_sqrt_down(n - 1);
        let p = sqrt_down(n - 1);
        if (p + 1) * (p + 1) <= n {
            let s = p + 1;
            assert(n < (s + 1) * (s + 1)) by (nonlinear_arith)
                requires 0 <= s && s * s <= n && n - 1 < s * s;
            assert(0 <= s && s * s <= n && n < (s + 1) * (s + 1));
        } else {
            assert(0 <= p && p * p <= n && n < (p + 1) * (p + 1));
        }
        assert(exists|r: int| 0 <= r && #[trigger] (r * r) <= n && n < (r + 1) * (r + 1));
    }
}

/// Squaring keeps the order of nonnegative integers.
pub proof fn lemma_sq_le(x: int, y: int)
    requires
        0 <= x <= y,
    ensures
        x * x <= y * y,
{
    assert(x * x <= y * y) by (nonlinear_arith)
        requires 0 <= x <= y;
}

/// Any nonnegative `m` with `m * m <= n` is at most `sqrt_down(n)`.
pub proof fn lemma_sqrt_down_is_max(n: int, m: int)
    requires
        0 <= n,
        0 <= m,
        m * m <= n,
    ensures
        m <= sqrt_down(n),
{
    lemma_sqrt_down(n);
    if m > sqrt_down(n) {
        lemma_sq_le(sqrt_down(n) + 1, m);
    }
}

/// Any nonnegative `m` with `n <= m * m` is at least `sqrt_up(n)`.
pub proof fn lemma_sqrt_up_is_min(n: int, m: int)
    requires
        0 <= n,
        0 <= m,
        n <= m * m,
    ensures
        sqrt_up(n) <= m,
{
    lemma_sqrt_down(n);
    let s = sqrt_down(n);
    if m < sqrt_up(n) {
        if s * s == n {
            lemma_sq_le(m, s - 1);
            assert((s - 1) * (s - 1) < s * s) by (nonlinear_arith)
                requires 1 <= s;
        } else {
            lemma_sq_le(m, s);
        }
    }
}

/// The ceiling square root squared covers `n`, and it exceeds the floor
/// square root by at most one.
pub proof fn lemma_sqrt_up(n: int)
    requires
        0 <= n,
    ensures
        0 <= sqrt_up(n),
        n <= sqrt_up(n) * sqrt_up(n),
        sqrt_down(n) <= sqrt_up(n) <= sqrt_down(n) + 1,
{
    lemma_sqrt_down(n);
}

/// Largest `r` with `r * r <= n`, by bisection.
pub fn isqrt(n: i128) -> (r: i128)
    requires
        0 <= n < 0x10000000000000000000000000000000,
    ensures
        r == sqrt_down(n as int),
        0 <= r <= 0x4000000000000000,
        r * r <= n,
{
    let mut lo: i128 = 0;
    let mut hi: i128 = 0x4000000000000000;
    while lo + 1 < hi
        invariant
            0 <= lo < hi <= 0x4000000000000000,
            lo * lo <= n,
            n < hi * hi,
        decreases hi - lo,
    {
        let mid: i128 = lo + (hi - lo) / 2;
        proof {
            assert(lo < mid < hi);
            assert(mid * mid < 0x10000000000000000000000000000000) by (nonlinear_arith)
                requires 0 <= mid < 0x4000000000000000;
        }
        if mid * mid <= n {
            lo = mid;
        } else {
            hi = mid;
        }
    }
    proof {
        lemma_sqrt_down(n as int);
        let s = sqrt_down(n as int);
        if s < lo {
            lemma_sq_le(s + 1, lo as int);
        }
        if s > lo {
            lemma_sq_le(lo + 1, s);
        }
    }
    lo
}

/// Smallest `r` with `n <= r * r`, by bisection.
pub fn isqrt_up(n: i128) -> (r: i128)
    requires
        0 <= n < 0x10000000000000000000000000000000,
    ensures
        r == sqrt_up(n as int),
        0 <= r <= 0x4000000000000001,
        n <= r * r,
{
    proof {
        lemma_sqrt_down(n as int);
        lemma_sqrt_up(n as int);
    }
    let s: i128 = isqrt(n);
    if s * s == n {
        s
    } else {
        s + 1
    }
}

} // verus!
