//! Scalar fixed-point arithmetic: truncating and flooring division helpers
//! and an integer square root, with exact contracts.

use vstd::arithmetic::div_mod::{
    lemma_div_is_ordered, lemma_div_multiples_vanish, lemma_div_of0, lemma_fundamental_div_mod,
    lemma_mod_division_less_than_divisor,
};
use vstd::prelude::*;

verus! {

/// Quotient rounded toward zero, the rounding Rust's `/` performs on machine
/// integers. Spec-level `/` is Euclidean, so the negative case is spelled out.
pub open spec fn div_trunc(a: int, d: int) -> int {
    if a >= 0 {
        a / d
    } else {
        -((-a) / d)
    }
}

/// A Euclidean quotient by a positive divisor lies between 0 and the dividend.
pub proof fn lemma_div_floor_bounds(a: int, d: int)
    requires
        d >= 1,
    ensures
        a >= 0 ==> 0 <= a / d <= a,
        a < 0 ==> a <= a / d <= 0,
{
    let q = a / d;
    let r = a % d;
    lemma_fundamental_div_mod(a, d);
    lemma_mod_division_less_than_divisor(a, d);
    assert(a >= 0 ==> 0 <= q <= a) by (nonlinear_arith)
        requires
            a == q * d + r,
            0 <= r < d,
            d >= 1,
    ;
    assert(a < 0 ==> a <= q <= 0) by (nonlinear_arith)
        requires
            a == q * d + r,
            0 <= r < d,
            d >= 1,
    ;
}

/// Truncating division never grows the magnitude of the dividend.
pub proof fn lemma_div_trunc_bounds(a: int, d: int)
    requires
        d >= 1,
    ensures
        a >= 0 ==> 0 <= div_trunc(a, d) <= a,
        a < 0 ==> a <= div_trunc(a, d) <= 0,
{
    if a >= 0 {
        lemma_div_floor_bounds(a, d);
    } else {
        lemma_div_floor_bounds(-a, d);
    }
}

/// If the dividend is within `c * d` of zero, the truncated quotient is
/// within `c` of zero.
pub proof fn lemma_div_trunc_mag(a: int, d: int, c: int)
    requires
        d >= 1,
        c >= 0,
        -(c * d) <= a <= c * d,
    ensures
        -c <= div_trunc(a, d) <= c,
{
    lemma_div_multiples_vanish(c, d);
    assert(c * d == d * c) by (nonlinear_arith);
    if a >= 0 {
        lemma_div_is_ordered(a, c * d, d);
        lemma_div_floor_bounds(a, d);
        assert(a / d <= (c * d) / d);
        assert(div_trunc(a, d) <= c);
    } else {
        lemma_div_is_ordered(-a, c * d, d);
        lemma_div_floor_bounds(-a, d);
        assert((-a) / d <= (c * d) / d);
        assert(div_trunc(a, d) >= -c);
    }
}

/// Componentwise magnitude bound for a scaled product: if `a` and `b` stay
/// within `ca` and `cb`, then `a * b / d` stays within `ca * cb / d + 1`.
pub proof fn lemma_mul_div_trunc_mag(a: int, b: int, d: int, ca: int, cb: int)
    requires
        d >= 1,
        0 <= ca,
        0 <= cb,
        -ca <= a <= ca,
        -cb <= b <= cb,
    ensures
        -((ca * cb) / d + 1) <= div_trunc(a * b, d) <= (ca * cb) / d + 1,
{
    let c = (ca * cb) / d + 1;
    assert(-(ca * cb) <= a * b <= ca * cb && 0 <= ca * cb) by (nonlinear_arith)
        requires
            0 <= ca,
            0 <= cb,
            -ca <= a <= ca,
            -cb <= b <= cb,
    ;
    lemma_fundamental_div_mod(ca * cb, d);
    lemma_mod_division_less_than_divisor(ca * cb, d);
    assert(ca * cb <= c * d && c >= 1) by (nonlinear_arith)
        requires
            ca * cb == d * ((ca * cb) / d) + (ca * cb) % d,
            0 <= (ca * cb) % d < d,
            0 <= ca * cb,
            d >= 1,
            c == (ca * cb) / d + 1,
    ;
    lemma_div_trunc_mag(a * b, d, c);
}

/// Quotient rounded toward zero, for a positive divisor.
pub fn div_trunc_i64(a: i64, d: i64) -> (r: i64)
    requires
        d >= 1,
    ensures
        r as int == div_trunc(a as int, d as int),
{
    proof {
        lemma_div_of0(d as int);
        lemma_div_trunc_bounds(a as int, d as int);
        if a < 0 {
            lemma_div_floor_bounds(-(a as int), d as int);
        }
    }
    let q = a.checked_div(d);
    q.unwrap()
}

/// `a * b / d` rounded toward zero, the product taken exactly.
pub fn mul_div_trunc(a: i64, b: i64, d: i64) -> (r: i64)
    requires
        d >= 1,
        i64::MIN <= div_trunc(a as int * b as int, d as int) <= i64::MAX,
    ensures
        r as int == div_trunc(a as int * b as int, d as int),
{
    let a_w: i128 = a as i128;
    let b_w: i128 = b as i128;
    proof {
        assert(i128::MIN <= (a_w as int) * (b_w as int) <= i128::MAX) by (nonlinear_arith)
            requires
                i64::MIN <= a_w <= i64::MAX,
                i64::MIN <= b_w <= i64::MAX,
        ;
    }
    let p: i128 = a_w * b_w;
    proof {
        lemma_div_of0(d as int);
        lemma_div_trunc_bounds(p as int, d as int);
        if p < 0 {
            lemma_div_floor_bounds(-(p as int), d as int);
        }
    }
    let q = p.checked_div(d as i128);
    q.unwrap() as i64
}

/// Euclidean (floor, for a positive divisor) quotient.
pub fn div_floor(a: i64, d: i64) -> (r: i64)
    requires
        d >= 1,
    ensures
        r as int == a as int / d as int,
{
    proof {
        lemma_div_floor_bounds(a as int, d as int);
    }
    let q = a.checked_div_euclid(d);
    q.unwrap()
}

/// Like `mul_div_trunc`, but the divisor may be any positive `u64`.
pub fn mul_div_trunc_wide(a: i64, b: i64, d: u64) -> (r: i64)
    requires
        d >= 1,
        i64::MIN <= div_trunc(a as int * b as int, d as int) <= i64::MAX,
    ensures
        r as int == div_trunc(a as int * b as int, d as int),
{
    let a_w: i128 = a as i128;
    let b_w: i128 = b as i128;
    proof {
        assert(i128::MIN <= (a_w as int) * (b_w as int) <= i128::MAX) by (nonlinear_arith)
            requires
                i64::MIN <= a_w <= i64::MAX,
                i64::MIN <= b_w <= i64::MAX,
        ;
    }
    let p: i128 = a_w * b_w;
    proof {
        lemma_div_of0(d as int);
        lemma_div_trunc_bounds(p as int, d as int);
        if p < 0 {
            lemma_div_floor_bounds(-(p as int), d as int);
        }
    }
    let q = p.checked_div(d as i128);
    q.unwrap() as i64
}

/// Floor of the exact square root, as a specification: counts up one step
/// at a time. Zero for a negative argument.
pub open spec fn sqrt_floor(n: int) -> int
    decreases n,
{
    if n <= 0 {
        0
    } else {
        let r = sqrt_floor(n - 1);
        if (r + 1) * (r + 1) <= n {
            r + 1
        } else {
            r
        }
    }
}

/// `sqrt_floor` is exactly the integer square root.
pub proof fn lemma_sqrt_floor_bounds(n: int)
    requires
        n >= 0,
    ensures
        sqrt_floor(n) >= 0,
        sqrt_floor(n) * sqrt_floor(n) <= n,
        n < (sqrt_floor(n) + 1) * (sqrt_floor(n) + 1),
    decreases n,
{
    if n > 0 {
        lemma_sqrt_floor_bounds(n - 1);
        let r = sqrt_floor(n - 1);
        assert(sqrt_floor(n) == if (r + 1) * (r + 1) <= n {
            r + 1
        } else {
            r
        });
        if (r + 1) * (r + 1) <= n {
            assert(n < ((r + 1) + 1) * ((r + 1) + 1)) by (nonlinear_arith)
                requires
                    r >= 0,
                    (n - 1) < (r + 1) * (r + 1),
            ;
        }
    }
}

/// Any integer whose square brackets `n` is `sqrt_floor(n)`.
pub proof fn lemma_sqrt_floor_unique(n: int, r: int)
    requires
        0 <= n,
        0 <= r,
        r * r <= n,
        n < (r + 1) * (r + 1),
    ensures
        r == sqrt_floor(n),
{
    lemma_sqrt_floor_bounds(n);
    let s = sqrt_floor(n);
    if r < s {
        assert(false) by (nonlinear_arith)
            requires
                0 <= r < s,
                s * s <= n,
                n < (r + 1) * (r + 1),
        ;
    }
    if s < r {
        assert(false) by (nonlinear_arith)
            requires
                0 <= s < r,
                r * r <= n,
                n < (s + 1) * (s + 1),
        ;
    }
}

/// The exact square of an `i64`, which always fits an `i128`.
pub fn square_i64(a: i64) -> (r: i128)
    ensures
        r == (a as int) * (a as int),
        r >= 0,
{
    let w: i128 = a as i128;
    proof {
        assert(0 <= w * w <= i128::MAX) by (nonlinear_arith)
            requires
                i64::MIN <= w <= i64::MAX,
        ;
    }
    w * w
}

/// Floor of the exact square root; defined for every `u128`.
pub fn isqrt(n: u128) -> (r: u64)
    ensures
        (r as int) * (r as int) <= n as int,
        (n as int) < ((r as int + 1) * (r as int + 1)),
{
    let mut lo: u128 = 0;
    let mut hi: u128 = 0x1_0000_0000_0000_0000;
    proof {
        assert((n as int) < (hi as int) * (hi as int)) by (nonlinear_arith)
            requires
                hi == 0x1_0000_0000_0000_0000u128,
                n <= u128::MAX,
        ;
    }
    while lo + 1 < hi
        invariant
            lo < hi <= 0x1_0000_0000_0000_0000u128,
            (lo as int) * (lo as int) <= n as int,
            (n as int) < (hi as int) * (hi as int),
        decreases hi - lo,
    {
        let mid: u128 = lo + (hi - lo) / 2;
        proof {
            assert((mid as int) * (mid as int) <= u128::MAX as int) by (nonlinear_arith)
                requires
                    mid < 0x1_0000_0000_0000_0000u128,
            ;
        }
        if mid * mid <= n {
            lo = mid;
        } else {
            hi = mid;
        }
    }
    lo as u64
}

} // verus!
