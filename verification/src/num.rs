//! Fixed-point arithmetic: the scale, floor division, and an integer square
//! root, with the spec-level square root that contracts are written over.

use vstd::arithmetic::div_mod::{
    lemma_div_pos_is_pos, lemma_fundamental_div_mod, lemma_mod_division_less_than_divisor,
    lemma_mod_self_0,
};
use vstd::prelude::*;

verus! {

/// Subunits per world unit: every coordinate, length and scalar of the engine
/// is an `i64` count of subunits at this scale.
pub const SCALE: i64 = 10_000_000;

/// Holds when `r` is the floor of the square root of `n`.
pub open spec fn is_isqrt(n: int, r: int) -> bool {
    0 <= r && r * r <= n && n < (r + 1) * (r + 1)
}

/// The floor of the square root of `n`; zero for negative `n`.
pub open spec fn sqrt_floor(n: int) -> int {
    if n < 0 {
        0
    } else {
        choose|r: int| is_isqrt(n, r)
    }
}

/// Every nonnegative integer has a floor square root.
pub proof fn lemma_isqrt_exists(n: int)
    requires
        n >= 0,
    ensures
        exists|r: int| is_isqrt(n, r),
    decreases n,
{
    if n == 0 {
        assert(is_isqrt(0, 0));
    } else {
        let m = n - 1;
        lemma_isqrt_exists(m);
        let r = choose|r: int| is_isqrt(m, r);
        if (r + 1) * (r + 1) <= n {
            assert(n < (r + 2) * (r + 2)) by (nonlinear_arith)
                requires
                    n - 1 < (r + 1) * (r + 1),
                    0 <= r,
            ;
            assert(is_isqrt(n, r + 1));
        } else {
            assert(is_isqrt(n, r));
        }
    }
}

/// The floor square root is unique.
pub proof fn lemma_isqrt_unique(n: int, r1: int, r2: int)
    requires
        is_isqrt(n, r1),
        is_isqrt(n, r2),
    ensures
        r1 == r2,
{
    assert(r1 == r2) by (nonlinear_arith)
        requires
            0 <= r1,
            r1 * r1 <= n,
            n < (r1 + 1) * (r1 + 1),
            0 <= r2,
            r2 * r2 <= n,
            n < (r2 + 1) * (r2 + 1),
    ;
}

/// `sqrt_floor` meets its defining property on nonnegative arguments.
pub proof fn lemma_sqrt_floor_correct(n: int)
    requires
        n >= 0,
    ensures
        is_isqrt(n, sqrt_floor(n)),
{
    lemma_isqrt_exists(n);
}

/// The floor square root is monotone.
pub proof fn lemma_sqrt_floor_monotone(m: int, n: int)
    requires
        0 <= m <= n,
    ensures
        sqrt_floor(m) <= sqrt_floor(n),
{
    lemma_sqrt_floor_correct(m);
    lemma_sqrt_floor_correct(n);
    let r1 = sqrt_floor(m);
    let r2 = sqrt_floor(n);
    assert(r1 <= r2) by (nonlinear_arith)
        requires
            0 <= r1,
            r1 * r1 <= m,
            0 <= r2,
            n < (r2 + 1) * (r2 + 1),
            m <= n,
    ;
}

/// The floor square root of a perfect square `a * a` is `a` itself.
pub proof fn lemma_sqrt_floor_of_square(a: int)
    requires
        a >= 0,
    ensures
        sqrt_floor(a * a) == a,
{
    assert(is_isqrt(a * a, a)) by (nonlinear_arith)
        requires
            a >= 0,
    ;
    lemma_sqrt_floor_correct(a * a);
    lemma_isqrt_unique(a * a, sqrt_floor(a * a), a);
}

/// Floor square root of `n`, by binary search on the answer.
pub fn isqrt_u128(n: u128) -> (r: u64)
    ensures
        is_isqrt(n as int, r as int),
        r == sqrt_floor(n as int),
{
    let mut lo: u128 = 0;
    let mut hi: u128 = 0x1_0000_0000_0000_0000;
    while lo + 1 < hi
        invariant
            lo < hi,
            hi <= 0x1_0000_0000_0000_0000,
            (lo as int) * (lo as int) <= n as int,
            (n as int) < (hi as int) * (hi as int),
        decreases hi - lo,
    {
        let mid = lo + (hi - lo) / 2;
        proof {
            assert((mid as int) * (mid as int) <= u128::MAX) by (nonlinear_arith)
                requires
                    0 <= mid < 0x1_0000_0000_0000_0000,
            ;
        }
        if mid * mid <= n {
            lo = mid;
        } else {
            hi = mid;
        }
    }
    proof {
        assert(is_isqrt(n as int, lo as int));
        lemma_sqrt_floor_correct(n as int);
        lemma_isqrt_unique(n as int, sqrt_floor(n as int), lo as int);
    }
    lo as u64
}

/// Floor division (the quotient rounds toward negative infinity), the
/// engine's rounding policy for every fixed-point division.
pub fn div_floor(a: i128, b: i128) -> (q: i128)
    requires
        b >= 1,
    ensures
        q == (a as int) / (b as int),
{
    proof {
        lemma_div_in_range(a as int, b as int);
    }
    match a.checked_div_euclid(b) {
        Some(q) => q,
        None => unreached(),
    }
}

/// A quotient by a positive divisor lies between the dividend and zero.
pub proof fn lemma_div_in_range(a: int, b: int)
    requires
        b >= 1,
    ensures
        a >= 0 ==> 0 <= a / b <= a,
        a < 0 ==> a <= a / b <= 0,
{
    lemma_fundamental_div_mod(a, b);
    lemma_mod_division_less_than_divisor(a, b);
    lemma_mod_self_0(b);
    let q = a / b;
    let r = a % b;
    if a >= 0 {
        lemma_div_pos_is_pos(a, b);
        assert(q <= a) by (nonlinear_arith)
            requires
                b >= 1,
                q >= 0,
                b * q + r == a,
                r >= 0,
        ;
    } else {
        assert(q <= 0) by (nonlinear_arith)
            requires
                b >= 1,
                b * q + r == a,
                a < 0,
                0 <= r < b,
        ;
        assert(q >= a) by (nonlinear_arith)
            requires
                b >= 1,
                b * q + r == a,
                a < 0,
                0 <= r < b,
        ;
    }
}

/// Dividing `a * b` by `b` gives back `a`, for a positive `b`.
pub proof fn lemma_mul_div_cancel(a: int, b: int)
    requires
        b >= 1,
    ensures
        (a * b) / b == a,
{
    lemma_fundamental_div_mod(a * b, b);
    lemma_mod_division_less_than_divisor(a * b, b);
    let q = (a * b) / b;
    let r = (a * b) % b;
    assert(q == a) by (nonlinear_arith)
        requires
            b >= 1,
            b * q + r == a * b,
            0 <= r < b,
    ;
}

/// Division by a positive divisor is monotone in the dividend.
pub proof fn lemma_div_monotone(x: int, y: int, b: int)
    requires
        x <= y,
        b >= 1,
    ensures
        x / b <= y / b,
{
    lemma_fundamental_div_mod(x, b);
    lemma_fundamental_div_mod(y, b);
    lemma_mod_division_less_than_divisor(x, b);
    lemma_mod_division_less_than_divisor(y, b);
    assert(x / b <= y / b) by (nonlinear_arith)
        requires
            b >= 1,
            b * (x / b) + x % b == x,
            b * (y / b) + y % b == y,
            0 <= x % b < b,
            0 <= y % b < b,
            x <= y,
    ;
}

/// A product bounded on both factors has a bounded quotient: with
/// `|a| <= ca` and `|b| <= cb`, `(a * b) / ca` lies within `[-cb, cb]`.
pub proof fn lemma_scaled_quotient_bound(a: int, b: int, ca: int, cb: int)
    requires
        ca >= 1,
        cb >= 0,
        -ca <= a <= ca,
        -cb <= b <= cb,
    ensures
        -cb <= (a * b) / ca <= cb,
{
    assert(-(ca * cb) <= a * b <= ca * cb) by (nonlinear_arith)
        requires
            ca >= 1,
            cb >= 0,
            -ca <= a <= ca,
            -cb <= b <= cb,
    ;
    lemma_div_monotone(a * b, ca * cb, ca);
    lemma_div_monotone(-(ca * cb), a * b, ca);
    lemma_mul_div_cancel(cb, ca);
    lemma_mul_div_cancel(-cb, ca);
    assert(ca * cb == cb * ca) by (nonlinear_arith);
    assert(-(ca * cb) == (-cb) * ca) by (nonlinear_arith);
}

} // verus!
