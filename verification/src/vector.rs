//! An immutable 2D vector in fixed-point coordinates, with the component-wise
//! arithmetic, the Euclidean length, and normalization.

use crate::num::{
    div_floor, is_isqrt, isqrt_u128, lemma_scaled_quotient_bound, lemma_sqrt_floor_correct,
    lemma_sqrt_floor_monotone, lemma_sqrt_floor_of_square, sqrt_floor, SCALE,
};
use vstd::arithmetic::div_mod::{lemma_fundamental_div_mod, lemma_mod_division_less_than_divisor};
use vstd::prelude::*;

verus! {

/// Coordinates passed to [`Vector::length`] and [`Vector::normalize`] must lie
/// within this bound, so that the sum of squares fits the machine.
pub const LEN_LIMIT: i64 = 0x2000_0000_0000_0000;

/// A 2D point or displacement. Both coordinates are fixed-point: `SCALE`
/// subunits make one world unit.
#[derive(Clone, Copy, PartialEq, Eq, Structural, Debug)]
pub struct Vector {
    pub x: i64,
    pub y: i64,
}

/// Component-wise sum.
pub open spec fn spec_add(a: Vector, b: Vector) -> Vector {
    Vector { x: (a.x + b.x) as i64, y: (a.y + b.y) as i64 }
}

/// Component-wise difference.
pub open spec fn spec_sub(a: Vector, b: Vector) -> Vector {
    Vector { x: (a.x - b.x) as i64, y: (a.y - b.y) as i64 }
}

/// The squared Euclidean length, exactly.
pub open spec fn len_sq(v: Vector) -> int {
    v.x * v.x + v.y * v.y
}

/// The Euclidean length, rounded down to a whole number of subunits.
pub open spec fn spec_len(v: Vector) -> int {
    sqrt_floor(len_sq(v))
}

/// One component of a vector scaled by the fixed-point scalar `k`.
pub open spec fn scale_comp(c: int, k: int) -> int {
    (c * k) / (SCALE as int)
}

/// The vector scaled by the fixed-point scalar `k`.
pub open spec fn spec_scale(v: Vector, k: int) -> Vector {
    Vector { x: scale_comp(v.x as int, k) as i64, y: scale_comp(v.y as int, k) as i64 }
}

/// One component of a vector divided by its length `l`, in fixed point.
pub open spec fn norm_comp(c: int, l: int) -> int {
    if l == 0 {
        0
    } else {
        (c * SCALE) / l
    }
}

/// The vector rescaled to (approximately) unit length. A zero vector stays
/// zero: that is the engine's policy for the degenerate case.
pub open spec fn spec_normalize(v: Vector) -> Vector {
    Vector {
        x: norm_comp(v.x as int, spec_len(v)) as i64,
        y: norm_comp(v.y as int, spec_len(v)) as i64,
    }
}

impl Vector {
    /// Builds the vector with the given fixed-point coordinates.
    pub fn new(x: i64, y: i64) -> (r: Vector)
        ensures
            r == (Vector { x, y }),
    {
        Vector { x, y }
    }

    /// Component-wise addition.
    pub fn add(&self, other: &Vector) -> (r: Vector)
        requires
            i64::MIN <= self.x + other.x <= i64::MAX,
            i64::MIN <= self.y + other.y <= i64::MAX,
        ensures
            r == spec_add(*self, *other),
    {
        Vector { x: self.x + other.x, y: self.y + other.y }
    }

    /// Component-wise subtraction.
    pub fn subtract(&self, other: &Vector) -> (r: Vector)
        requires
            i64::MIN <= self.x - other.x <= i64::MAX,
            i64::MIN <= self.y - other.y <= i64::MAX,
        ensures
            r == spec_sub(*self, *other),
    {
        Vector { x: self.x - other.x, y: self.y - other.y }
    }

    /// Multiplies both coordinates by the fixed-point scalar `number`,
    /// rounding each product down to whole subunits.
    pub fn scale_by(&self, number: i64) -> (r: Vector)
        requires
            i64::MIN <= scale_comp(self.x as int, number as int) <= i64::MAX,
            i64::MIN <= scale_comp(self.y as int, number as int) <= i64::MAX,
        ensures
            r == spec_scale(*self, number as int),
    {
        let a = self.x as i128;
        let b = self.y as i128;
        let k = number as i128;
        proof {
            assert(i128::MIN <= a * k <= i128::MAX && i128::MIN <= b * k <= i128::MAX)
                by (nonlinear_arith)
                requires
                    i64::MIN <= a <= i64::MAX,
                    i64::MIN <= b <= i64::MAX,
                    i64::MIN <= k <= i64::MAX,
            ;
        }
        let px = a * k;
        let py = b * k;
        let qx = div_floor(px, SCALE as i128);
        let qy = div_floor(py, SCALE as i128);
        Vector { x: qx as i64, y: qy as i64 }
    }

    /// The Euclidean length, rounded down to whole subunits.
    pub fn length(&self) -> (r: i64)
        requires
            -LEN_LIMIT <= self.x <= LEN_LIMIT,
            -LEN_LIMIT <= self.y <= LEN_LIMIT,
        ensures
            r == spec_len(*self),
            is_isqrt(len_sq(*self), r as int),
            0 <= r,
    {
        let a = self.x as i128;
        let b = self.y as i128;
        proof {
            assert(0 <= a * a <= 0x2000_0000_0000_0000 * 0x2000_0000_0000_0000 && 0 <= b * b
                <= 0x2000_0000_0000_0000 * 0x2000_0000_0000_0000 && 0 <= a * a + b * b <= 2 * (
            0x2000_0000_0000_0000 * 0x2000_0000_0000_0000)) by (nonlinear_arith)
                requires
                    -0x2000_0000_0000_0000 <= a <= 0x2000_0000_0000_0000,
                    -0x2000_0000_0000_0000 <= b <= 0x2000_0000_0000_0000,
            ;
        }
        let sq = (a * a + b * b) as u128;
        let r = isqrt_u128(sq);
        proof {
            lemma_sqrt_floor_correct(sq as int);
            assert(r < 0x4000_0000_0000_0000) by (nonlinear_arith)
                requires
                    (r as int) * (r as int) <= sq,
                    sq <= 0x2000_0000_0000_0000 * 0x2000_0000_0000_0000 + 0x2000_0000_0000_0000
                        * 0x2000_0000_0000_0000,
                    r >= 0,
            ;
        }
        r as i64
    }

    /// Rescales the vector to unit world length (within rounding). The zero
    /// vector, which has no direction, is returned unchanged.
    pub fn normalize(&self) -> (r: Vector)
        requires
            -LEN_LIMIT <= self.x <= LEN_LIMIT,
            -LEN_LIMIT <= self.y <= LEN_LIMIT,
        ensures
            r == spec_normalize(*self),
            -SCALE <= r.x <= SCALE,
            -SCALE <= r.y <= SCALE,
    {
        let l = self.length();
        if l == 0 {
            proof {
                lemma_norm_comp_bound(self.x as int, l as int);
                lemma_norm_comp_bound(self.y as int, l as int);
            }
            Vector { x: 0, y: 0 }
        } else {
            let a = self.x as i128;
            let b = self.y as i128;
            proof {
                lemma_component_within_length(*self);
                lemma_norm_comp_bound(self.x as int, l as int);
                lemma_norm_comp_bound(self.y as int, l as int);
                assert(i128::MIN <= a * (SCALE as i128) <= i128::MAX && i128::MIN <= b * (
                SCALE as i128) <= i128::MAX) by (nonlinear_arith)
                    requires
                        i64::MIN <= a <= i64::MAX,
                        i64::MIN <= b <= i64::MAX,
                ;
            }
            let nx = div_floor(a * (SCALE as i128), l as i128);
            let ny = div_floor(b * (SCALE as i128), l as i128);
            Vector { x: nx as i64, y: ny as i64 }
        }
    }
}

/// Neither coordinate exceeds the vector's length.
pub proof fn lemma_component_within_length(v: Vector)
    ensures
        -spec_len(v) <= v.x <= spec_len(v),
        -spec_len(v) <= v.y <= spec_len(v),
{
    assert(v.x * v.x <= len_sq(v) && v.y * v.y <= len_sq(v)) by (nonlinear_arith);
    if v.x >= 0 {
        lemma_sqrt_floor_of_square(v.x as int);
        lemma_sqrt_floor_monotone(v.x * v.x, len_sq(v));
    } else {
        lemma_sqrt_floor_of_square(-(v.x as int));
        assert((-(v.x as int)) * (-(v.x as int)) == v.x * v.x) by (nonlinear_arith);
        lemma_sqrt_floor_monotone(v.x * v.x, len_sq(v));
    }
    if v.y >= 0 {
        lemma_sqrt_floor_of_square(v.y as int);
        lemma_sqrt_floor_monotone(v.y * v.y, len_sq(v));
    } else {
        lemma_sqrt_floor_of_square(-(v.y as int));
        assert((-(v.y as int)) * (-(v.y as int)) == v.y * v.y) by (nonlinear_arith);
        lemma_sqrt_floor_monotone(v.y * v.y, len_sq(v));
    }
}

/// A component no larger than the length divides out to at most one world
/// unit: `norm_comp` stays within `[-SCALE, SCALE]`.
pub proof fn lemma_norm_comp_bound(c: int, l: int)
    requires
        l == 0 || (-l <= c <= l && l >= 1),
    ensures
        -SCALE <= norm_comp(c, l) <= SCALE,
{
    if l != 0 {
        lemma_scaled_quotient_bound(c, SCALE as int, l, SCALE as int);
    }
}

/// Adding a vector and subtracting it again gives back the starting point,
/// exactly: fixed-point addition carries no rounding.
pub proof fn lemma_add_subtract_cancel(a: Vector, b: Vector)
    requires
        i64::MIN <= a.x + b.x <= i64::MAX,
        i64::MIN <= a.y + b.y <= i64::MAX,
    ensures
        spec_sub(spec_add(a, b), b) == a,
{
}


/// Normalizing is idempotent in length: a vector of at least one world unit
/// normalizes to a vector whose length is one world unit, within three
/// subunits of rounding.
pub proof fn lemma_normalize_unit_length(v: Vector)
    requires
        spec_len(v) >= SCALE,
    ensures
        SCALE - 3 <= spec_len(spec_normalize(v)) <= SCALE + 3,
{
    let x = v.x as int;
    let y = v.y as int;
    let d = x * x + y * y;
    assert(d >= 0) by (nonlinear_arith)
        requires
            d == x * x + y * y,
    ;
    lemma_sqrt_floor_correct(d);
    let n = spec_len(v);
    lemma_component_within_length(v);
    let s = SCALE as int;
    let nx = (x * s) / n;
    let ny = (y * s) / n;
    let rx = (x * s) % n;
    let ry = (y * s) % n;
    lemma_fundamental_div_mod(x * s, n);
    lemma_fundamental_div_mod(y * s, n);
    lemma_mod_division_less_than_divisor(x * s, n);
    lemma_mod_division_less_than_divisor(y * s, n);
    lemma_norm_comp_bound(x, n);
    lemma_norm_comp_bound(y, n);
    assert(nx == norm_comp(x, n) && ny == norm_comp(y, n));
    let q = nx * nx + ny * ny;
    // The exact decomposition of the scaled squared length, one axis at a
    // time.
    assert((n * nx + rx) * (n * nx + rx) == n * n * (nx * nx) + 2 * n * (nx * rx) + rx * rx)
        by (nonlinear_arith);
    assert((n * ny + ry) * (n * ny + ry) == n * n * (ny * ny) + 2 * n * (ny * ry) + ry * ry)
        by (nonlinear_arith);
    assert(n * n * (nx * nx) + n * n * (ny * ny) == n * n * q && 2 * n * (nx * rx) + 2 * n * (ny
        * ry) == 2 * n * (nx * rx + ny * ry)) by (nonlinear_arith)
        requires
            q == nx * nx + ny * ny,
    ;
    assert((n * nx + rx) * (n * nx + rx) + (n * ny + ry) * (n * ny + ry) == n * n * q + 2 * n * (
    nx * rx + ny * ry) + rx * rx + ry * ry);
    assert((x * s) * (x * s) + (y * s) * (y * s) == s * s * d) by (nonlinear_arith)
        requires
            d == x * x + y * y,
    ;
    assert(s * s * d == n * n * q + 2 * n * (nx * rx + ny * ry) + rx * rx + ry * ry);
    assert((n + 1) * (n + 1) == n * n + 2 * n + 1) by (nonlinear_arith);
    assert(d <= n * n + 2 * n);
    // Bound the cross terms and the remainders.
    assert(-(s * n) <= nx * rx <= s * n && -(s * n) <= ny * ry <= s * n) by (nonlinear_arith)
        requires
            -s <= nx <= s,
            -s <= ny <= s,
            0 <= rx <= n,
            0 <= ry <= n,
    ;
    assert(-(4 * (s * (n * n))) <= 2 * n * (nx * rx + ny * ry) <= 4 * (s * (n * n)))
        by (nonlinear_arith)
        requires
            n >= 1,
            -(s * n) <= nx * rx <= s * n,
            -(s * n) <= ny * ry <= s * n,
    ;
    assert(0 <= rx * rx + ry * ry <= 2 * (n * n)) by (nonlinear_arith)
        requires
            0 <= rx <= n,
            0 <= ry <= n,
    ;
    // Squeeze the squared normalized length between (s - 3)^2 and (s + 3)^2.
    assert(n * n * q <= n * n * ((s + 3) * (s + 3))) by (nonlinear_arith)
        requires
            s * s * d == n * n * q + 2 * n * (nx * rx + ny * ry) + rx * rx + ry * ry,
            d <= n * n + 2 * n,
            -(4 * (s * (n * n))) <= 2 * n * (nx * rx + ny * ry),
            0 <= rx * rx + ry * ry,
            1 <= s <= n,
    ;
    assert(n * n * ((s - 3) * (s - 3)) <= n * n * q) by (nonlinear_arith)
        requires
            s * s * d == n * n * q + 2 * n * (nx * rx + ny * ry) + rx * rx + ry * ry,
            d >= n * n,
            2 * n * (nx * rx + ny * ry) <= 4 * (s * (n * n)),
            rx * rx + ry * ry <= 2 * (n * n),
            10 <= s <= n,
    ;
    assert((s - 3) * (s - 3) <= q <= (s + 3) * (s + 3)) by (nonlinear_arith)
        requires
            n >= 1,
            n * n * ((s - 3) * (s - 3)) <= n * n * q,
            n * n * q <= n * n * ((s + 3) * (s + 3)),
    ;
    // Carry the squeeze through the square root.
    let u = spec_normalize(v);
    assert(u.x as int == nx && u.y as int == ny);
    assert(len_sq(u) == q);
    lemma_sqrt_floor_correct(q);
    let r = sqrt_floor(q);
    assert(r <= s + 3) by (nonlinear_arith)
        requires
            r >= 0,
            s >= 1,
            r * r <= q,
            q <= (s + 3) * (s + 3),
    ;
    assert(r >= s - 3) by (nonlinear_arith)
        requires
            r >= 0,
            s >= 4,
            q < (r + 1) * (r + 1),
            (s - 3) * (s - 3) <= q,
    ;
}
} // verus!
