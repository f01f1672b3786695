//! A directed segment between two points, with its displacement vector,
//! length, and a metric point-containment test.

use crate::num::is_isqrt;
use crate::vector::{len_sq, spec_len, spec_sub, Vector};
use vstd::prelude::*;

verus! {

/// Coordinates handed to the segment operations must lie within this bound,
/// so that coordinate differences fit the length computation.
pub const SEG_LIMIT: i64 = 0x1000_0000_0000_0000;

/// Two lengths are considered equal when they differ by at most this many
/// subunits. One subunit is the engine's resolution (one `SCALE`-th of a
/// world unit), so this mirrors an absolute tolerance of one resolution step.
pub const EPSILON_UNITS: i64 = 1;

/// A directed line segment. The endpoints are owned copies: a `Vector` is a
/// small value, so the segment carries no lifetime coupling.
#[derive(Clone, Copy, PartialEq, Eq, Structural, Debug)]
pub struct Segment {
    pub start: Vector,
    pub end: Vector,
}

/// The length of the segment from `a` to `b`, in whole subunits.
pub open spec fn seg_len(a: Vector, b: Vector) -> int {
    spec_len(spec_sub(b, a))
}

/// Whether two lengths differ by at most [`EPSILON_UNITS`].
pub open spec fn lengths_close(a: int, b: int) -> bool {
    -EPSILON_UNITS <= a - b <= EPSILON_UNITS
}

/// The metric containment test: `p` counts as lying on the segment when the
/// two partial lengths add up to the whole one, within the tolerance.
pub open spec fn point_on_segment(s: Segment, p: Vector) -> bool {
    lengths_close(seg_len(s.start, s.end), seg_len(s.start, p) + seg_len(p, s.end))
}

/// Whether both coordinates of `v` lie within `lim`.
pub open spec fn within(v: Vector, lim: int) -> bool {
    -lim <= v.x <= lim && -lim <= v.y <= lim
}

impl Segment {
    /// Builds the segment from copies of the two endpoints.
    pub fn new(start: &Vector, end: &Vector) -> (r: Segment)
        ensures
            r == (Segment { start: *start, end: *end }),
    {
        Segment { start: *start, end: *end }
    }

    /// The displacement from `start` to `end`.
    pub fn get_vector(&self) -> (r: Vector)
        requires
            within(self.start, SEG_LIMIT as int),
            within(self.end, SEG_LIMIT as int),
        ensures
            r == spec_sub(self.end, self.start),
    {
        self.end.subtract(&self.start)
    }

    /// The Euclidean length of the segment, in whole subunits.
    pub fn length(&self) -> (r: i64)
        requires
            within(self.start, SEG_LIMIT as int),
            within(self.end, SEG_LIMIT as int),
        ensures
            r == seg_len(self.start, self.end),
            0 <= r < 0x4000_0000_0000_0000,
    {
        let v = self.get_vector();
        let r = v.length();
        proof {
            assert(is_isqrt(len_sq(v), r as int));
            assert(r < 0x4000_0000_0000_0000) by (nonlinear_arith)
                requires
                    (r as int) * (r as int) <= (v.x as int) * (v.x as int) + (v.y as int) * (
                    v.y as int),
                    -0x2000_0000_0000_0000 <= v.x <= 0x2000_0000_0000_0000,
                    -0x2000_0000_0000_0000 <= v.y <= 0x2000_0000_0000_0000,
                    r >= 0,
            ;
        }
        r
    }

    /// Whether `point` lies on the segment: true exactly when the length from
    /// `start` to `point` plus the length from `point` to `end` equals the
    /// segment's own length, within [`EPSILON_UNITS`].
    pub fn is_point_inside(&self, point: &Vector) -> (r: bool)
        requires
            within(self.start, SEG_LIMIT as int),
            within(self.end, SEG_LIMIT as int),
            within(*point, SEG_LIMIT as int),
        ensures
            r == point_on_segment(*self, *point),
    {
        let first = Segment::new(&self.start, point);
        let second = Segment::new(point, &self.end);
        are_equal(self.length(), first.length() + second.length())
    }
}

/// Whether `one` and `another` differ by at most [`EPSILON_UNITS`] subunits.
fn are_equal(one: i64, another: i64) -> (r: bool)
    requires
        i64::MIN <= one - another <= i64::MAX,
    ensures
        r == lengths_close(one as int, another as int),
{
    let d = one - another;
    -EPSILON_UNITS <= d && d <= EPSILON_UNITS
}

} // verus!
