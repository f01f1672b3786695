//! Tests of the vector and segment geometry, in fixed-point subunits:
//! 10_000_000 subunits are one world unit.

use snake_engine::num::SCALE;
use snake_engine::{Segment, Vector};

#[test]
fn add_then_subtract_round_trips() {
    // a = (3.2, -1.5), b = (0.7, 2.25) in world units.
    let a = Vector::new(32_000_000, -15_000_000);
    let b = Vector::new(7_000_000, 22_500_000);
    let back = a.add(&b).subtract(&b);
    assert_eq!(back.x, a.x);
    assert_eq!(back.y, a.y);
}

#[test]
fn length_of_three_four_five_triangle() {
    // (3, 4) has length exactly 5.
    let v = Vector::new(30_000_000, 40_000_000);
    assert_eq!(v.length(), 50_000_000);
}

#[test]
fn length_rounds_down_to_subunits() {
    // (1, 1) has length sqrt(2) = 1.4142135..., floored to whole subunits.
    let v = Vector::new(10_000_000, 10_000_000);
    assert_eq!(v.length(), 14_142_135);
}

#[test]
fn normalize_gives_unit_length_exactly_on_clean_input() {
    // (3, 4) normalizes to (0.6, 0.8), of length exactly 1.
    let v = Vector::new(30_000_000, 40_000_000);
    let u = v.normalize();
    assert_eq!(u.x, 6_000_000);
    assert_eq!(u.y, 8_000_000);
    assert_eq!(u.length(), SCALE);
}

#[test]
fn normalize_gives_unit_length_within_rounding() {
    // A diagonal vector: the normalized length may miss one world unit only
    // by a few subunits of rounding.
    let v = Vector::new(10_000_000, 10_000_000);
    let len = v.normalize().length();
    assert!(SCALE - 3 <= len && len <= SCALE + 3, "normalized length {}", len);
}

#[test]
fn normalize_of_zero_vector_stays_zero() {
    // The degenerate case: a zero vector has no direction and is returned
    // unchanged rather than dividing by zero.
    let z = Vector::new(0, 0).normalize();
    assert_eq!(z.x, 0);
    assert_eq!(z.y, 0);
}

#[test]
fn scale_by_multiplies_in_fixed_point() {
    // (1.5, -2) scaled by 2 is (3, -4).
    let v = Vector::new(15_000_000, -20_000_000);
    let w = v.scale_by(20_000_000);
    assert_eq!(w.x, 30_000_000);
    assert_eq!(w.y, -40_000_000);
}

#[test]
fn get_vector_is_end_minus_start() {
    let s = Segment::new(&Vector::new(10_000_000, 20_000_000), &Vector::new(40_000_000, 0));
    let v = s.get_vector();
    assert_eq!(v.x, 30_000_000);
    assert_eq!(v.y, -20_000_000);
}

#[test]
fn segment_length_is_endpoint_distance() {
    let s = Segment::new(&Vector::new(0, 0), &Vector::new(30_000_000, 40_000_000));
    assert_eq!(s.length(), 50_000_000);
}

#[test]
fn point_on_segment_is_inside() {
    // Segment (0,0)-(10,0); the point (5,0) lies on it.
    let start = Vector::new(0, 0);
    let end = Vector::new(100_000_000, 0);
    let s = Segment::new(&start, &end);
    assert!(s.is_point_inside(&Vector::new(50_000_000, 0)));
}

#[test]
fn point_off_segment_is_outside() {
    // (5, 1) sits one unit off the segment (0,0)-(10,0).
    let start = Vector::new(0, 0);
    let end = Vector::new(100_000_000, 0);
    let s = Segment::new(&start, &end);
    assert!(!s.is_point_inside(&Vector::new(50_000_000, 10_000_000)));
}

#[test]
fn point_beyond_segment_is_outside() {
    // (11, 0) lies on the carrying line but past the end.
    let start = Vector::new(0, 0);
    let end = Vector::new(100_000_000, 0);
    let s = Segment::new(&start, &end);
    assert!(!s.is_point_inside(&Vector::new(110_000_000, 0)));
}
