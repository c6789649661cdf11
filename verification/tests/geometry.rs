//! Exact fixed-point geometry: lengths, normalization, collision tests.

use wanderers::collision::{CircleBounds, Point, RectBounds};
use wanderers::fixed::{div_trunc, isqrt, SCALE};

fn pt(x: i64, y: i64) -> Point {
    Point::new(x, y)
}

#[test]
fn isqrt_exact_and_floor() {
    assert_eq!(isqrt(0), 0);
    assert_eq!(isqrt(15), 3);
    assert_eq!(isqrt(16), 4);
    assert_eq!(isqrt(1_000_000_000_000), 1_000_000);
    assert_eq!(isqrt(999_999_999_999), 999_999);
}

#[test]
fn div_trunc_rounds_toward_zero() {
    assert_eq!(div_trunc(7, 2), 3);
    assert_eq!(div_trunc(-7, 2), -3);
    assert_eq!(div_trunc(0, 5), 0);
    assert_eq!(div_trunc(-1, 1_000_000), 0);
}

#[test]
fn vector_operations_are_exact() {
    let a = pt(3_000_000, 4_000_000);
    let b = pt(1_000_000, -2_000_000);
    assert_eq!(a.add(&b), pt(4_000_000, 2_000_000));
    assert_eq!(a.sub(&b), pt(2_000_000, 6_000_000));
    assert_eq!(a.ort(), pt(4_000_000, -3_000_000));
    // dot product of (3, 4) and (1, -2) is 3 - 8 = -5 square units
    assert_eq!(a.mults(&b), -5_000_000_000_000);
    // scaling (3, 4) by one half
    assert_eq!(a.multf(500_000), pt(1_500_000, 2_000_000));
    assert_eq!(a.len(), 5_000_000);
    assert_eq!(a.dist(&pt(0, 0)), 5_000_000);
    assert_eq!(Point::init(), pt(0, 0));
}

#[test]
fn normalize_unit_vectors() {
    // a 3-4-5 triangle normalizes exactly
    assert_eq!(pt(3_000_000, 4_000_000).norm(), pt(600_000, 800_000));
    // an axis-aligned vector normalizes exactly, even when short
    assert_eq!(pt(1001, 0).norm(), pt(SCALE, 0));
}

#[test]
fn normalize_zero_guard() {
    // below the 0.001-unit threshold the result is the zero vector
    assert_eq!(pt(0, 0).norm(), pt(0, 0));
    assert_eq!(pt(500, 500).norm(), pt(0, 0));
    assert_eq!(pt(-999, 0).norm(), pt(0, 0));
}

#[test]
fn normalize_length_is_close_to_one() {
    // normalization safety: anything above the guard threshold lands
    // within about a tenth of a percent of one world unit
    let samples = [
        (2001i64, 1i64),
        (1234, -4321),
        (-5_000_000, 1),
        (987_654_321, 123_456_789),
        (-7, 1500),
    ];
    for (x, y) in samples {
        let n = pt(x, y).norm();
        let l = n.len();
        assert!(l <= SCALE, "normalized length above one unit for ({x}, {y})");
        assert!(l >= SCALE - 1002, "normalized length too short for ({x}, {y})");
    }
}

#[test]
fn circle_collision_is_exact_on_the_boundary() {
    let a = CircleBounds { coords: pt(0, 0), r: 2_000_000 };
    let b = CircleBounds { coords: pt(5_000_000, 0), r: 3_000_000 };
    // centers 5 units apart, radii sum exactly 5: touching counts
    assert!(a.collides_with(&b));
    let c = CircleBounds { coords: pt(5_000_001, 0), r: 3_000_000 };
    assert!(!a.collides_with(&c));
    // deep overlap
    let d = CircleBounds { coords: pt(1_000_000, 0), r: 1_000_000 };
    assert!(a.collides_with(&d));
}

#[test]
fn rect_from_circle_is_the_bounding_square() {
    let c = CircleBounds { coords: pt(10_000_000, 20_000_000), r: 3_000_000 };
    let r = RectBounds::from_circle(c);
    assert_eq!(r.coords, pt(7_000_000, 17_000_000));
    assert_eq!(r.size, pt(6_000_000, 6_000_000));
}

#[test]
fn on_layer_respects_the_margin() {
    let layer = RectBounds { coords: pt(0, 0), size: pt(100_000_000, 100_000_000) };
    let inside = CircleBounds { coords: pt(50_000_000, 50_000_000), r: 1_000_000 };
    assert!(inside.on_layer(&layer, 0));
    let outside = CircleBounds { coords: pt(-10_000_000, 50_000_000), r: 1_000_000 };
    assert!(!outside.on_layer(&layer, 0));
    // the same circle is accepted once the edge slack covers the gap
    assert!(outside.on_layer(&layer, 9_000_000));
}
