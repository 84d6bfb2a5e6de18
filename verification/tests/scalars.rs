//! Unit tests for the exact scalar arithmetic and the role-tagged vectors.

use orbits::scalar::Scalar;
use orbits::util::{eq_tolerance, midpoint, remove_indices};
use orbits::vector::{Position, Vector};

fn s2f(s: &Scalar) -> f64 {
    let v = (s.mant as f64) * 2f64.powi(s.exp as i32);
    if s.neg {
        -v
    } else {
        v
    }
}

#[test]
fn integer_arithmetic_is_exact() {
    let a = Scalar::from_int(6);
    let b = Scalar::from_int(7);
    assert_eq!(a.add(b), Scalar::from_int(13));
    assert_eq!(b.sub(a), Scalar::from_int(1));
    assert_eq!(a.mul(b), Scalar::from_int(42));
    assert_eq!(Scalar::from_int(42).div(b), Scalar::from_int(6));
    assert_eq!(Scalar::from_int(-12).abs(), Scalar::from_int(12));
    assert_eq!(Scalar::from_int(12).negate(), Scalar::from_int(-12));
}

#[test]
fn ratios_and_comparisons() {
    let third = Scalar::from_ratio(1, 3);
    let v = s2f(&third);
    assert!((v - 1.0 / 3.0).abs() < 1e-12);
    assert!(third.lt(Scalar::from_ratio(1, 2)));
    assert!(Scalar::from_int(-5).lt(Scalar::from_int(2)));
    assert!(Scalar::from_int(2).le(Scalar::from_int(2)));
    assert!(!Scalar::from_int(3).lt(Scalar::from_int(3)));
    assert!(Scalar::from_int(-7).lt(Scalar::from_int(-2)));
    assert_eq!(Scalar::from_int(0), Scalar::zero());
}

#[test]
fn square_roots_of_perfect_squares_are_exact() {
    assert_eq!(Scalar::from_int(144).sqrt(), Scalar::from_int(12));
    assert_eq!(Scalar::from_int(1).sqrt(), Scalar::from_int(1));
    let two = s2f(&Scalar::from_int(2).sqrt());
    assert!((two - 2f64.sqrt()).abs() < 1e-12);
}

#[test]
fn vector_magnitude_is_euclidean() {
    let p = Position::new(Scalar::from_int(3), Scalar::from_int(4));
    assert_eq!(p.mag(), Scalar::from_int(5));
    let q = Position::new(Scalar::from_int(0), Scalar::from_int(0));
    assert_eq!(p.abs_diff(q), Scalar::from_int(5));
}

#[test]
fn perpendicular_rotates_clockwise() {
    let p = Position::new(Scalar::from_int(2), Scalar::from_int(5));
    let r = p.perpendicular_cw();
    assert_eq!(r.x, Scalar::from_int(5));
    assert_eq!(r.y, Scalar::from_int(-2));
}

#[test]
fn vector_roles_convert_explicitly() {
    let p = Position::new(Scalar::from_int(1), Scalar::from_int(2));
    let v = orbits::vector::Velocity::from(p);
    assert_eq!(v.x, Scalar::from_int(1));
    assert_eq!(v.y, Scalar::from_int(2));
    let (x, y) = p.to_tuple();
    assert_eq!(x, Scalar::from_int(1));
    assert_eq!(y, Scalar::from_int(2));
}

#[test]
fn midpoint_and_tolerance() {
    let m = midpoint(Scalar::from_int(2), Scalar::from_int(8));
    assert_eq!(m, Scalar::from_int(5));
    assert!(eq_tolerance(
        Scalar::from_int(100),
        Scalar::from_int(101),
        Scalar::from_int(2)
    ));
    assert!(!eq_tolerance(
        Scalar::from_int(100),
        Scalar::from_int(103),
        Scalar::from_int(2)
    ));
}

#[test]
fn remove_indices_filters_positions() {
    let v: Vec<u32> = vec![10, 11, 12, 13, 14];
    let out = remove_indices(v, vec![1, 3]);
    assert_eq!(out, vec![10, 12, 14]);
    let all: Vec<u32> = vec![7, 8];
    assert_eq!(remove_indices(all, vec![]), vec![7, 8]);
}

#[test]
fn component_selects_axis() {
    let p: Vector<orbits::vector::Pos> =
        Position::new(Scalar::from_int(9), Scalar::from_int(4));
    assert_eq!(p.component(orbits::vector::Axis::X), Scalar::from_int(9));
    assert_eq!(p.component(orbits::vector::Axis::Y), Scalar::from_int(4));
}
