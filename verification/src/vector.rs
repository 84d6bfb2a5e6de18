//! Role-tagged 2-D vectors.
//!
//! A `Vector<T>` carries a phantom role tag (`Pos`, `Vel` or `Acc`) so that,
//! for example, a position cannot be passed where a velocity is required
//! without an explicit conversion. The arithmetic is shared across roles;
//! conversion between roles is the explicit `from` operation.

use vstd::prelude::*;

verus! {

use crate::scalar::Scalar;
use crate::scalar::lemma_mul_self_sign;
use crate::scalar::lemma_add_sign;

/// Marker trait for the role tags.
pub trait VectorType {

}

/// Role tag: a position.
#[derive(Clone, Copy, Debug, PartialEq, Eq, Structural)]
pub struct Pos;

/// Role tag: a velocity.
#[derive(Clone, Copy, Debug, PartialEq, Eq, Structural)]
pub struct Vel;

/// Role tag: an acceleration.
#[derive(Clone, Copy, Debug, PartialEq, Eq, Structural)]
pub struct Acc;

impl VectorType for Pos {

}

impl VectorType for Vel {

}

impl VectorType for Acc {

}

/// One of the two coordinate axes of the plane.
#[derive(Clone, Copy, Debug, PartialEq, Eq, Structural)]
pub enum Axis {
    X,
    Y,
}

/// A 2-D vector whose role is carried by the tag value `role`.
#[derive(Clone, Copy, Debug)]
pub struct Vector<T: VectorType> {
    pub role: T,
    pub x: Scalar,
    pub y: Scalar,
}

pub type Position = Vector<Pos>;

pub type Velocity = Vector<Vel>;

pub type Acceleration = Vector<Acc>;

impl<T: VectorType + Copy> Vector<T> {
    pub open spec fn wf(self) -> bool {
        self.x.wf() && self.y.wf()
    }

    /// Magnitude: `sqrt(x^2 + y^2)`.
    pub open spec fn spec_mag(self) -> Scalar {
        Scalar::spec_sqrt(Scalar::spec_add(Scalar::spec_mul(self.x, self.x),
            Scalar::spec_mul(self.y, self.y)))
    }

    pub open spec fn spec_scale(self, factor: Scalar) -> Vector<T> {
        Vector { role: self.role, x: Scalar::spec_mul(self.x, factor), y: Scalar::spec_mul(self.y,
            factor) }
    }

    pub open spec fn spec_divide(self, divisor: Scalar) -> Vector<T> {
        Vector { role: self.role, x: Scalar::spec_div(self.x, divisor), y: Scalar::spec_div(self.y,
            divisor) }
    }

    pub open spec fn spec_add(self, other: Vector<T>) -> Vector<T> {
        Vector { role: self.role, x: Scalar::spec_add(self.x, other.x), y: Scalar::spec_add(self.y,
            other.y) }
    }

    pub open spec fn spec_minus(self, other: Vector<T>) -> Vector<T> {
        Vector { role: self.role, x: Scalar::spec_sub(self.x, other.x), y: Scalar::spec_sub(self.y,
            other.y) }
    }

    pub open spec fn spec_abs_diff(self, other: Vector<T>) -> Scalar {
        self.spec_minus(other).spec_mag()
    }

    /// Rotation by 90 degrees clockwise: `(x, y) -> (y, -x)`.
    pub open spec fn spec_perpendicular_cw(self) -> Vector<T> {
        Vector { role: self.role, x: self.y, y: self.x.spec_neg() }
    }

    pub open spec fn spec_is_zero(self) -> bool {
        self.x.spec_is_zero() && self.y.spec_is_zero()
    }

    pub fn mag(&self) -> (m: Scalar)
        requires
            self.wf(),
        ensures
            m == self.spec_mag(),
            m.wf(),
            !m.neg,
    {
        let xx = self.x.mul(self.x);
        let yy = self.y.mul(self.y);
        proof {
            lemma_mul_self_sign(self.x);
            lemma_mul_self_sign(self.y);
            lemma_add_sign(xx, yy);
        }
        let s = xx.add(yy);
        let r = s.sqrt();
        proof {
            crate::scalar::lemma_norm_sign(false, 0, 0);
            assert(!r.neg) by {
                if s.mant != 0 {
                    crate::scalar::lemma_norm_sign(false, Scalar::spec_isqrt(
                        if s.exp as int % 2 == 0 {
                            (s.mant as nat) * vstd::arithmetic::power2::pow2(54)
                        } else {
                            (s.mant as nat) * vstd::arithmetic::power2::pow2(55)
                        }), (if s.exp as int % 2 == 0 { s.exp as int - 54 } else {
                        s.exp as int - 55
                    }) / 2);
                }
            }
        }
        r
    }

    pub fn scale(self, factor: Scalar) -> (v: Vector<T>)
        requires
            self.wf(),
            factor.wf(),
        ensures
            v == self.spec_scale(factor),
            v.wf(),
    {
        Vector { role: self.role, x: self.x.mul(factor), y: self.y.mul(factor) }
    }

    pub fn divide(self, divisor: Scalar) -> (v: Vector<T>)
        requires
            self.wf(),
            divisor.wf(),
            !divisor.spec_is_zero(),
        ensures
            v == self.spec_divide(divisor),
            v.wf(),
    {
        Vector { role: self.role, x: self.x.div(divisor), y: self.y.div(divisor) }
    }

    pub fn add(self, other: Vector<T>) -> (v: Vector<T>)
        requires
            self.wf(),
            other.wf(),
        ensures
            v == self.spec_add(other),
            v.wf(),
    {
        Vector { role: self.role, x: self.x.add(other.x), y: self.y.add(other.y) }
    }

    pub fn minus(self, other: Vector<T>) -> (v: Vector<T>)
        requires
            self.wf(),
            other.wf(),
        ensures
            v == self.spec_minus(other),
            v.wf(),
    {
        Vector { role: self.role, x: self.x.sub(other.x), y: self.y.sub(other.y) }
    }

    pub fn abs_diff(self, other: Vector<T>) -> (m: Scalar)
        requires
            self.wf(),
            other.wf(),
        ensures
            m == self.spec_abs_diff(other),
            m.wf(),
            !m.neg,
    {
        self.minus(other).mag()
    }

    pub fn perpendicular_cw(self) -> (v: Vector<T>)
        requires
            self.wf(),
        ensures
            v == self.spec_perpendicular_cw(),
            v.wf(),
    {
        Vector { role: self.role, x: self.y, y: self.x.negate() }
    }

    pub fn is_zero(&self) -> (b: bool)
        ensures
            b == self.spec_is_zero(),
    {
        self.x.is_zero() && self.y.is_zero()
    }

    /// The coordinate along the given axis.
    pub fn component(&self, axis: Axis) -> (s: Scalar)
        ensures
            s == (match axis { Axis::X => self.x, Axis::Y => self.y }),
    {
        match axis {
            Axis::X => self.x,
            Axis::Y => self.y,
        }
    }

    pub fn to_tuple(self) -> (t: (Scalar, Scalar))
        ensures
            t.0 == self.x,
            t.1 == self.y,
    {
        (self.x, self.y)
    }
}

impl Vector<Pos> {
    /// The zero position.
    pub open spec fn spec_zero_vec() -> Position {
        Vector { role: Pos, x: Scalar::spec_zero(), y: Scalar::spec_zero() }
    }

    pub fn new(x: Scalar, y: Scalar) -> (v: Position)
        ensures
            v == (Vector { role: Pos, x, y }),
    {
        Vector { role: Pos, x, y }
    }

    pub fn zero() -> (v: Position)
        ensures
            v == (Vector { role: Pos, x: Scalar::spec_zero(), y: Scalar::spec_zero() }),
            v.wf(),
    {
        Vector { role: Pos, x: Scalar::zero(), y: Scalar::zero() }
    }

    /// Re-tag a vector of another role as a position.
    pub fn from<S: VectorType + Copy>(v: Vector<S>) -> (r: Position)
        ensures
            r == (Vector { role: Pos, x: v.x, y: v.y }),
    {
        Vector { role: Pos, x: v.x, y: v.y }
    }

    /// Position after `t` seconds under constant acceleration:
    /// `p + v*t + (1/2)*a*t^2`.
    pub open spec fn spec_update(self, v: Velocity, a: Acceleration, t: Scalar) -> Position {
        let vel_term = Vector { role: Pos, x: Scalar::spec_mul(v.x, t), y: Scalar::spec_mul(v.y,
            t) };
        let factor = Scalar::spec_mul(Scalar::spec_half(), Scalar::spec_mul(t, t));
        let acc_term = Vector { role: Pos, x: Scalar::spec_mul(a.x, factor), y: Scalar::spec_mul(
            a.y, factor) };
        self.spec_add(vel_term).spec_add(acc_term)
    }

    pub fn update(&self, v: &Velocity, a: &Acceleration, t: Scalar) -> (p: Position)
        requires
            self.wf(),
            v.wf(),
            a.wf(),
            t.wf(),
        ensures
            p == self.spec_update(*v, *a, t),
            p.wf(),
    {
        let vel_term = Position::from(v.scale(t));
        let factor = Scalar::half().mul(t.mul(t));
        let acc_term = Position::from(a.scale(factor));
        self.add(vel_term).add(acc_term)
    }

    /// Position after `t` seconds at constant velocity.
    pub fn update_const_v(&self, v: &Velocity, t: Scalar) -> (p: Position)
        requires
            self.wf(),
            v.wf(),
            t.wf(),
        ensures
            p == self.spec_update(*v, Vector { role: Acc, x: Scalar::spec_zero(),
                y: Scalar::spec_zero() }, t),
            p.wf(),
    {
        let zero_a = Vector { role: Acc, x: Scalar::zero(), y: Scalar::zero() };
        self.update(v, &zero_a, t)
    }
}

impl Vector<Vel> {
    /// The zero velocity.
    pub open spec fn spec_zero_vec() -> Velocity {
        Vector { role: Vel, x: Scalar::spec_zero(), y: Scalar::spec_zero() }
    }

    pub fn new(x: Scalar, y: Scalar) -> (v: Velocity)
        ensures
            v == (Vector { role: Vel, x, y }),
    {
        Vector { role: Vel, x, y }
    }

    pub fn zero() -> (v: Velocity)
        ensures
            v == (Vector { role: Vel, x: Scalar::spec_zero(), y: Scalar::spec_zero() }),
            v.wf(),
    {
        Vector { role: Vel, x: Scalar::zero(), y: Scalar::zero() }
    }

    /// Re-tag a vector of another role as a velocity.
    pub fn from<S: VectorType + Copy>(v: Vector<S>) -> (r: Velocity)
        ensures
            r == (Vector { role: Vel, x: v.x, y: v.y }),
    {
        Vector { role: Vel, x: v.x, y: v.y }
    }

    /// Velocity after `t` seconds under constant acceleration: `v + a*t`.
    pub open spec fn spec_update(self, a: Acceleration, t: Scalar) -> Velocity {
        self.spec_add(Vector { role: Vel, x: Scalar::spec_mul(a.x, t), y: Scalar::spec_mul(a.y,
            t) })
    }

    pub fn update(&self, a: &Acceleration, t: Scalar) -> (v: Velocity)
        requires
            self.wf(),
            a.wf(),
            t.wf(),
        ensures
            v == self.spec_update(*a, t),
            v.wf(),
    {
        let vel_change = Velocity::from(a.scale(t));
        self.add(vel_change)
    }
}

impl Vector<Acc> {
    /// The zero acceleration.
    pub open spec fn spec_zero_vec() -> Acceleration {
        Vector { role: Acc, x: Scalar::spec_zero(), y: Scalar::spec_zero() }
    }

    pub fn new(x: Scalar, y: Scalar) -> (v: Acceleration)
        ensures
            v == (Vector { role: Acc, x, y }),
    {
        Vector { role: Acc, x, y }
    }

    pub fn zero() -> (v: Acceleration)
        ensures
            v == (Vector { role: Acc, x: Scalar::spec_zero(), y: Scalar::spec_zero() }),
            v.wf(),
    {
        Vector { role: Acc, x: Scalar::zero(), y: Scalar::zero() }
    }

    /// Re-tag a vector of another role as an acceleration.
    pub fn from<S: VectorType + Copy>(v: Vector<S>) -> (r: Acceleration)
        ensures
            r == (Vector { role: Acc, x: v.x, y: v.y }),
    {
        Vector { role: Acc, x: v.x, y: v.y }
    }
}

} // verus!
