//! A two-dimensional vector of fixed-point scalars.

use crate::units::{add_spec, add_units, cos_units, mul_spec, mul_units, sin_units};
use vstd::prelude::*;

verus! {

/// A point or direction in the plane, both components in micro-steps.
#[derive(Clone, Copy, Debug, PartialEq, Eq, Structural)]
pub struct Vector2 {
    pub x: i64,
    pub y: i64,
}

/// The component-wise saturating sum, at the spec level.
pub open spec fn spec_add(a: Vector2, b: Vector2) -> Vector2 {
    Vector2 {
        x: add_spec(a.x as int, b.x as int) as i64,
        y: add_spec(a.y as int, b.y as int) as i64,
    }
}

/// Both components scaled by the same fixed-point factor, at the spec level.
pub open spec fn spec_scale(a: Vector2, s: int) -> Vector2 {
    Vector2 { x: mul_spec(a.x as int, s) as i64, y: mul_spec(a.y as int, s) as i64 }
}

impl Vector2 {
    pub fn new(x: i64, y: i64) -> (v: Vector2)
        ensures
            v.x == x,
            v.y == y,
    {
        Vector2 { x, y }
    }

    pub fn zero() -> (v: Vector2)
        ensures
            v.x == 0,
            v.y == 0,
    {
        Vector2 { x: 0, y: 0 }
    }

    /// Component-wise saturating sum.
    pub fn add(self, rhs: Vector2) -> (v: Vector2)
        ensures
            v == spec_add(self, rhs),
    {
        Vector2 { x: add_units(self.x, rhs.x), y: add_units(self.y, rhs.y) }
    }

    /// Both components scaled by the same fixed-point factor.
    pub fn scale(self, s: i64) -> (v: Vector2)
        ensures
            v == spec_scale(self, s as int),
    {
        Vector2 { x: mul_units(self.x, s), y: mul_units(self.y, s) }
    }

    /// The vector at `angle` micro-radians from the positive x axis, of the
    /// given length. The trigonometry is the approximation of
    /// [`crate::units::sin_units`]; what callers rely on is that neither
    /// component can exceed the magnitude.
    pub fn from_polar(angle: i64, magnitude: i64) -> (v: Vector2)
        ensures
            magnitude >= 0 ==> -(magnitude as int) <= v.x as int <= magnitude as int,
            magnitude >= 0 ==> -(magnitude as int) <= v.y as int <= magnitude as int,
    {
        let c: i64 = cos_units(angle);
        let s: i64 = sin_units(angle);
        proof {
            if magnitude >= 0 {
                crate::units::lemma_mul_units_bounded(c as int, magnitude as int);
                crate::units::lemma_mul_units_bounded(s as int, magnitude as int);
            }
        }
        Vector2 { x: mul_units(c, magnitude), y: mul_units(s, magnitude) }
    }
}

} // verus!
