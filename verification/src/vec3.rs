//! 3-D vectors of fixed-point scalars.

use vstd::prelude::*;
use crate::fixed::{fadd, fsub, fmul, fdiv, fsqrt};
use crate::fixed::{fx_add, fx_sub, fx_mul, fx_div, fx_sqrt};

verus! {

/// Mathematical model of a vector: three unbounded integers in micro-units.
pub struct V3 {
    pub x: int,
    pub y: int,
    pub z: int,
}

/// A 3-D vector of fixed-point scalars (micro-units per axis).
#[derive(Clone, Copy, Debug, PartialEq, Eq, Structural)]
pub struct Vec3 {
    pub x: i64,
    pub y: i64,
    pub z: i64,
}

impl View for Vec3 {
    type V = V3;

    open spec fn view(&self) -> V3 {
        V3 { x: self.x as int, y: self.y as int, z: self.z as int }
    }
}

/// Componentwise saturating addition.
pub open spec fn v3_add(a: V3, b: V3) -> V3 {
    V3 { x: fadd(a.x, b.x), y: fadd(a.y, b.y), z: fadd(a.z, b.z) }
}

/// Componentwise saturating subtraction.
pub open spec fn v3_sub(a: V3, b: V3) -> V3 {
    V3 { x: fsub(a.x, b.x), y: fsub(a.y, b.y), z: fsub(a.z, b.z) }
}

/// A vector scaled by a fixed-point factor.
pub open spec fn v3_scale(t: int, a: V3) -> V3 {
    V3 { x: fmul(t, a.x), y: fmul(t, a.y), z: fmul(t, a.z) }
}

/// Fixed-point dot product, accumulated left to right.
pub open spec fn v3_dot(a: V3, b: V3) -> int {
    fadd(fadd(fmul(a.x, b.x), fmul(a.y, b.y)), fmul(a.z, b.z))
}

/// Euclidean length: the fixed-point square root of the self dot product.
pub open spec fn v3_len(a: V3) -> int {
    fsqrt(v3_dot(a, a))
}

/// The vector divided by its own length; the zero-length case yields the
/// zero vector, since fixed-point division by zero is a guarded no-op.
pub open spec fn v3_normalized(a: V3) -> V3 {
    let l: int = v3_len(a);
    V3 { x: fdiv(a.x, l), y: fdiv(a.y, l), z: fdiv(a.z, l) }
}

impl Vec3 {
    /// Builds a vector from its three fixed-point components.
    pub fn new(x: i64, y: i64, z: i64) -> (v: Vec3)
        ensures
            v@ == (V3 { x: x as int, y: y as int, z: z as int }),
    {
        Vec3 { x, y, z }
    }

    /// Componentwise saturating addition.
    pub fn add(self, o: Vec3) -> (v: Vec3)
        ensures
            v@ == v3_add(self@, o@),
    {
        Vec3 { x: fx_add(self.x, o.x), y: fx_add(self.y, o.y), z: fx_add(self.z, o.z) }
    }

    /// Componentwise saturating subtraction.
    pub fn sub(self, o: Vec3) -> (v: Vec3)
        ensures
            v@ == v3_sub(self@, o@),
    {
        Vec3 { x: fx_sub(self.x, o.x), y: fx_sub(self.y, o.y), z: fx_sub(self.z, o.z) }
    }

    /// The vector scaled by a fixed-point factor.
    pub fn scaled(self, t: i64) -> (v: Vec3)
        ensures
            v@ == v3_scale(t as int, self@),
    {
        Vec3 { x: fx_mul(t, self.x), y: fx_mul(t, self.y), z: fx_mul(t, self.z) }
    }

    /// Fixed-point dot product.
    pub fn dot(self, o: Vec3) -> (r: i64)
        ensures
            r as int == v3_dot(self@, o@),
    {
        fx_add(fx_add(fx_mul(self.x, o.x), fx_mul(self.y, o.y)), fx_mul(self.z, o.z))
    }

    /// Euclidean length.
    pub fn length(self) -> (r: i64)
        ensures
            r as int == v3_len(self@),
    {
        fx_sqrt(self.dot(self))
    }

    /// The vector divided by its own length; a zero-length vector stays zero.
    pub fn normalized(self) -> (v: Vec3)
        ensures
            v@ == v3_normalized(self@),
    {
        let l: i64 = self.length();
        Vec3 { x: fx_div(self.x, l), y: fx_div(self.y, l), z: fx_div(self.z, l) }
    }
}

} // verus!
