//! Analytic ray–sphere intersection.
//!
//! A ray is `origin + t * direction`; against a sphere it satisfies the
//! quadratic `a*t^2 + b*t + c = 0` with `a = d.d`, `b = 2*(o - center).d`
//! and `c = (o - center).(o - center) - radius^2`. A negative discriminant,
//! like a zero-length direction, yields the sentinel pair `(INF, INF)`.

use vstd::prelude::*;
use crate::fixed::{fadd, fdiv, fmul, fneg, fsqrt, fsub, FX_FOUR, FX_TWO, INF};
use crate::fixed::{fx_add, fx_div, fx_mul, fx_neg, fx_sqrt, fx_sub};
use crate::scene::Sphere;
use crate::vec3::{v3_dot, v3_sub, Vec3, V3};

verus! {

/// The discriminant `b^2 - 4*a*c` of the intersection quadratic, in
/// fixed-point arithmetic.
pub open spec fn isect_disc(o: V3, d: V3, c: V3, r: int) -> int {
    let a: int = v3_dot(d, d);
    let co: V3 = v3_sub(o, c);
    let b: int = fmul(FX_TWO as int, v3_dot(co, d));
    let cc: int = fsub(v3_dot(co, co), fmul(r, r));
    fsub(fmul(b, b), fmul(fmul(FX_FOUR as int, a), cc))
}

/// The two roots of the intersection quadratic, `(-b + sqrt(disc)) / 2a`
/// first. The sentinel pair `(INF, INF)` stands for "no real intersection":
/// it is returned when the discriminant is negative, and also when the
/// direction is degenerate (`d.d == 0`), so nothing ever divides by zero.
pub open spec fn isect(o: V3, d: V3, c: V3, r: int) -> (int, int) {
    let a: int = v3_dot(d, d);
    if a == 0 {
        (INF as int, INF as int)
    } else {
        let co: V3 = v3_sub(o, c);
        let b: int = fmul(FX_TWO as int, v3_dot(co, d));
        let disc: int = isect_disc(o, d, c, r);
        if disc < 0 {
            (INF as int, INF as int)
        } else {
            let sq: int = fsqrt(disc);
            let t1: int = fdiv(fadd(fneg(b), sq), fmul(FX_TWO as int, a));
            let t2: int = fdiv(fsub(fneg(b), sq), fmul(FX_TWO as int, a));
            (t1, t2)
        }
    }
}

/// Solves the intersection quadratic for a ray against one sphere.
pub fn intersect_ray_sphere(origin: Vec3, direction: Vec3, sphere: &Sphere) -> (r: (i64, i64))
    ensures
        r.0 as int == isect(origin@, direction@, sphere.center@, sphere.radius as int).0,
        r.1 as int == isect(origin@, direction@, sphere.center@, sphere.radius as int).1,
        isect_disc(origin@, direction@, sphere.center@, sphere.radius as int) < 0
            ==> r.0 == INF && r.1 == INF,
        v3_dot(direction@, direction@) == 0 ==> r.0 == INF && r.1 == INF,
{
    let a: i64 = direction.dot(direction);
    if a == 0 {
        return (INF, INF);
    }
    let co: Vec3 = origin.sub(sphere.center);
    let b: i64 = fx_mul(FX_TWO, co.dot(direction));
    let cc: i64 = fx_sub(co.dot(co), fx_mul(sphere.radius, sphere.radius));
    let disc: i64 = fx_sub(fx_mul(b, b), fx_mul(fx_mul(FX_FOUR, a), cc));
    if disc < 0 {
        return (INF, INF);
    }
    let sq: i64 = fx_sqrt(disc);
    let t1: i64 = fx_div(fx_add(fx_neg(b), sq), fx_mul(FX_TWO, a));
    let t2: i64 = fx_div(fx_sub(fx_neg(b), sq), fx_mul(FX_TWO, a));
    (t1, t2)
}

} // verus!
