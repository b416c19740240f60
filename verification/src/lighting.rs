//! The additive local lighting model: ambient, point and directional
//! diffuse terms, no shadows, no clamping of the accumulated total.

use vstd::prelude::*;
use vstd::arithmetic::div_mod::{lemma_div_is_ordered, lemma_div_multiples_vanish};
use crate::fixed::{fadd, fdiv, fmul, SCALE};
use crate::fixed::{fx_add, fx_div, fx_mul};
use crate::scene::{Light, Scene};
use crate::vec3::{v3_dot, v3_len, v3_sub, Vec3, V3};

verus! {

/// The normalized-dot ratio `d / denom`, clamped into `[0, 1]` — the
/// mathematical range of the cosine it stands for. Fixed-point truncation
/// of the two lengths can overstate the raw ratio at small magnitudes;
/// the clamp keeps one light's contribution within its own intensity.
pub open spec fn cosine_factor(d: int, denom: int) -> int {
    let q: int = fdiv(d, denom);
    if q < 0 {
        0
    } else if q > SCALE {
        SCALE as int
    } else {
        q
    }
}

/// The diffuse contribution of one light vector `l` at a surface with
/// normal `n`: when the surface faces the light (`n.l > 0`), the intensity
/// scaled by the cosine of the angle between `n` and `l` — the division by
/// both lengths normalizes the dot product, so neither vector needs to be
/// a unit vector, and the factor is clamped to the cosine's range. A light
/// behind the surface contributes nothing.
pub open spec fn diffuse(n: V3, l: V3, intensity: int) -> int {
    let d: int = v3_dot(n, l);
    if d > 0 {
        fmul(intensity, cosine_factor(d, fmul(v3_len(n), v3_len(l))))
    } else {
        0
    }
}

/// What one light adds at hit point `p` with surface normal `n`.
pub open spec fn light_term(p: V3, n: V3, light: Light) -> int {
    match light {
        Light::Ambient { intensity } => intensity as int,
        Light::Point { intensity, position } => diffuse(
            n,
            v3_sub(position@, p),
            intensity as int,
        ),
        Light::Directional { intensity, direction } => diffuse(n, direction@, intensity as int),
    }
}

/// The total intensity at a hit point: every light's contribution,
/// accumulated in sequence order with saturating addition, starting at zero.
pub open spec fn shade_spec(p: V3, n: V3, lights: Seq<Light>) -> int
    decreases lights.len(),
{
    if lights.len() == 0 {
        0
    } else {
        fadd(shade_spec(p, n, lights.drop_last()), light_term(p, n, lights.last()))
    }
}

/// The fixed-point intensity a light carries.
pub open spec fn intensity_of(light: Light) -> i64 {
    match light {
        Light::Ambient { intensity } => intensity,
        Light::Point { intensity, .. } => intensity,
        Light::Directional { intensity, .. } => intensity,
    }
}

/// The plain mathematical sum of every light's intensity, in order.
pub open spec fn sum_intensities(lights: Seq<Light>) -> int
    decreases lights.len(),
{
    if lights.len() == 0 {
        0
    } else {
        sum_intensities(lights.drop_last()) + intensity_of(lights.last())
    }
}

/// One diffuse term stays within the light's own intensity: the clamped
/// cosine factor lies in `[0, 1]`.
pub proof fn lemma_diffuse_bounded(n: V3, l: V3, intensity: i64)
    requires
        0 <= intensity,
    ensures
        0 <= diffuse(n, l, intensity as int) <= intensity,
{
    let d: int = v3_dot(n, l);
    if d > 0 {
        let f: int = cosine_factor(d, fmul(v3_len(n), v3_len(l)));
        assert(0 <= f <= SCALE as int);
        assert(0 <= intensity * f <= intensity * (SCALE as int)) by (nonlinear_arith)
            requires
                0 <= intensity,
                0 <= f <= SCALE as int,
        ;
        assert(intensity * (SCALE as int) == (SCALE as int) * (intensity as int))
            by (nonlinear_arith);
        lemma_div_multiples_vanish(intensity as int, SCALE as int);
        lemma_div_is_ordered(intensity * f, intensity * (SCALE as int), SCALE as int);
    }
}

/// What any single light adds is at least zero and at most its own
/// intensity, when that intensity is nonnegative.
proof fn lemma_light_term_bounded(p: V3, n: V3, light: Light)
    requires
        0 <= intensity_of(light),
    ensures
        0 <= light_term(p, n, light) <= intensity_of(light),
{
    match light {
        Light::Ambient { intensity } => {},
        Light::Point { intensity, position } => {
            lemma_diffuse_bounded(n, v3_sub(position@, p), intensity);
        },
        Light::Directional { intensity, direction } => {
            lemma_diffuse_bounded(n, direction@, intensity);
        },
    }
}

/// With nonnegative intensities the accumulated lighting lies between
/// zero and the plain sum of all the intensities: an ambient term adds
/// exactly its intensity, a diffuse term at most its intensity, and
/// saturating addition never raises a nonnegative total.
pub proof fn lemma_shade_bounded(p: V3, n: V3, lights: Seq<Light>)
    requires
        forall|i: int| 0 <= i < lights.len() ==> 0 <= intensity_of(#[trigger] lights[i]),
    ensures
        0 <= shade_spec(p, n, lights) <= sum_intensities(lights),
    decreases lights.len(),
{
    if lights.len() == 0 {
    } else {
        assert forall|i: int|
            0 <= i < lights.drop_last().len() implies 0 <= intensity_of(
            #[trigger] lights.drop_last()[i],
        ) by {
            assert(lights.drop_last()[i] == lights[i]);
        }
        lemma_shade_bounded(p, n, lights.drop_last());
        assert(0 <= intensity_of(lights[lights.len() - 1]));
        lemma_light_term_bounded(p, n, lights.last());
    }
}

/// Accumulates every light's contribution at `p` with surface normal `n`.
pub fn compute_lighting(p: Vec3, n: Vec3, scene: &Scene) -> (r: i64)
    ensures
        r as int == shade_spec(p@, n@, scene.lights@),
{
    let mut acc: i64 = 0;
    let mut k: usize = 0;
    while k < scene.lights.len()
        invariant
            k <= scene.lights.len(),
            acc as int == shade_spec(p@, n@, scene.lights@.take(k as int)),
        decreases scene.lights.len() - k,
    {
        let light: Light = scene.lights[k];
        match light {
            Light::Ambient { intensity } => {
                acc = fx_add(acc, intensity);
            },
            Light::Point { intensity, position } => {
                let l: Vec3 = position.sub(p);
                let d: i64 = n.dot(l);
                if d > 0 {
                    let q: i64 = fx_div(d, fx_mul(n.length(), l.length()));
                    let f: i64 = if q < 0 {
                        0
                    } else if q > SCALE {
                        SCALE
                    } else {
                        q
                    };
                    acc = fx_add(acc, fx_mul(intensity, f));
                }
            },
            Light::Directional { intensity, direction } => {
                let d: i64 = n.dot(direction);
                if d > 0 {
                    let q: i64 = fx_div(d, fx_mul(n.length(), direction.length()));
                    let f: i64 = if q < 0 {
                        0
                    } else if q > SCALE {
                        SCALE
                    } else {
                        q
                    };
                    acc = fx_add(acc, fx_mul(intensity, f));
                }
            },
        }
        k = k + 1;
        proof {
            assert(scene.lights@.take(k as int).drop_last() =~= scene.lights@.take(k as int - 1));
            assert(scene.lights@.take(k as int).last() == scene.lights@[k as int - 1]);
        }
    }
    proof {
        assert(scene.lights@.take(scene.lights@.len() as int) =~= scene.lights@);
    }
    acc
}

} // verus!
