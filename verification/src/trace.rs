//! Closest-hit selection and shading of one ray against the whole scene.

use vstd::prelude::*;
use crate::color::{background, background_spec, color_scaled, Color};
use crate::fixed::{fmul, fsub, sat, tdiv, FX_FOUR, FX_TWO, INF, SCALE};
use crate::intersect::{intersect_ray_sphere, isect, isect_disc};
use crate::lighting::{compute_lighting, shade_spec};
use crate::scene::{Light, Scene, Sphere};
use crate::vec3::{v3_add, v3_dot, v3_normalized, v3_scale, v3_sub, Vec3, V3};

verus! {

/// One step of closest-hit bookkeeping: both roots of one sphere are
/// candidates when strictly inside `(min_t, max_t)`, taken first root
/// before second, and the running best updates only on a strictly smaller
/// `t` — which is what breaks ties by scan order.
pub open spec fn hit_step(
    o: V3,
    d: V3,
    min_t: int,
    max_t: int,
    s: Sphere,
    idx: int,
    cur: (int, Option<int>),
) -> (int, Option<int>) {
    let roots: (int, int) = isect(o, d, s.center@, s.radius as int);
    let after1: (int, Option<int>) = if min_t < roots.0 && roots.0 < max_t && roots.0 < cur.0 {
        (roots.0, Some(idx))
    } else {
        cur
    };
    if min_t < roots.1 && roots.1 < max_t && roots.1 < after1.0 {
        (roots.1, Some(idx))
    } else {
        after1
    }
}

/// The closest hit over a sequence of spheres, scanned in order starting
/// from the sentinel `(INF, None)`: the smallest candidate `t` and the
/// index of its sphere.
pub open spec fn best_hit(
    o: V3,
    d: V3,
    min_t: int,
    max_t: int,
    spheres: Seq<Sphere>,
) -> (int, Option<int>)
    decreases spheres.len(),
{
    if spheres.len() == 0 {
        (INF as int, None)
    } else {
        let prev: (int, Option<int>) = best_hit(o, d, min_t, max_t, spheres.drop_last());
        hit_step(o, d, min_t, max_t, spheres.last(), spheres.len() - 1, prev)
    }
}

/// The color one ray yields: the background when no candidate root exists,
/// otherwise the closest sphere's color scaled by the lighting intensity at
/// the hit point.
pub open spec fn trace_spec(
    o: V3,
    d: V3,
    min_t: int,
    max_t: int,
    spheres: Seq<Sphere>,
    lights: Seq<Light>,
) -> Color {
    let bh: (int, Option<int>) = best_hit(o, d, min_t, max_t, spheres);
    match bh.1 {
        Option::None => background_spec(),
        Option::Some(i) => {
            let s: Sphere = spheres[i];
            let p: V3 = v3_add(o, v3_scale(bh.0, d));
            let n: V3 = v3_normalized(v3_sub(p, s.center@));
            color_scaled(s.color, shade_spec(p, n, lights))
        },
    }
}

/// The smallest candidate root one sphere alone offers in `(min_t, max_t)`,
/// or the sentinel when it offers none.
pub open spec fn best_candidate(o: V3, d: V3, min_t: int, max_t: int, s: Sphere) -> int {
    let roots: (int, int) = isect(o, d, s.center@, s.radius as int);
    let c1: int = if min_t < roots.0 && roots.0 < max_t {
        roots.0
    } else {
        INF as int
    };
    if min_t < roots.1 && roots.1 < max_t && roots.1 < c1 {
        roots.1
    } else {
        c1
    }
}

/// Closest-hit tie-break: when two spheres' best candidate roots are
/// numerically equal (and exist), the scan over the pair selects the
/// sphere that comes earlier in the sequence, at that root.
pub proof fn lemma_tie_break(o: V3, d: V3, min_t: i64, max_t: i64, s0: Sphere, s1: Sphere)
    requires
        best_candidate(o, d, min_t as int, max_t as int, s0) == best_candidate(
            o,
            d,
            min_t as int,
            max_t as int,
            s1,
        ),
        best_candidate(o, d, min_t as int, max_t as int, s0) != INF as int,
    ensures
        best_hit(o, d, min_t as int, max_t as int, seq![s0, s1]) == (
            best_candidate(o, d, min_t as int, max_t as int, s0),
            Some(0int),
        ),
{
    let ss: Seq<Sphere> = seq![s0, s1];
    assert(ss.drop_last() =~= seq![s0]);
    assert(seq![s0].drop_last() =~= Seq::<Sphere>::empty());
    assert(best_hit(o, d, min_t as int, max_t as int, Seq::<Sphere>::empty()) == (
        INF as int,
        Option::<int>::None,
    ));
    let bc: int = best_candidate(o, d, min_t as int, max_t as int, s0);
    assert(best_hit(o, d, min_t as int, max_t as int, seq![s0]) == (bc, Some(0int)));
}

/// What a whole scan produces: the least candidate root any sphere in the
/// sequence offers, held by the first sphere that attains it; the sentinel
/// with no index when no sphere offers a candidate.
#[verifier::rlimit(60)]
proof fn lemma_best_hit_first_min(o: V3, d: V3, min_t: i64, max_t: i64, spheres: Seq<Sphere>)
    ensures
        ({
            let bh = best_hit(o, d, min_t as int, max_t as int, spheres);
            &&& bh.0 <= INF as int
            &&& forall|k: int|
                0 <= k < spheres.len() ==> bh.0 <= best_candidate(
                    o,
                    d,
                    min_t as int,
                    max_t as int,
                    #[trigger] spheres[k],
                )
            &&& (bh.1 is None ==> bh.0 == INF as int)
            &&& (bh.1 matches Some(w) ==> 0 <= w < spheres.len() && bh.0 != INF as int
                && best_candidate(o, d, min_t as int, max_t as int, spheres[w]) == bh.0 && (
            forall|k: int|
                0 <= k < w ==> best_candidate(
                    o,
                    d,
                    min_t as int,
                    max_t as int,
                    #[trigger] spheres[k],
                ) > bh.0))
        }),
    decreases spheres.len(),
{
    if spheres.len() == 0 {
    } else {
        lemma_best_hit_first_min(o, d, min_t, max_t, spheres.drop_last());
        let pre = spheres.drop_last();
        let prev = best_hit(o, d, min_t as int, max_t as int, pre);
        let s = spheres.last();
        let bc: int = best_candidate(o, d, min_t as int, max_t as int, s);
        let n: int = spheres.len() - 1;
        assert(hit_step(o, d, min_t as int, max_t as int, s, n, prev) == (
        if bc < prev.0 {
            (bc, Some(n))
        } else {
            prev
        }));
        let bh = best_hit(o, d, min_t as int, max_t as int, spheres);
        assert forall|k: int|
            0 <= k < spheres.len() implies bh.0 <= best_candidate(
            o,
            d,
            min_t as int,
            max_t as int,
            #[trigger] spheres[k],
        ) by {
            if k < n {
                assert(pre[k] == spheres[k]);
                assert(prev.0 <= best_candidate(o, d, min_t as int, max_t as int, pre[k]));
            }
        }
        match bh.1 {
            Option::Some(w) => {
                if w == n {
                    assert forall|k: int|
                        0 <= k < w implies best_candidate(
                        o,
                        d,
                        min_t as int,
                        max_t as int,
                        #[trigger] spheres[k],
                    ) > bh.0 by {
                        assert(pre[k] == spheres[k]);
                        assert(prev.0 <= best_candidate(o, d, min_t as int, max_t as int, pre[k]));
                    }
                } else {
                    assert(prev.1 == Some(w));
                    assert(pre[w] == spheres[w]);
                    assert(best_candidate(o, d, min_t as int, max_t as int, pre[w]) == prev.0);
                    assert forall|k: int|
                        0 <= k < w implies best_candidate(
                        o,
                        d,
                        min_t as int,
                        max_t as int,
                        #[trigger] spheres[k],
                    ) > bh.0 by {
                        assert(pre[k] == spheres[k]);
                        assert(best_candidate(o, d, min_t as int, max_t as int, pre[k]) > prev.0);
                    }
                }
            },
            Option::None => {},
        }
    }
}

/// Closest-hit tie-break over a whole scene: when the sphere at index `i`
/// attains the least candidate root of every sphere, no sphere before it
/// attains that root, and the sphere at the later index `j` ties it, the
/// scan selects the sphere at index `i` at that root, and the ray's color
/// is that sphere's shaded color.
pub proof fn lemma_tie_break_in_scene(
    o: V3,
    d: V3,
    min_t: i64,
    max_t: i64,
    spheres: Seq<Sphere>,
    lights: Seq<Light>,
    i: int,
    j: int,
)
    requires
        0 <= i < j < spheres.len(),
        best_candidate(o, d, min_t as int, max_t as int, spheres[i]) == best_candidate(
            o,
            d,
            min_t as int,
            max_t as int,
            spheres[j],
        ),
        best_candidate(o, d, min_t as int, max_t as int, spheres[i]) != INF as int,
        forall|k: int|
            0 <= k < spheres.len() ==> best_candidate(
                o,
                d,
                min_t as int,
                max_t as int,
                #[trigger] spheres[k],
            ) >= best_candidate(o, d, min_t as int, max_t as int, spheres[i]),
        forall|k: int|
            0 <= k < i ==> best_candidate(o, d, min_t as int, max_t as int, #[trigger] spheres[k])
                > best_candidate(o, d, min_t as int, max_t as int, spheres[i]),
    ensures
        best_hit(o, d, min_t as int, max_t as int, spheres) == (
            best_candidate(o, d, min_t as int, max_t as int, spheres[i]),
            Some(i),
        ),
        trace_spec(o, d, min_t as int, max_t as int, spheres, lights) == ({
            let t = best_candidate(o, d, min_t as int, max_t as int, spheres[i]);
            let p = v3_add(o, v3_scale(t, d));
            let n = v3_normalized(v3_sub(p, spheres[i].center@));
            color_scaled(spheres[i].color, shade_spec(p, n, lights))
        }),
{
    lemma_best_hit_first_min(o, d, min_t, max_t, spheres);
    let bh = best_hit(o, d, min_t as int, max_t as int, spheres);
    let bci: int = best_candidate(o, d, min_t as int, max_t as int, spheres[i]);
    assert(bh.0 <= bci);
    match bh.1 {
        Option::None => {
            assert(false);
        },
        Option::Some(w) => {
            assert(best_candidate(o, d, min_t as int, max_t as int, spheres[w]) >= bci);
            assert(bh.0 == bci);
            if w < i {
                assert(best_candidate(o, d, min_t as int, max_t as int, spheres[w]) > bci);
                assert(false);
            }
            if w > i {
                assert(bci > bh.0);
                assert(false);
            }
        },
    }
}

/// A sphere on the +z axis that sits no closer to the origin than its own
/// radius offers a ray cast along +x from the origin no root past the
/// camera: the quadratic yields the sentinel pair or roots at most zero.
proof fn lemma_axis_sphere_roots(s: Sphere)
    requires
        s.center@.x == 0,
        s.center@.y == 0,
        0 < s.radius,
        s.radius as int <= s.center@.z,
    ensures
        ({
            let roots = isect(
                V3 { x: 0, y: 0, z: 0 },
                V3 { x: SCALE as int, y: 0, z: 0 },
                s.center@,
                s.radius as int,
            );
            (roots.0 == INF as int && roots.1 == INF as int) || (roots.0 <= 0 && roots.1 <= 0)
        }),
{
    let o = V3 { x: 0, y: 0, z: 0 };
    let d = V3 { x: SCALE as int, y: 0, z: 0 };
    let z: int = s.center@.z;
    let r: int = s.radius as int;
    let a: int = v3_dot(d, d);
    assert(a == SCALE as int);
    let co = v3_sub(o, s.center@);
    assert(co.x == 0 && co.y == 0 && co.z == -z);
    assert(co.z * d.z == 0 && co.x * d.x == 0 && co.y * d.y == 0) by (nonlinear_arith)
        requires
            co.x == 0,
            co.y == 0,
            d.z == 0,
    ;
    assert(v3_dot(co, d) == 0);
    let b: int = fmul(FX_TWO as int, v3_dot(co, d));
    assert(b == 0);
    assert(co.x * co.x == 0 && co.y * co.y == 0) by (nonlinear_arith)
        requires
            co.x == 0,
            co.y == 0,
    ;
    assert(0 <= r * r <= z * z && co.z * co.z == z * z) by (nonlinear_arith)
        requires
            0 < r <= z,
            co.z == -z,
    ;
    let dotco: int = v3_dot(co, co);
    assert(dotco == sat(tdiv(z * z, SCALE as int)));
    let rr: int = fmul(r, r);
    let cc: int = fsub(dotco, rr);
    assert(cc >= 0);
    let four_a: int = fmul(FX_FOUR as int, a);
    assert(four_a == 4 * (SCALE as int));
    assert(four_a * cc >= 0) by (nonlinear_arith)
        requires
            four_a >= 0,
            cc >= 0,
    ;
    let disc: int = isect_disc(o, d, s.center@, r);
    assert(disc == fsub(fmul(b, b), fmul(four_a, cc)));
    assert(disc <= 0);
    if disc < 0 {
    } else {
        let two_a: int = fmul(FX_TWO as int, a);
        assert(two_a == 2 * (SCALE as int));
        let roots = isect(o, d, s.center@, r);
        assert(roots.0 == 0 && roots.1 == 0);
    }
}

/// A ray cast along +x from the origin finds no candidate in a scene whose
/// spheres all sit on the +z axis no closer to the origin than their radii,
/// as long as the scan does not look behind the camera.
proof fn lemma_axis_best_hit(min_t: i64, max_t: i64, spheres: Seq<Sphere>)
    requires
        min_t >= 0,
        forall|i: int|
            0 <= i < spheres.len() ==> (#[trigger] spheres[i]).center@.x == 0
                && spheres[i].center@.y == 0 && 0 < spheres[i].radius
                && spheres[i].radius as int <= spheres[i].center@.z,
    ensures
        best_hit(
            V3 { x: 0, y: 0, z: 0 },
            V3 { x: SCALE as int, y: 0, z: 0 },
            min_t as int,
            max_t as int,
            spheres,
        ) == (INF as int, Option::<int>::None),
    decreases spheres.len(),
{
    if spheres.len() == 0 {
    } else {
        lemma_axis_best_hit(min_t, max_t, spheres.drop_last());
        lemma_axis_sphere_roots(spheres.last());
    }
}

/// A ray with direction `(1, 0, 0)` from the origin, against any scene
/// whose spheres all lie on the +z axis no closer to the origin than their
/// radii, yields the background color: no sphere is intersected.
pub proof fn lemma_axis_ray_misses(
    min_t: i64,
    max_t: i64,
    spheres: Seq<Sphere>,
    lights: Seq<Light>,
)
    requires
        min_t >= 0,
        forall|i: int|
            0 <= i < spheres.len() ==> (#[trigger] spheres[i]).center@.x == 0
                && spheres[i].center@.y == 0 && 0 < spheres[i].radius
                && spheres[i].radius as int <= spheres[i].center@.z,
    ensures
        trace_spec(
            V3 { x: 0, y: 0, z: 0 },
            V3 { x: SCALE as int, y: 0, z: 0 },
            min_t as int,
            max_t as int,
            spheres,
            lights,
        ) == background_spec(),
{
    lemma_axis_best_hit(min_t, max_t, spheres);
}

/// Scans every sphere for the closest candidate root in the open interval
/// `(min_t, max_t)` and shades the nearest hit; no hit yields the
/// background color.
pub fn trace_ray(origin: Vec3, direction: Vec3, min_t: i64, max_t: i64, scene: &Scene) -> (c:
    Color)
    ensures
        c == trace_spec(
            origin@,
            direction@,
            min_t as int,
            max_t as int,
            scene.spheres@,
            scene.lights@,
        ),
{
    let mut closest_t: i64 = INF;
    let mut closest: Option<usize> = None;
    let mut k: usize = 0;
    while k < scene.spheres.len()
        invariant
            k <= scene.spheres.len(),
            ({
                let bh = best_hit(
                    origin@,
                    direction@,
                    min_t as int,
                    max_t as int,
                    scene.spheres@.take(k as int),
                );
                closest_t as int == bh.0 && (match closest {
                    Option::Some(j) => j < k && bh.1 == Some(j as int),
                    Option::None => bh.1 is None,
                })
            }),
        decreases scene.spheres.len() - k,
    {
        let sphere: Sphere = scene.spheres[k];
        let ts: (i64, i64) = intersect_ray_sphere(origin, direction, &sphere);
        if min_t < ts.0 && ts.0 < max_t && ts.0 < closest_t {
            closest_t = ts.0;
            closest = Some(k);
        }
        if min_t < ts.1 && ts.1 < max_t && ts.1 < closest_t {
            closest_t = ts.1;
            closest = Some(k);
        }
        k = k + 1;
        proof {
            assert(scene.spheres@.take(k as int).drop_last() =~= scene.spheres@.take(
                k as int - 1,
            ));
            assert(scene.spheres@.take(k as int).last() == scene.spheres@[k as int - 1]);
        }
    }
    proof {
        assert(scene.spheres@.take(scene.spheres@.len() as int) =~= scene.spheres@);
    }
    match closest {
        None => background(),
        Some(i) => {
            let sphere: Sphere = scene.spheres[i];
            let p: Vec3 = origin.add(direction.scaled(closest_t));
            let n: Vec3 = p.sub(sphere.center).normalized();
            let intensity: i64 = compute_lighting(p, n, scene);
            sphere.color.scaled(intensity)
        },
    }
}

} // verus!

