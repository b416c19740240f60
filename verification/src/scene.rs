//! The immutable scene: spheres and lights.

use vstd::prelude::*;
use crate::color::Color;
use crate::vec3::Vec3;

verus! {

/// A sphere with a strictly positive fixed-point radius.
#[derive(Clone, Copy, Debug, PartialEq, Eq, Structural)]
pub struct Sphere {
    pub radius: i64,
    pub center: Vec3,
    pub color: Color,
}

/// A light source. Each variant carries exactly the fields it needs, so a
/// malformed light is unrepresentable.
#[derive(Clone, Copy, Debug, PartialEq, Eq, Structural)]
pub enum Light {
    Ambient { intensity: i64 },
    Point { intensity: i64, position: Vec3 },
    Directional { intensity: i64, direction: Vec3 },
}

/// An immutable scene: ordered spheres and ordered lights. Both sequences
/// may be empty; an empty scene renders pure background.
#[derive(Debug)]
pub struct Scene {
    pub spheres: Vec<Sphere>,
    pub lights: Vec<Light>,
}

impl Scene {
    /// Every sphere in the scene has a strictly positive radius.
    pub open spec fn wf(self) -> bool {
        forall|i: int| 0 <= i < self.spheres@.len() ==> self.spheres@[i].radius > 0
    }

    /// Builds a scene. Degenerate geometry is rejected at construction time:
    /// the result is `Some` exactly when every sphere's radius is strictly
    /// positive, and then holds the given spheres and lights unchanged.
    pub fn new(spheres: Vec<Sphere>, lights: Vec<Light>) -> (r: Option<Scene>)
        ensures
            r is Some <==> (forall|i: int|
                0 <= i < spheres@.len() ==> spheres@[i].radius > 0),
            r matches Some(s) ==> s.spheres@ == spheres@ && s.lights@ == lights@ && s.wf(),
    {
        let mut k: usize = 0;
        while k < spheres.len()
            invariant
                k <= spheres.len(),
                forall|i: int| 0 <= i < k ==> spheres@[i].radius > 0,
            decreases spheres.len() - k,
        {
            if spheres[k].radius <= 0 {
                proof {
                    assert(spheres@[k as int].radius <= 0);
                }
                return None;
            }
            k = k + 1;
        }
        Some(Scene { spheres, lights })
    }
}

} // verus!
