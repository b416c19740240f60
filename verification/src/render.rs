//! The frame renderer: one ray per canvas offset, rendered exactly once.

use vstd::prelude::*;
use crate::canvas::Canvas;
use crate::color::Color;
use crate::fixed::{INF, SCALE};
use crate::projection::{canvas_2_viewport, project_spec, Viewport};
use crate::scene::{Light, Scene, Sphere};
use crate::trace::{trace_ray, trace_spec};
use crate::vec3::{Vec3, V3};

verus! {

/// One rendered pixel: a screen coordinate and the color traced for it.
#[derive(Clone, Copy, Debug, PartialEq, Eq, Structural)]
pub struct Pixel {
    pub x: i32,
    pub y: i32,
    pub color: Color,
}

/// The fixed camera: rays start at the coordinate-system origin.
pub open spec fn camera_origin() -> V3 {
    V3 { x: 0, y: 0, z: 0 }
}

/// The frame renderer's viewport: a unit plane at unit distance.
pub open spec fn frame_viewport() -> Viewport {
    Viewport { width: SCALE, height: SCALE, distance: SCALE }
}

/// What position `k` of the scan shows: the ray through canvas offset
/// `offset_at(k)` is traced from the origin over `(1, INF)` — the lower
/// bound excludes the camera's immediate neighbourhood — and the color
/// lands at the offset's screen coordinate.
pub open spec fn pixel_spec(c: Canvas, spheres: Seq<Sphere>, lights: Seq<Light>, k: int) -> Pixel {
    let off: (i32, i32) = c.offset_at(k);
    let d: V3 = project_spec(
        off.0 as int,
        off.1 as int,
        c.width as int,
        c.height as int,
        frame_viewport(),
    );
    let col: Color = trace_spec(camera_origin(), d, SCALE as int, INF as int, spheres, lights);
    let sp: (int, int) = c.to_screen_spec(off.0 as int, off.1 as int);
    Pixel { x: sp.0 as i32, y: sp.1 as i32, color: col }
}

/// The whole frame, in scan order.
pub open spec fn render_spec(c: Canvas, spheres: Seq<Sphere>, lights: Seq<Light>) -> Seq<Pixel> {
    Seq::new((c.cols() * c.rows()) as nat, |k: int| pixel_spec(c, spheres, lights, k))
}

/// Rendering is idempotent: the rendered frame is a pure function of the
/// canvas and the scene, with no hidden state, so two frames produced from
/// identical inputs are pixel-identical.
pub proof fn lemma_render_deterministic(
    c: Canvas,
    spheres: Seq<Sphere>,
    lights: Seq<Light>,
    a: Seq<Pixel>,
    b: Seq<Pixel>,
)
    requires
        a == render_spec(c, spheres, lights),
        b == render_spec(c, spheres, lights),
    ensures
        a == b,
{
}

/// Renders the scene once: for every canvas offset, project its ray, trace
/// it against the scene, and record the resulting color at the offset's
/// screen coordinate. The result is a pure function of canvas and scene.
pub fn render_frame(canvas: Canvas, scene: &Scene) -> (v: Vec<Pixel>)
    requires
        canvas.wf(),
    ensures
        v@ == render_spec(canvas, scene.spheres@, scene.lights@),
{
    let coords: Vec<(i32, i32)> = canvas.each();
    let origin: Vec3 = Vec3 { x: 0, y: 0, z: 0 };
    let viewport: Viewport = Viewport { width: SCALE, height: SCALE, distance: SCALE };
    let mut out: Vec<Pixel> = Vec::new();
    let mut k: usize = 0;
    while k < coords.len()
        invariant
            canvas.wf(),
            coords@ == canvas.offsets(),
            forall|i: int|
                0 <= i < coords@.len() ==> -(canvas.width as int / 2) <= (#[trigger] coords@[i]).0
                    < canvas.width as int / 2 && -(canvas.height as int / 2) <= coords@[i].1
                    < canvas.height as int / 2,
            origin@ == camera_origin(),
            viewport == frame_viewport(),
            k <= coords.len(),
            out@ =~= render_spec(canvas, scene.spheres@, scene.lights@).take(k as int),
        decreases coords.len() - k,
    {
        let off: (i32, i32) = coords[k];
        let d: Vec3 = canvas_2_viewport(off.0, off.1, canvas.width, canvas.height, viewport);
        let col: Color = trace_ray(origin, d, SCALE, INF, scene);
        let sp: (i32, i32) = canvas.to_screen(off.0, off.1);
        out.push(Pixel { x: sp.0, y: sp.1, color: col });
        k = k + 1;
    }
    proof {
        assert(out@ =~= render_spec(canvas, scene.spheres@, scene.lights@));
    }
    out
}

} // verus!
