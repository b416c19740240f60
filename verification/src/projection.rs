//! Pixel-to-ray projection through a virtual viewport.

use vstd::prelude::*;
use crate::fixed::{idiv, imul};
use crate::fixed::{fx_idiv, fx_imul};
use crate::vec3::{Vec3, V3};

verus! {

/// The projection plane: its fixed-point size and its distance from the
/// camera along the view axis.
#[derive(Clone, Copy, Debug, PartialEq, Eq, Structural)]
pub struct Viewport {
    pub width: i64,
    pub height: i64,
    pub distance: i64,
}

/// The ray direction for canvas offset `(cx, cy)`: each axis is the offset
/// times the viewport extent per canvas pixel, the z component the viewport
/// distance. The mapping is linear and not normalized — the ray parameter
/// `t` downstream is a pure scale factor, so the direction need not be a
/// unit vector.
pub open spec fn project_spec(cx: int, cy: int, width: int, height: int, vp: Viewport) -> V3 {
    V3 {
        x: imul(cx, idiv(vp.width as int, width)),
        y: imul(cy, idiv(vp.height as int, height)),
        z: vp.distance as int,
    }
}

/// Maps a canvas offset to the direction of the ray cast through it.
pub fn canvas_2_viewport(x: i32, y: i32, width: i32, height: i32, viewport: Viewport) -> (d: Vec3)
    ensures
        d@ == project_spec(x as int, y as int, width as int, height as int, viewport),
{
    Vec3 {
        x: fx_imul(x as i64, fx_idiv(viewport.width, width as i64)),
        y: fx_imul(y as i64, fx_idiv(viewport.height, height as i64)),
        z: viewport.distance,
    }
}

} // verus!
