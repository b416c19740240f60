//! The logical raster and its two coordinate systems.
//!
//! Canvas offsets are signed and centered on the raster: columns run over
//! `-width/2 .. width/2` and rows over `-height/2 .. height/2`, with canvas
//! y growing upward. The external surface is addressed top-left-origin with
//! screen y growing downward.

use vstd::prelude::*;
use vstd::arithmetic::div_mod::lemma_fundamental_div_mod_converse;

verus! {

/// The logical raster of `width x height` pixels.
#[derive(Clone, Copy, Debug, PartialEq, Eq, Structural)]
pub struct Canvas {
    pub width: i32,
    pub height: i32,
}

impl Canvas {
    /// A canvas has non-negative extents.
    pub open spec fn wf(self) -> bool {
        0 <= self.width && 0 <= self.height
    }

    /// Number of pixel columns walked: the offsets `-width/2 .. width/2`.
    pub open spec fn cols(self) -> int {
        2 * (self.width as int / 2)
    }

    /// Number of pixel rows walked: the offsets `-height/2 .. height/2`.
    pub open spec fn rows(self) -> int {
        2 * (self.height as int / 2)
    }

    /// The canvas offset visited in position `k` of the scan: `cx` outer
    /// and ascending, `cy` inner and ascending.
    pub open spec fn offset_at(self, k: int) -> (i32, i32) {
        (
            (-(self.width as int / 2) + k / self.rows()) as i32,
            (-(self.height as int / 2) + k % self.rows()) as i32,
        )
    }

    /// Every canvas offset, in scan order.
    pub open spec fn offsets(self) -> Seq<(i32, i32)> {
        Seq::new((self.cols() * self.rows()) as nat, |k: int| self.offset_at(k))
    }

    /// Where a canvas offset lands on the external surface:
    /// `(width/2 + x, height/2 - y)` — the y axis flips, because canvas y
    /// grows upward while screen y grows downward.
    pub open spec fn to_screen_spec(self, x: int, y: int) -> (int, int) {
        (self.width as int / 2 + x, self.height as int / 2 - y)
    }

    /// Maps a canvas offset to its screen coordinate.
    pub fn to_screen(self, x: i32, y: i32) -> (p: (i32, i32))
        requires
            self.wf(),
            -(self.width as int / 2) <= x <= self.width as int / 2,
            -(self.height as int / 2) <= y <= self.height as int / 2,
        ensures
            p.0 as int == self.to_screen_spec(x as int, y as int).0,
            p.1 as int == self.to_screen_spec(x as int, y as int).1,
    {
        let hw: i32 = self.width / 2;
        let hh: i32 = self.height / 2;
        (hw + x, hh - y)
    }

    /// Walks every canvas offset in scan order. Each offset lies strictly
    /// below the half-extent and at or above its negation.
    pub fn each(self) -> (v: Vec<(i32, i32)>)
        requires
            self.wf(),
        ensures
            v@ == self.offsets(),
            forall|i: int|
                0 <= i < v@.len() ==> -(self.width as int / 2) <= (#[trigger] v@[i]).0
                    < self.width as int / 2 && -(self.height as int / 2) <= v@[i].1
                    < self.height as int / 2,
    {
        let hw: i32 = self.width / 2;
        let hh: i32 = self.height / 2;
        let mut v: Vec<(i32, i32)> = Vec::new();
        let mut cx: i32 = -hw;
        proof {
            assert((cx + hw) * self.rows() == 0) by (nonlinear_arith)
                requires
                    cx + hw == 0,
            ;
        }
        while cx < hw
            invariant
                self.wf(),
                hw == self.width as int / 2,
                hh == self.height as int / 2,
                -hw <= cx <= hw,
                v@.len() == (cx + hw) * self.rows(),
                v@ =~= self.offsets().take((cx + hw) * self.rows()),
                forall|i: int|
                    0 <= i < v@.len() ==> -hw <= (#[trigger] v@[i]).0 < hw && -hh <= v@[i].1
                        < hh,
            decreases hw - cx,
        {
            let mut cy: i32 = -hh;
            while cy < hh
                invariant
                    self.wf(),
                    hw == self.width as int / 2,
                    hh == self.height as int / 2,
                    -hw <= cx < hw,
                    -hh <= cy <= hh,
                    v@.len() == (cx + hw) * self.rows() + (cy + hh),
                    v@ =~= self.offsets().take((cx + hw) * self.rows() + (cy + hh)),
                    forall|i: int|
                        0 <= i < v@.len() ==> -hw <= (#[trigger] v@[i]).0 < hw && -hh <= v@[i].1
                            < hh,
                decreases hh - cy,
            {
                proof {
                    let k: int = (cx + hw) * self.rows() + (cy + hh);
                    lemma_fundamental_div_mod_converse(k, self.rows(), cx + hw, cy + hh);
                    assert(0 <= k < self.cols() * self.rows()) by (nonlinear_arith)
                        requires
                            0 <= cx + hw < self.cols(),
                            0 <= cy + hh < self.rows(),
                            k == (cx + hw) * self.rows() + (cy + hh),
                    ;
                    assert(self.offsets()[k] == (cx, cy));
                }
                v.push((cx, cy));
                cy = cy + 1;
            }
            proof {
                assert((cx + hw) * self.rows() + self.rows() == (cx + 1 + hw) * self.rows())
                    by (nonlinear_arith);
            }
            cx = cx + 1;
        }
        proof {
            assert((cx + hw) * self.rows() == self.cols() * self.rows());
            assert(v@ =~= self.offsets());
        }
        v
    }
}

} // verus!
