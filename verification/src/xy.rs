//! Cartesian points and their projection into canvas pixel space.

use crate::fixed::{div_floor, ONE};
use vstd::prelude::*;

verus! {

/// Largest canvas dimension the renderer accepts, in pixels.
pub const DIM_MAX: u32 = 4096;

/// Bound on the magnitude of a normalized Cartesian coordinate (fixed-point);
/// radii are nominally in `[0, ONE]` but are not clamped, so some slack is
/// allowed before the arithmetic would overflow.
pub const XY_MAX: i64 = 4 * ONE;

/// Bound on the magnitude of a projected sub-pixel coordinate (fixed-point).
pub const PX_MAX: i64 = 0x4000_0000;

/// A point in Cartesian X-Y space, fixed-point, nominally in the unit disk.
#[derive(Clone, Copy, Debug, PartialEq, Eq, Structural)]
pub struct XY {
    pub x: i64,
    pub y: i64,
}

/// A sub-pixel position on the canvas, fixed-point.
#[derive(Clone, Copy, Debug, PartialEq, Eq, Structural)]
pub struct PixelPt {
    pub x: i64,
    pub y: i64,
}

/// An ordered pair of canvas positions: one short piece of a discretized arc.
#[derive(Clone, Copy, Debug, PartialEq, Eq, Structural)]
pub struct Segment {
    pub a: PixelPt,
    pub b: PixelPt,
}

/// Canvas dimensions the renderer accepts.
pub open spec fn dims_ok(w: u32, h: u32) -> bool {
    1 <= w <= DIM_MAX && 1 <= h <= DIM_MAX
}

/// A Cartesian point whose coordinates the projection arithmetic can carry.
pub open spec fn xy_ok(p: XY) -> bool {
    -XY_MAX <= p.x <= XY_MAX && -XY_MAX <= p.y <= XY_MAX
}

/// A canvas position within the range the rasterizer arithmetic can carry.
pub open spec fn px_ok(p: PixelPt) -> bool {
    -PX_MAX <= p.x <= PX_MAX && -PX_MAX <= p.y <= PX_MAX
}

/// The squared pixel length of a segment from `a` to `b`.
pub open spec fn spec_seg_len2(a: PixelPt, b: PixelPt) -> int {
    (b.x - a.x) * (b.x - a.x) + (b.y - a.y) * (b.y - a.y)
}

/// One coordinate of the projection: a normalized value `c` mapped onto an
/// axis of `d` pixels lands at `d/2 + c*d/2`, still scaled by `ONE`.
pub open spec fn spec_on_axis(c: int, d: int) -> int {
    d * (ONE + c) / 2
}

/// `q` is the image of the Cartesian point `p` in the pixel space of a
/// `w` by `h` canvas.
pub open spec fn is_on(q: PixelPt, p: XY, w: u32, h: u32) -> bool {
    q.x == spec_on_axis(p.x as int, w as int) && q.y == spec_on_axis(p.y as int, h as int)
}

fn on_axis(c: i64, d: u32) -> (r: i64)
    requires
        -XY_MAX <= c <= XY_MAX,
        1 <= d <= DIM_MAX,
    ensures
        r == spec_on_axis(c as int, d as int),
        -PX_MAX <= r <= PX_MAX,
{
    proof {
        assert((d as int) * (ONE + c) <= 4096 * (5 * 65536)
            && (d as int) * (ONE + c) >= -(4096 * (3 * 65536))) by (nonlinear_arith)
            requires 1 <= d <= 4096, -(3 * 65536) <= ONE + c <= 5 * 65536;
    }
    let t = (d as i64) * (ONE + c);
    div_floor(t, 2)
}

impl XY {
    /// Map this point onto the pixel grid of the given `(width, height)`
    /// canvas, keeping sub-pixel precision for antialiasing.
    pub fn on(&self, dims: (u32, u32)) -> (r: PixelPt)
        requires
            dims_ok(dims.0, dims.1),
            xy_ok(*self),
        ensures
            is_on(r, *self, dims.0, dims.1),
            px_ok(r),
    {
        PixelPt { x: on_axis(self.x, dims.0), y: on_axis(self.y, dims.1) }
    }
}

} // verus!
