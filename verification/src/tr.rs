//! Polar points: the native coordinate space of the drawing table.

use crate::fixed::{cos_fp, div_floor, sin_fp, spec_cos, spec_sin, ONE};
use crate::xy::{xy_ok, XY};
use vstd::arithmetic::div_mod::lemma_div_multiples_vanish;
use vstd::prelude::*;

verus! {

/// Bound on the magnitude of an angle (fixed-point radians); generous enough
/// for many thousand windings while keeping interpolation free of overflow.
pub const T_MAX: i64 = 0x1_0000_0000;

/// Bound on the magnitude of a radius (fixed-point, nominal range `[0, ONE]`).
pub const R_MAX: i64 = 4 * ONE;

/// A point in polar Theta-R space: `t` is the angle in fixed-point radians
/// (unbounded windings allowed, within `T_MAX`), `r` the normalized radius.
#[derive(Clone, Copy, Debug, PartialEq, Eq, Structural)]
pub struct TR {
    pub t: i64,
    pub r: i64,
}

/// A polar point within the range the projection arithmetic can carry.
pub open spec fn tr_ok(p: TR) -> bool {
    -T_MAX <= p.t <= T_MAX && -R_MAX <= p.r <= R_MAX
}

/// The horizontal Cartesian coordinate of a polar point: `r cos t`.
pub open spec fn spec_xy_x(p: TR) -> int {
    spec_cos(p.t as int) * p.r / (ONE as int)
}

/// The vertical Cartesian coordinate of a polar point: `r sin t`.
pub open spec fn spec_xy_y(p: TR) -> int {
    spec_sin(p.t as int) * p.r / (ONE as int)
}

/// One component of the linear interpolation from `a` to `b` at parameter
/// `n` scaled by `ONE`; applied to `t` and `r` independently, this is what
/// makes an arc a spiral-like curve.
pub open spec fn spec_lerp(a: int, b: int, n: int) -> int {
    a + n * (b - a) / (ONE as int)
}

/// The polar point interpolated from `a` toward `b` at parameter `n`.
pub open spec fn spec_interp(a: TR, b: TR, n: int) -> TR {
    TR {
        t: spec_lerp(a.t as int, b.t as int, n) as i64,
        r: spec_lerp(a.r as int, b.r as int, n) as i64,
    }
}

/// At parameter `ONE` the interpolation lands exactly on its target.
pub proof fn lemma_interp_one(a: TR, b: TR)
    ensures
        spec_interp(a, b, ONE as int) == b,
{
    lemma_div_multiples_vanish((b.t - a.t) as int, ONE as int);
    lemma_div_multiples_vanish((b.r - a.r) as int, ONE as int);
}

fn scale_unit(c: i64, r: i64) -> (v: i64)
    requires
        -ONE <= c <= ONE,
        -R_MAX <= r <= R_MAX,
    ensures
        v == c as int * r as int / (ONE as int),
        -R_MAX <= v <= R_MAX,
{
    proof {
        assert(-((4 * 65536) * 65536) <= (c as int) * (r as int)
            && (c as int) * (r as int) <= (4 * 65536) * 65536) by (nonlinear_arith)
            requires -65536 <= c <= 65536, -(4 * 65536) <= r <= 4 * 65536;
    }
    div_floor(c * r, ONE)
}

fn interp_axis(a: i64, b: i64, n: i64, bound: i64) -> (v: i64)
    requires
        0 < bound <= T_MAX,
        -bound <= a <= bound,
        -bound <= b <= bound,
        0 <= n <= ONE,
    ensures
        v == spec_lerp(a as int, b as int, n as int),
        -bound <= v <= bound,
        n == 0 ==> v == a,
        n == ONE ==> v == b,
{
    let d = b - a;
    proof {
        let step = (n as int) * (d as int);
        assert(if d >= 0 { 0 <= step <= (ONE as int) * (d as int) } else {
            (ONE as int) * (d as int) <= step <= 0
        }) by (nonlinear_arith)
            requires 0 <= n <= ONE, step == (n as int) * (d as int);
        assert((ONE as int) * (d as int) / (ONE as int) == d as int) by {
            lemma_div_multiples_vanish(d as int, ONE as int);
        }
    }
    let v = a + div_floor(n * d, ONE);
    v
}

impl TR {
    /// The Cartesian image of this polar point.
    pub fn xy(self) -> (p: XY)
        requires
            tr_ok(self),
        ensures
            p.x == spec_xy_x(self),
            p.y == spec_xy_y(self),
            xy_ok(p),
    {
        let c = cos_fp(self.t);
        let s = sin_fp(self.t);
        XY { x: scale_unit(c, self.r), y: scale_unit(s, self.r) }
    }

    /// Interpolate from this point toward `other`, at parameter `n` in
    /// `[0, ONE]`; each polar component moves linearly and independently.
    pub fn interp_to(self, other: TR, n: i64) -> (p: TR)
        requires
            tr_ok(self),
            tr_ok(other),
            0 <= n <= ONE,
        ensures
            p == spec_interp(self, other, n as int),
            p.t == spec_lerp(self.t as int, other.t as int, n as int),
            p.r == spec_lerp(self.r as int, other.r as int, n as int),
            tr_ok(p),
            n == 0 ==> p == self,
            n == ONE ==> p == other,
    {
        TR {
            t: interp_axis(self.t, other.t, n, T_MAX),
            r: interp_axis(self.r, other.r, n, R_MAX),
        }
    }
}

} // verus!
