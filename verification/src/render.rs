//! The antialiased line rasterizer and the fat-stroke renderer built on it.
//!
//! One scanning loop serves both shallow and steep lines: steep lines are
//! transposed into the shallow frame, scanned along their major axis, and
//! transposed back at the moment a pixel is addressed.

use crate::arc::{discretize, is_projection, spec_discretize};
use crate::canvas::{spec_plot, BlendMode, Canvas};
use crate::fixed::{div_floor, isqrt, mod_floor, spec_isqrt, ONE};
use crate::tr::{spec_interp, tr_ok, TR};
use crate::xy::{px_ok, spec_seg_len2, PixelPt, Segment, PX_MAX};
use vstd::arithmetic::div_mod::{lemma_div_is_ordered, lemma_div_multiples_vanish};
use vstd::math::abs;
use vstd::prelude::*;

verus! {

/// Sub-pixel coordinates the rasterizer accepts: the projection keeps points
/// within `PX_MAX`, and the wide-stroke offsets push them a little past it.
pub open spec fn px_loose(p: PixelPt) -> bool {
    -2 * PX_MAX <= p.x <= 2 * PX_MAX && -2 * PX_MAX <= p.y <= 2 * PX_MAX
}

/// The color of a stroke along its length: constant, or a gradient between
/// two intensities driven by the position parameter.
#[derive(Clone, Copy, Debug, PartialEq, Eq, Structural)]
pub enum ColorSpec {
    Constant(u8),
    Gradient(u8, u8),
}

/// The color at position `t` (fixed-point in `[0, ONE]`) along the stroke.
pub open spec fn spec_color_at(color: ColorSpec, t: int) -> u8 {
    match color {
        ColorSpec::Constant(c) => c,
        ColorSpec::Gradient(from, to) => (((from as int) * (ONE - t) + (to as int) * t)
            / (ONE as int)) as u8,
    }
}

/// Evaluate a stroke color at position `t` along the stroke.
pub fn color_at(color: ColorSpec, t: i64) -> (r: u8)
    requires
        0 <= t <= ONE,
    ensures
        r == spec_color_at(color, t as int),
{
    match color {
        ColorSpec::Constant(c) => c,
        ColorSpec::Gradient(from, to) => {
            proof {
                assert(0 <= (from as int) * (ONE - t as int)
                    && (from as int) * (ONE - t as int) <= 255 * (ONE - t as int)
                    && 0 <= (to as int) * (t as int)
                    && (to as int) * (t as int) <= 255 * (t as int)) by (nonlinear_arith)
                    requires 0 <= from <= 255, 0 <= to <= 255, 0 <= t <= ONE;
            }
            let v = ((from as i64) * (ONE - t) + (to as i64) * t) / ONE;
            v as u8
        },
    }
}

/// Whether the scan addresses pixels directly or transposed.
#[derive(Clone, Copy, Debug, PartialEq, Eq, Structural)]
pub enum Orientation {
    Shallow,
    Steep,
}

/// One antialiased write through an orientation: a steep write lands at the
/// transposed position.
pub open spec fn spec_oplot(
    c: Seq<u8>,
    w: u32,
    h: u32,
    mode: BlendMode,
    orient: Orientation,
    x: int,
    y: int,
    color: u8,
    cov: int,
) -> Seq<u8> {
    match orient {
        Orientation::Shallow => spec_plot(c, w, h, mode, x, y, color, cov),
        Orientation::Steep => spec_plot(c, w, h, mode, y, x, color, cov),
    }
}

/// Addresses pixels on a canvas through a fixed orientation and blend mode.
#[derive(Clone, Copy, Debug, PartialEq, Eq, Structural)]
pub struct Plotter {
    pub orient: Orientation,
    pub mode: BlendMode,
}

impl Plotter {
    /// Write one coverage-weighted pixel, transposing steep coordinates.
    pub fn plot(&self, canvas: &mut Canvas, x: i64, y: i64, color: u8, cov: i64)
        requires
            old(canvas).wf(),
            0 <= cov <= ONE,
        ensures
            final(canvas).wf(),
            final(canvas).width == old(canvas).width,
            final(canvas).height == old(canvas).height,
            final(canvas)@ == spec_oplot(
                old(canvas)@,
                old(canvas).width,
                old(canvas).height,
                self.mode,
                self.orient,
                x as int,
                y as int,
                color,
                cov as int,
            ),
    {
        match self.orient {
            Orientation::Shallow => canvas.plot(self.mode, x, y, color, cov),
            Orientation::Steep => canvas.plot(self.mode, y, x, color, cov),
        }
    }
}

/// The position parameter handed to the color function at scan column `k`
/// of `ncols`.
pub open spec fn spec_scan_t(k: int, ncols: int) -> int {
    if ncols <= 1 {
        0
    } else {
        k * (ONE as int) / (ncols - 1)
    }
}

/// The canvas after the scan has processed column `k`: the minor-axis
/// position `y0 + k*g` is split over the two bracketing pixels with
/// complementary coverage weights.
pub open spec fn spec_scan_col(
    c: Seq<u8>,
    w: u32,
    h: u32,
    mode: BlendMode,
    orient: Orientation,
    color: ColorSpec,
    c0: int,
    ncols: int,
    y0: int,
    g: int,
    k: int,
) -> Seq<u8> {
    let fy = y0 + k * g;
    let iy = fy / (ONE as int);
    let frac = fy % (ONE as int);
    let col = spec_color_at(color, spec_scan_t(k, ncols));
    let c2 = spec_oplot(c, w, h, mode, orient, c0 + k, iy, col, ONE - frac);
    spec_oplot(c2, w, h, mode, orient, c0 + k, iy + 1, col, frac)
}

/// The canvas after the first `k` columns of the scan.
pub open spec fn spec_scan(
    c: Seq<u8>,
    w: u32,
    h: u32,
    mode: BlendMode,
    orient: Orientation,
    color: ColorSpec,
    c0: int,
    ncols: int,
    y0: int,
    g: int,
    k: nat,
) -> Seq<u8>
    decreases k,
{
    if k == 0 {
        c
    } else {
        spec_scan_col(
            spec_scan(c, w, h, mode, orient, color, c0, ncols, y0, g, (k - 1) as nat),
            w,
            h,
            mode,
            orient,
            color,
            c0,
            ncols,
            y0,
            g,
            k - 1,
        )
    }
}

/// The fixed-point slope of the scan: minor-axis change per major-axis
/// column, zero for a degenerate (single-point) span.
pub open spec fn spec_gradient(a: PixelPt, b: PixelPt) -> int {
    if b.x == a.x {
        0
    } else {
        (b.y - a.y) * (ONE as int) / (b.x - a.x)
    }
}

/// The canvas after one full Wu scan from `a` to `b` (both already in the
/// shallow frame, major axis increasing).
pub open spec fn spec_wu_line(
    c: Seq<u8>,
    w: u32,
    h: u32,
    mode: BlendMode,
    orient: Orientation,
    color: ColorSpec,
    a: PixelPt,
    b: PixelPt,
) -> Seq<u8> {
    let c0 = a.x as int / (ONE as int);
    let c1 = b.x as int / (ONE as int);
    spec_scan(c, w, h, mode, orient, color, c0, c1 - c0 + 1, a.y as int, spec_gradient(a, b), (
    c1 - c0 + 1) as nat)
}

/// A ratio `v/d` with `|v| <= d`, scaled by `ONE`, stays within one unit.
proof fn lemma_unit_ratio(v: int, d: int)
    requires
        1 <= d,
        -d <= v,
        v <= d,
    ensures
        -(ONE as int) <= v * (ONE as int) / d,
        v * (ONE as int) / d <= ONE as int,
{
    assert((-d) * (ONE as int) <= v * (ONE as int) && v * (ONE as int) <= d * (ONE as int))
        by (nonlinear_arith)
        requires -d <= v <= d, 0 < d;
    lemma_div_is_ordered(v * (ONE as int), d * (ONE as int), d);
    lemma_div_is_ordered((-d) * (ONE as int), v * (ONE as int), d);
    lemma_div_multiples_vanish(ONE as int, d);
    lemma_div_multiples_vanish(-(ONE as int), d);
    assert((-d) * (ONE as int) == d * (-(ONE as int))) by (nonlinear_arith);
}

fn scan_gradient(a: PixelPt, b: PixelPt) -> (g: i64)
    requires
        px_loose(a),
        px_loose(b),
        a.x <= b.x,
        b.y - a.y <= b.x - a.x,
        a.y - b.y <= b.x - a.x,
    ensures
        g == spec_gradient(a, b),
        -ONE <= g <= ONE,
{
    if b.x == a.x {
        0
    } else {
        let dx = b.x - a.x;
        let dy = b.y - a.y;
        proof {
            lemma_unit_ratio(dy as int, dx as int);
        }
        div_floor(dy * ONE, dx)
    }
}

/// The scanning core of Wu's algorithm: walk the major axis one pixel at a
/// time, carrying the fixed-point minor-axis position, and write the two
/// bracketing pixels of each column with complementary coverage.
fn plot_wu_line(plotter: Plotter, canvas: &mut Canvas, a: PixelPt, b: PixelPt, color: ColorSpec)
    requires
        old(canvas).wf(),
        px_loose(a),
        px_loose(b),
        a.x <= b.x,
        b.y - a.y <= b.x - a.x,
        a.y - b.y <= b.x - a.x,
    ensures
        final(canvas).wf(),
        final(canvas).width == old(canvas).width,
        final(canvas).height == old(canvas).height,
        final(canvas)@ == spec_wu_line(
            old(canvas)@,
            old(canvas).width,
            old(canvas).height,
            plotter.mode,
            plotter.orient,
            color,
            a,
            b,
        ),
{
    let g = scan_gradient(a, b);
    let c0 = div_floor(a.x, ONE);
    let c1 = div_floor(b.x, ONE);
    let ncols = c1 - c0 + 1;
    let ghost w = canvas.width;
    let ghost h = canvas.height;
    let ghost c_init = canvas@;
    let mut k: i64 = 0;
    let mut fy: i64 = a.y;
    proof {
        lemma_div_is_ordered(a.x as int, b.x as int, ONE as int);
        lemma_div_is_ordered(-2 * PX_MAX, a.x as int, ONE as int);
        lemma_div_is_ordered(b.x as int, 2 * PX_MAX, ONE as int);
    }
    while k < ncols
        invariant
            0 <= k <= ncols,
            1 <= ncols <= 4 * PX_MAX / (ONE as int) + 1,
            -2 * PX_MAX / (ONE as int) <= c0 <= 2 * PX_MAX / (ONE as int),
            c0 == a.x as int / (ONE as int),
            -ONE <= g <= ONE,
            -2 * PX_MAX <= a.y <= 2 * PX_MAX,
            fy == a.y + k * g,
            canvas.wf(),
            canvas.width == w,
            canvas.height == h,
            canvas@ == spec_scan(
                c_init,
                w,
                h,
                plotter.mode,
                plotter.orient,
                color,
                c0 as int,
                ncols as int,
                a.y as int,
                g as int,
                k as nat,
            ),
        decreases ncols - k,
    {
        proof {
            assert(-(2 * PX_MAX + 4 * PX_MAX) <= (k as int) * (g as int)
                && (k as int) * (g as int) <= 2 * PX_MAX + 4 * PX_MAX) by (nonlinear_arith)
                requires
                    0 <= k <= 4 * PX_MAX / (ONE as int) + 1,
                    -ONE <= g <= ONE,
                    ONE == 65536,
                    PX_MAX == 0x4000_0000;
        }
        let iy = div_floor(fy, ONE);
        let frac = mod_floor(fy, ONE);
        let t = if ncols <= 1 {
            0
        } else {
            proof {
                assert(0 <= (k as int) * (ONE as int)
                    && (k as int) * (ONE as int) <= (ncols - 1) * (ONE as int)) by (nonlinear_arith)
                    requires 0 <= k <= ncols - 1, ONE == 65536;
                lemma_div_is_ordered((k as int) * (ONE as int), ((ncols - 1) as int) * (ONE as int),
                    (ncols - 1) as int);
                lemma_div_multiples_vanish(ONE as int, (ncols - 1) as int);
            }
            (k * ONE) / (ncols - 1)
        };
        let col = color_at(color, t);
        plotter.plot(canvas, c0 + k, iy, col, ONE - frac);
        plotter.plot(canvas, c0 + k, iy + 1, col, frac);
        proof {
            assert((k + 1) as int * (g as int) == (k as int) * (g as int) + g) by (nonlinear_arith);
        }
        fy = fy + g;
        k = k + 1;
    }
}

/// The canvas after one antialiased segment from `a` to `b`: steep lines are
/// scanned transposed, and the scan always walks its major axis upward.
pub open spec fn spec_draw_line(
    c: Seq<u8>,
    w: u32,
    h: u32,
    a: PixelPt,
    b: PixelPt,
    color: ColorSpec,
    mode: BlendMode,
) -> Seq<u8> {
    if abs(b.y as int - a.y as int) > abs(b.x as int - a.x as int) {
        let ta = PixelPt { x: a.y, y: a.x };
        let tb = PixelPt { x: b.y, y: b.x };
        if a.y > b.y {
            spec_wu_line(c, w, h, mode, Orientation::Steep, color, tb, ta)
        } else {
            spec_wu_line(c, w, h, mode, Orientation::Steep, color, ta, tb)
        }
    } else {
        if a.x > b.x {
            spec_wu_line(c, w, h, mode, Orientation::Shallow, color, b, a)
        } else {
            spec_wu_line(c, w, h, mode, Orientation::Shallow, color, a, b)
        }
    }
}

/// Draw one antialiased line segment from `start` to `end` with a color
/// that may vary along the stroke; `mode` decides how new color meets what
/// the canvas already holds. Writes outside the canvas are clipped.
pub fn draw_gradient_antialiased_line_segment_mut(
    canvas: &mut Canvas,
    start: PixelPt,
    end: PixelPt,
    color: ColorSpec,
    mode: BlendMode,
)
    requires
        old(canvas).wf(),
        px_loose(start),
        px_loose(end),
    ensures
        final(canvas).wf(),
        final(canvas).width == old(canvas).width,
        final(canvas).height == old(canvas).height,
        final(canvas)@ == spec_draw_line(
            old(canvas)@,
            old(canvas).width,
            old(canvas).height,
            start,
            end,
            color,
            mode,
        ),
{
    let dx = end.x - start.x;
    let dy = end.y - start.y;
    let adx = if dx < 0 { -dx } else { dx };
    let ady = if dy < 0 { -dy } else { dy };
    if ady > adx {
        let p = Plotter { orient: Orientation::Steep, mode };
        let ta = PixelPt { x: start.y, y: start.x };
        let tb = PixelPt { x: end.y, y: end.x };
        if start.y > end.y {
            plot_wu_line(p, canvas, tb, ta, color);
        } else {
            plot_wu_line(p, canvas, ta, tb, color);
        }
    } else {
        let p = Plotter { orient: Orientation::Shallow, mode };
        if start.x > end.x {
            plot_wu_line(p, canvas, end, start, color);
        } else {
            plot_wu_line(p, canvas, start, end, color);
        }
    }
}

/// The horizontal component of the unit perpendicular to a segment
/// (fixed-point): the normalized direction vector rotated a quarter turn,
/// with an axis-aligned fallback when the segment is horizontal or vertical.
pub open spec fn spec_delta_x(a: PixelPt, b: PixelPt) -> int {
    if a.y == b.y {
        0
    } else if a.x == b.x {
        ONE as int
    } else {
        (b.y - a.y) * (ONE as int) / spec_isqrt(spec_seg_len2(a, b))
    }
}

/// The vertical component of the unit perpendicular to a segment.
pub open spec fn spec_delta_y(a: PixelPt, b: PixelPt) -> int {
    if a.y == b.y {
        ONE as int
    } else if a.x == b.x {
        0
    } else {
        -((b.x - a.x) * (ONE as int) / spec_isqrt(spec_seg_len2(a, b)))
    }
}

fn seg_delta(a: PixelPt, b: PixelPt) -> (d: (i64, i64))
    requires
        px_ok(a),
        px_ok(b),
    ensures
        d.0 == spec_delta_x(a, b),
        d.1 == spec_delta_y(a, b),
        -ONE <= d.0 <= ONE,
        -ONE <= d.1 <= ONE,
{
    if a.y == b.y {
        (0, ONE)
    } else if a.x == b.x {
        (ONE, 0)
    } else {
        let dx = b.x - a.x;
        let dy = b.y - a.y;
        let adx = if dx < 0 { -dx } else { dx };
        let ady = if dy < 0 { -dy } else { dy };
        proof {
            assert((adx as int) * (adx as int) == (dx as int) * (dx as int)
                && (ady as int) * (ady as int) == (dy as int) * (dy as int)
                && (adx as int) * (adx as int) <= (2 * PX_MAX) * (2 * PX_MAX)
                && (ady as int) * (ady as int) <= (2 * PX_MAX) * (2 * PX_MAX))
                by (nonlinear_arith)
                requires
                    adx == abs(dx as int),
                    ady == abs(dy as int),
                    0 <= adx <= 2 * PX_MAX,
                    0 <= ady <= 2 * PX_MAX,
                    PX_MAX == 0x4000_0000;
        }
        let dd = (adx as u64) * (adx as u64) + (ady as u64) * (ady as u64);
        let len = isqrt(dd);
        proof {
            assert(1 <= (adx as int) * (adx as int) && 0 <= (ady as int) * (ady as int))
                by (nonlinear_arith)
                requires 1 <= adx, 0 <= ady;
            assert(len <= 0xFFFF_FFFF) by (nonlinear_arith)
                requires (len as int) * (len as int) <= dd, dd <= u64::MAX, 0 <= len;
            assert((adx as int) <= len as int && (ady as int) <= len as int) by (nonlinear_arith)
                requires
                    (len as int) * (len as int) <= dd,
                    dd < (len as int + 1) * (len as int + 1),
                    dd == (adx as int) * (adx as int) + (ady as int) * (ady as int),
                    0 <= adx,
                    0 <= ady,
                    0 <= len;
            lemma_unit_ratio(dx as int, len as int);
            lemma_unit_ratio(dy as int, len as int);
        }
        let li = len as i64;
        let ux = div_floor(dx * ONE, li);
        let uy = div_floor(dy * ONE, li);
        (uy, -ux)
    }
}

/// The canvas after the first `k` of the `2*hw + 1` offset copies of a
/// segment have been drawn, each shifted along the perpendicular.
pub open spec fn spec_draw_wide_k(
    c: Seq<u8>,
    w: u32,
    h: u32,
    mode: BlendMode,
    color: ColorSpec,
    a: PixelPt,
    b: PixelPt,
    hw: int,
    k: nat,
) -> Seq<u8>
    decreases k,
{
    if k == 0 {
        c
    } else {
        let prev = spec_draw_wide_k(c, w, h, mode, color, a, b, hw, (k - 1) as nat);
        let i = k - 1 - hw;
        let ddx = spec_delta_x(a, b);
        let ddy = spec_delta_y(a, b);
        spec_draw_line(
            prev,
            w,
            h,
            PixelPt { x: (a.x + i * ddx) as i64, y: (a.y + i * ddy) as i64 },
            PixelPt { x: (b.x + i * ddx) as i64, y: (b.y + i * ddy) as i64 },
            color,
            mode,
        )
    }
}

/// The canvas after a stroke of half-width `hw`: the segment drawn at every
/// integer offset `-hw..=hw` along its unit perpendicular.
pub open spec fn spec_draw_wide(
    c: Seq<u8>,
    w: u32,
    h: u32,
    mode: BlendMode,
    color: ColorSpec,
    a: PixelPt,
    b: PixelPt,
    hw: int,
) -> Seq<u8> {
    spec_draw_wide_k(c, w, h, mode, color, a, b, hw, (2 * hw + 1) as nat)
}

/// Draw a segment as a band `2*halfwidth + 1` pixels wide: the base line
/// repeated at integer offsets along the perpendicular unit vector.
pub fn draw_wide(
    halfwidth: i64,
    canvas: &mut Canvas,
    start: PixelPt,
    end: PixelPt,
    color: ColorSpec,
    mode: BlendMode,
)
    requires
        old(canvas).wf(),
        px_ok(start),
        px_ok(end),
        0 <= halfwidth <= 3,
    ensures
        final(canvas).wf(),
        final(canvas).width == old(canvas).width,
        final(canvas).height == old(canvas).height,
        final(canvas)@ == spec_draw_wide(
            old(canvas)@,
            old(canvas).width,
            old(canvas).height,
            mode,
            color,
            start,
            end,
            halfwidth as int,
        ),
{
    let (ddx, ddy) = seg_delta(start, end);
    let ghost w = canvas.width;
    let ghost h = canvas.height;
    let ghost c_init = canvas@;
    let mut i: i64 = -halfwidth;
    while i <= halfwidth
        invariant
            -halfwidth <= i <= halfwidth + 1,
            0 <= halfwidth <= 3,
            ddx == spec_delta_x(start, end),
            ddy == spec_delta_y(start, end),
            -ONE <= ddx <= ONE,
            -ONE <= ddy <= ONE,
            px_ok(start),
            px_ok(end),
            canvas.wf(),
            canvas.width == w,
            canvas.height == h,
            canvas@ == spec_draw_wide_k(
                c_init,
                w,
                h,
                mode,
                color,
                start,
                end,
                halfwidth as int,
                (i + halfwidth) as nat,
            ),
        decreases halfwidth + 1 - i,
    {
        proof {
            assert(-3 * (ONE as int) <= (i as int) * (ddx as int)
                && (i as int) * (ddx as int) <= 3 * (ONE as int)
                && -3 * (ONE as int) <= (i as int) * (ddy as int)
                && (i as int) * (ddy as int) <= 3 * (ONE as int)) by (nonlinear_arith)
                requires -3 <= i <= 3, -ONE <= ddx <= ONE, -ONE <= ddy <= ONE, ONE == 65536;
        }
        let sa = PixelPt { x: start.x + i * ddx, y: start.y + i * ddy };
        let sb = PixelPt { x: end.x + i * ddx, y: end.y + i * ddy };
        draw_gradient_antialiased_line_segment_mut(canvas, sa, sb, color, mode);
        i = i + 1;
    }
}

/// The canvas after one discretized segment has been rendered as a fat
/// stroke: a wide band in the edge color, a narrower band in the core
/// color, and the core line once more on top, giving the stroke a lighter
/// rim and a darker center.
pub open spec fn spec_draw_seg_one(
    c: Seq<u8>,
    w: u32,
    h: u32,
    seg: Segment,
    edge: u8,
    core: u8,
    mode: BlendMode,
) -> Seq<u8> {
    let c1 = spec_draw_wide(c, w, h, mode, ColorSpec::Constant(edge), seg.a, seg.b, 3);
    let c2 = spec_draw_wide(c1, w, h, mode, ColorSpec::Constant(core), seg.a, seg.b, 1);
    spec_draw_line(c2, w, h, seg.a, seg.b, ColorSpec::Constant(core), mode)
}

/// The canvas after the first `k` segments of a chain have been rendered
/// as fat strokes.
pub open spec fn spec_draw_segments(
    c: Seq<u8>,
    w: u32,
    h: u32,
    segs: Seq<Segment>,
    edge: u8,
    core: u8,
    mode: BlendMode,
    k: nat,
) -> Seq<u8>
    decreases k,
{
    if k == 0 {
        c
    } else {
        spec_draw_seg_one(
            spec_draw_segments(c, w, h, segs, edge, core, mode, (k - 1) as nat),
            w,
            h,
            segs[k - 1],
            edge,
            core,
            mode,
        )
    }
}

/// `segs` is a chain of in-range segments discretizing the arc from
/// `start` to `end` on a `w` by `h` canvas: empty exactly for coinciding
/// endpoints, linked without gaps, anchored exactly on the two projected
/// endpoints.
pub open spec fn spec_arc_chain(segs: Seq<Segment>, w: u32, h: u32, start: TR, end: TR) -> bool {
    &&& (start == end <==> segs.len() == 0)
    &&& (forall|i: int| 0 <= i && i + 1 < segs.len() ==> (#[trigger] segs[i]).b == segs[i + 1].a)
    &&& (forall|i: int| 0 <= i < segs.len() ==> px_ok((#[trigger] segs[i]).a) && px_ok(segs[i].b))
    &&& (segs.len() > 0 ==> is_projection(segs[0].a, start, w, h))
    &&& (segs.len() > 0 ==> is_projection(segs[segs.len() - 1].b, end, w, h))
    &&& (forall|i: int|
        0 <= i < segs.len() ==> exists|sp: int|
            0 <= sp <= crate::fixed::ONE && is_projection(
                (#[trigger] segs[i]).b,
                #[trigger] spec_interp(start, end, sp),
                w,
                h,
            ))
}

fn draw_fat_segment(
    canvas: &mut Canvas,
    seg: Segment,
    edge: u8,
    core: u8,
    mode: BlendMode,
)
    requires
        old(canvas).wf(),
        px_ok(seg.a),
        px_ok(seg.b),
    ensures
        final(canvas).wf(),
        final(canvas).width == old(canvas).width,
        final(canvas).height == old(canvas).height,
        final(canvas)@ == spec_draw_seg_one(
            old(canvas)@,
            old(canvas).width,
            old(canvas).height,
            seg,
            edge,
            core,
            mode,
        ),
{
    draw_wide(3, canvas, seg.a, seg.b, ColorSpec::Constant(edge), mode);
    draw_wide(1, canvas, seg.a, seg.b, ColorSpec::Constant(core), mode);
    draw_gradient_antialiased_line_segment_mut(
        canvas,
        seg.a,
        seg.b,
        ColorSpec::Constant(core),
        mode,
    );
}

/// Render a chain of discretized segments as fat strokes, in order.
pub fn draw_segments(canvas: &mut Canvas, segs: &Vec<Segment>, edge: u8, core: u8, mode: BlendMode)
    requires
        old(canvas).wf(),
        forall|i: int|
            0 <= i < segs@.len() ==> px_ok((#[trigger] segs@[i]).a) && px_ok(segs@[i].b),
    ensures
        final(canvas).wf(),
        final(canvas).width == old(canvas).width,
        final(canvas).height == old(canvas).height,
        final(canvas)@ == spec_draw_segments(
            old(canvas)@,
            old(canvas).width,
            old(canvas).height,
            segs@,
            edge,
            core,
            mode,
            segs@.len(),
        ),
{
    let ghost w = canvas.width;
    let ghost h = canvas.height;
    let ghost c_init = canvas@;
    let mut i: usize = 0;
    while i < segs.len()
        invariant
            0 <= i <= segs@.len(),
            forall|j: int|
                0 <= j < segs@.len() ==> px_ok((#[trigger] segs@[j]).a) && px_ok(segs@[j].b),
            canvas.wf(),
            canvas.width == w,
            canvas.height == h,
            canvas@ == spec_draw_segments(c_init, w, h, segs@, edge, core, mode, i as nat),
        decreases segs@.len() - i,
    {
        let seg = segs[i];
        draw_fat_segment(canvas, seg, edge, core, mode);
        i = i + 1;
    }
}

/// Draw the whole arc from `start` to `end` as a wide antialiased stroke:
/// the arc is discretized into a chain of short segments, and every segment
/// is rendered with a `bgcolor` edge band and a `centercolor` core.
pub fn draw_fat_arc(
    canvas: &mut Canvas,
    start: TR,
    end: TR,
    bgcolor: u8,
    centercolor: u8,
    mode: BlendMode,
)
    requires
        old(canvas).wf(),
        tr_ok(start),
        tr_ok(end),
    ensures
        final(canvas).wf(),
        final(canvas).width == old(canvas).width,
        final(canvas).height == old(canvas).height,
        spec_arc_chain(
            spec_discretize(old(canvas).width, old(canvas).height, start, end),
            old(canvas).width,
            old(canvas).height,
            start,
            end,
        ),
        final(canvas)@ == spec_draw_segments(
            old(canvas)@,
            old(canvas).width,
            old(canvas).height,
            spec_discretize(old(canvas).width, old(canvas).height, start, end),
            bgcolor,
            centercolor,
            mode,
            spec_discretize(old(canvas).width, old(canvas).height, start, end).len(),
        ),
{
    let dims = (canvas.width, canvas.height);
    let segs = discretize(dims, start, end);
    draw_segments(canvas, &segs, bgcolor, centercolor, mode);
    proof {
        assert(spec_arc_chain(segs@, dims.0, dims.1, start, end));
    }
}

} // verus!
