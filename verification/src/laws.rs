//! General laws of the renderer, proved once over the drawing
//! specifications rather than over any particular canvas.

use crate::arc::spec_discretize;
use crate::canvas::{spec_plot, BlendMode};
use crate::render::{
    spec_draw_line, spec_draw_seg_one, spec_draw_segments, spec_draw_wide, spec_draw_wide_k,
    spec_oplot, spec_scan, spec_scan_col, spec_wu_line, ColorSpec, Orientation,
};
use crate::tr::TR;
use crate::xy::{PixelPt, Segment};
use vstd::arithmetic::div_mod::{
    lemma_div_is_ordered, lemma_div_multiples_vanish, lemma_fundamental_div_mod,
    lemma_fundamental_div_mod_converse, lemma_mod_bound,
};
use vstd::prelude::*;

verus! {

broadcast use vstd::seq::group_seq_axioms;

/// A pixel position within a `w` by `h` grid addresses a cell of its
/// row-major storage.
proof fn lemma_row_major(w: u32, h: u32, x: int, y: int)
    requires
        0 <= x < w,
        0 <= y < h,
    ensures
        0 <= y * w + x < (w as int) * (h as int),
{
    assert(0 <= y * w + x < (w as int) * (h as int)) by (nonlinear_arith)
        requires 0 <= x < w, 0 <= y < h;
}

/// After one write, position `j` either still holds what each starting
/// canvas held there, or holds the same value on both results.
spec fn agrees(r1: Seq<u8>, c1: Seq<u8>, r2: Seq<u8>, c2: Seq<u8>, j: int) -> bool {
    (r1[j] == c1[j] && r2[j] == c2[j]) || r1[j] == r2[j]
}

proof fn lemma_plot_len(
    c: Seq<u8>,
    w: u32,
    h: u32,
    mode: BlendMode,
    x: int,
    y: int,
    color: u8,
    cov: int,
)
    requires
        c.len() == (w as int) * (h as int),
    ensures
        spec_plot(c, w, h, mode, x, y, color, cov).len() == c.len(),
{
    if 0 <= x < w && 0 <= y < h && 0 < cov {
        lemma_row_major(w, h, x, y);
    }
}

proof fn lemma_oplot_len(
    c: Seq<u8>,
    w: u32,
    h: u32,
    mode: BlendMode,
    orient: Orientation,
    x: int,
    y: int,
    color: u8,
    cov: int,
)
    requires
        c.len() == (w as int) * (h as int),
    ensures
        spec_oplot(c, w, h, mode, orient, x, y, color, cov).len() == c.len(),
{
    match orient {
        Orientation::Shallow => lemma_plot_len(c, w, h, mode, x, y, color, cov),
        Orientation::Steep => lemma_plot_len(c, w, h, mode, y, x, color, cov),
    }
}

proof fn lemma_scan_len(
    c: Seq<u8>,
    w: u32,
    h: u32,
    mode: BlendMode,
    orient: Orientation,
    color: ColorSpec,
    c0: int,
    ncols: int,
    y0: int,
    g: int,
    k: nat,
)
    requires
        c.len() == (w as int) * (h as int),
    ensures
        spec_scan(c, w, h, mode, orient, color, c0, ncols, y0, g, k).len() == c.len(),
    decreases k,
{
    if k > 0 {
        lemma_scan_len(c, w, h, mode, orient, color, c0, ncols, y0, g, (k - 1) as nat);
        let prev = spec_scan(c, w, h, mode, orient, color, c0, ncols, y0, g, (k - 1) as nat);
        let fy = y0 + (k - 1) * g;
        let iy = fy / (crate::fixed::ONE as int);
        let frac = fy % (crate::fixed::ONE as int);
        let col = crate::render::spec_color_at(color, crate::render::spec_scan_t(k - 1, ncols));
        lemma_oplot_len(prev, w, h, mode, orient, c0 + k - 1, iy, col, crate::fixed::ONE - frac);
        let mid = spec_oplot(prev, w, h, mode, orient, c0 + k - 1, iy, col, crate::fixed::ONE - frac);
        lemma_oplot_len(mid, w, h, mode, orient, c0 + k - 1, iy + 1, col, frac);
    }
}

proof fn lemma_draw_line_len(
    c: Seq<u8>,
    w: u32,
    h: u32,
    a: PixelPt,
    b: PixelPt,
    color: ColorSpec,
    mode: BlendMode,
)
    requires
        c.len() == (w as int) * (h as int),
    ensures
        spec_draw_line(c, w, h, a, b, color, mode).len() == c.len(),
{
    lemma_scan_len_all(c, w, h, mode);
}

/// Length preservation for every scan that could arise from a dispatch,
/// stated with quantifiers so the dispatch cases need not be repeated.
proof fn lemma_scan_len_all(c: Seq<u8>, w: u32, h: u32, mode: BlendMode)
    requires
        c.len() == (w as int) * (h as int),
    ensures
        forall|orient: Orientation, color: ColorSpec, c0: int, ncols: int, y0: int, g: int, k: nat|
            (#[trigger] spec_scan(c, w, h, mode, orient, color, c0, ncols, y0, g, k)).len()
                == c.len(),
{
    assert forall|orient: Orientation, color: ColorSpec, c0: int, ncols: int, y0: int, g: int, k: nat|
        (#[trigger] spec_scan(c, w, h, mode, orient, color, c0, ncols, y0, g, k)).len()
            == c.len() by {
        lemma_scan_len(c, w, h, mode, orient, color, c0, ncols, y0, g, k);
    }
}

proof fn lemma_wide_k_len(
    c: Seq<u8>,
    w: u32,
    h: u32,
    mode: BlendMode,
    color: ColorSpec,
    a: PixelPt,
    b: PixelPt,
    hw: int,
    k: nat,
)
    requires
        c.len() == (w as int) * (h as int),
    ensures
        spec_draw_wide_k(c, w, h, mode, color, a, b, hw, k).len() == c.len(),
    decreases k,
{
    if k > 0 {
        lemma_wide_k_len(c, w, h, mode, color, a, b, hw, (k - 1) as nat);
        let prev = spec_draw_wide_k(c, w, h, mode, color, a, b, hw, (k - 1) as nat);
        let i = k - 1 - hw;
        let ddx = crate::render::spec_delta_x(a, b);
        let ddy = crate::render::spec_delta_y(a, b);
        lemma_draw_line_len(
            prev,
            w,
            h,
            PixelPt { x: (a.x + i * ddx) as i64, y: (a.y + i * ddy) as i64 },
            PixelPt { x: (b.x + i * ddx) as i64, y: (b.y + i * ddy) as i64 },
            color,
            mode,
        );
    }
}

proof fn lemma_seg_one_len(
    c: Seq<u8>,
    w: u32,
    h: u32,
    seg: Segment,
    edge: u8,
    core: u8,
    mode: BlendMode,
)
    requires
        c.len() == (w as int) * (h as int),
    ensures
        spec_draw_seg_one(c, w, h, seg, edge, core, mode).len() == c.len(),
{
    let c1 = spec_draw_wide(c, w, h, mode, ColorSpec::Constant(edge), seg.a, seg.b, 3);
    let c2 = spec_draw_wide(c1, w, h, mode, ColorSpec::Constant(core), seg.a, seg.b, 1);
    lemma_wide_k_len(c, w, h, mode, ColorSpec::Constant(edge), seg.a, seg.b, 3, 7);
    lemma_wide_k_len(c1, w, h, mode, ColorSpec::Constant(core), seg.a, seg.b, 1, 3);
    lemma_draw_line_len(c2, w, h, seg.a, seg.b, ColorSpec::Constant(core), mode);
}

proof fn lemma_draw_segments_len(
    c: Seq<u8>,
    w: u32,
    h: u32,
    segs: Seq<Segment>,
    edge: u8,
    core: u8,
    mode: BlendMode,
    k: nat,
)
    requires
        c.len() == (w as int) * (h as int),
    ensures
        spec_draw_segments(c, w, h, segs, edge, core, mode, k).len() == c.len(),
    decreases k,
{
    if k > 0 {
        lemma_draw_segments_len(c, w, h, segs, edge, core, mode, (k - 1) as nat);
        lemma_seg_one_len(
            spec_draw_segments(c, w, h, segs, edge, core, mode, (k - 1) as nat),
            w,
            h,
            segs[k - 1],
            edge,
            core,
            mode,
        );
    }
}

proof fn lemma_plot_replace_agrees(
    c1: Seq<u8>,
    c2: Seq<u8>,
    w: u32,
    h: u32,
    x: int,
    y: int,
    color: u8,
    cov: int,
    j: int,
)
    requires
        c1.len() == (w as int) * (h as int),
        c2.len() == (w as int) * (h as int),
        0 <= j < c1.len(),
    ensures
        agrees(
            spec_plot(c1, w, h, BlendMode::Replace, x, y, color, cov),
            c1,
            spec_plot(c2, w, h, BlendMode::Replace, x, y, color, cov),
            c2,
            j,
        ),
{
    if 0 <= x < w && 0 <= y < h && 0 < cov {
        lemma_row_major(w, h, x, y);
    }
}

proof fn lemma_oplot_replace_agrees(
    c1: Seq<u8>,
    c2: Seq<u8>,
    w: u32,
    h: u32,
    orient: Orientation,
    x: int,
    y: int,
    color: u8,
    cov: int,
    j: int,
)
    requires
        c1.len() == (w as int) * (h as int),
        c2.len() == (w as int) * (h as int),
        0 <= j < c1.len(),
    ensures
        agrees(
            spec_oplot(c1, w, h, BlendMode::Replace, orient, x, y, color, cov),
            c1,
            spec_oplot(c2, w, h, BlendMode::Replace, orient, x, y, color, cov),
            c2,
            j,
        ),
{
    match orient {
        Orientation::Shallow => lemma_plot_replace_agrees(c1, c2, w, h, x, y, color, cov, j),
        Orientation::Steep => lemma_plot_replace_agrees(c1, c2, w, h, y, x, color, cov, j),
    }
}

proof fn lemma_scan_col_replace_agrees(
    c1: Seq<u8>,
    c2: Seq<u8>,
    w: u32,
    h: u32,
    orient: Orientation,
    color: ColorSpec,
    c0: int,
    ncols: int,
    y0: int,
    g: int,
    k: int,
    j: int,
)
    requires
        c1.len() == (w as int) * (h as int),
        c2.len() == (w as int) * (h as int),
        0 <= j < c1.len(),
    ensures
        agrees(
            spec_scan_col(c1, w, h, BlendMode::Replace, orient, color, c0, ncols, y0, g, k),
            c1,
            spec_scan_col(c2, w, h, BlendMode::Replace, orient, color, c0, ncols, y0, g, k),
            c2,
            j,
        ),
{
    let fy = y0 + k * g;
    let iy = fy / (crate::fixed::ONE as int);
    let frac = fy % (crate::fixed::ONE as int);
    let col = crate::render::spec_color_at(color, crate::render::spec_scan_t(k, ncols));
    let m1 = spec_oplot(
        c1,
        w,
        h,
        BlendMode::Replace,
        orient,
        c0 + k,
        iy,
        col,
        crate::fixed::ONE - frac,
    );
    let m2 = spec_oplot(
        c2,
        w,
        h,
        BlendMode::Replace,
        orient,
        c0 + k,
        iy,
        col,
        crate::fixed::ONE - frac,
    );
    lemma_oplot_replace_agrees(c1, c2, w, h, orient, c0 + k, iy, col, crate::fixed::ONE - frac, j);
    lemma_oplot_len(c1, w, h, BlendMode::Replace, orient, c0 + k, iy, col, crate::fixed::ONE - frac);
    lemma_oplot_len(c2, w, h, BlendMode::Replace, orient, c0 + k, iy, col, crate::fixed::ONE - frac);
    lemma_oplot_replace_agrees(m1, m2, w, h, orient, c0 + k, iy + 1, col, frac, j);
}

proof fn lemma_scan_replace_agrees(
    c1: Seq<u8>,
    c2: Seq<u8>,
    w: u32,
    h: u32,
    orient: Orientation,
    color: ColorSpec,
    c0: int,
    ncols: int,
    y0: int,
    g: int,
    k: nat,
    j: int,
)
    requires
        c1.len() == (w as int) * (h as int),
        c2.len() == (w as int) * (h as int),
        0 <= j < c1.len(),
    ensures
        agrees(
            spec_scan(c1, w, h, BlendMode::Replace, orient, color, c0, ncols, y0, g, k),
            c1,
            spec_scan(c2, w, h, BlendMode::Replace, orient, color, c0, ncols, y0, g, k),
            c2,
            j,
        ),
    decreases k,
{
    if k > 0 {
        let p1 = spec_scan(c1, w, h, BlendMode::Replace, orient, color, c0, ncols, y0, g, (k
            - 1) as nat);
        let p2 = spec_scan(c2, w, h, BlendMode::Replace, orient, color, c0, ncols, y0, g, (k
            - 1) as nat);
        lemma_scan_replace_agrees(c1, c2, w, h, orient, color, c0, ncols, y0, g, (k - 1) as nat, j);
        lemma_scan_len(c1, w, h, BlendMode::Replace, orient, color, c0, ncols, y0, g, (k
            - 1) as nat);
        lemma_scan_len(c2, w, h, BlendMode::Replace, orient, color, c0, ncols, y0, g, (k
            - 1) as nat);
        lemma_scan_col_replace_agrees(p1, p2, w, h, orient, color, c0, ncols, y0, g, k - 1, j);
    }
}

proof fn lemma_draw_line_replace_agrees(
    c1: Seq<u8>,
    c2: Seq<u8>,
    w: u32,
    h: u32,
    a: PixelPt,
    b: PixelPt,
    color: ColorSpec,
    j: int,
)
    requires
        c1.len() == (w as int) * (h as int),
        c2.len() == (w as int) * (h as int),
        0 <= j < c1.len(),
    ensures
        agrees(
            spec_draw_line(c1, w, h, a, b, color, BlendMode::Replace),
            c1,
            spec_draw_line(c2, w, h, a, b, color, BlendMode::Replace),
            c2,
            j,
        ),
{
    assert forall|orient: Orientation, p: PixelPt, q: PixelPt|
        agrees(
            #[trigger] spec_wu_line(c1, w, h, BlendMode::Replace, orient, color, p, q),
            c1,
            spec_wu_line(c2, w, h, BlendMode::Replace, orient, color, p, q),
            c2,
            j,
        ) by {
        let s0 = p.x as int / (crate::fixed::ONE as int);
        let s1 = q.x as int / (crate::fixed::ONE as int);
        lemma_scan_replace_agrees(
            c1,
            c2,
            w,
            h,
            orient,
            color,
            s0,
            s1 - s0 + 1,
            p.y as int,
            crate::render::spec_gradient(p, q),
            (s1 - s0 + 1) as nat,
            j,
        );
    }
}

proof fn lemma_wide_k_replace_agrees(
    c1: Seq<u8>,
    c2: Seq<u8>,
    w: u32,
    h: u32,
    color: ColorSpec,
    a: PixelPt,
    b: PixelPt,
    hw: int,
    k: nat,
    j: int,
)
    requires
        c1.len() == (w as int) * (h as int),
        c2.len() == (w as int) * (h as int),
        0 <= j < c1.len(),
    ensures
        agrees(
            spec_draw_wide_k(c1, w, h, BlendMode::Replace, color, a, b, hw, k),
            c1,
            spec_draw_wide_k(c2, w, h, BlendMode::Replace, color, a, b, hw, k),
            c2,
            j,
        ),
    decreases k,
{
    if k > 0 {
        let p1 = spec_draw_wide_k(c1, w, h, BlendMode::Replace, color, a, b, hw, (k - 1) as nat);
        let p2 = spec_draw_wide_k(c2, w, h, BlendMode::Replace, color, a, b, hw, (k - 1) as nat);
        lemma_wide_k_replace_agrees(c1, c2, w, h, color, a, b, hw, (k - 1) as nat, j);
        lemma_wide_k_len(c1, w, h, BlendMode::Replace, color, a, b, hw, (k - 1) as nat);
        lemma_wide_k_len(c2, w, h, BlendMode::Replace, color, a, b, hw, (k - 1) as nat);
        let i = k - 1 - hw;
        let ddx = crate::render::spec_delta_x(a, b);
        let ddy = crate::render::spec_delta_y(a, b);
        lemma_draw_line_replace_agrees(
            p1,
            p2,
            w,
            h,
            PixelPt { x: (a.x + i * ddx) as i64, y: (a.y + i * ddy) as i64 },
            PixelPt { x: (b.x + i * ddx) as i64, y: (b.y + i * ddy) as i64 },
            color,
            j,
        );
    }
}

proof fn lemma_seg_one_replace_agrees(
    c1: Seq<u8>,
    c2: Seq<u8>,
    w: u32,
    h: u32,
    seg: Segment,
    edge: u8,
    core: u8,
    j: int,
)
    requires
        c1.len() == (w as int) * (h as int),
        c2.len() == (w as int) * (h as int),
        0 <= j < c1.len(),
    ensures
        agrees(
            spec_draw_seg_one(c1, w, h, seg, edge, core, BlendMode::Replace),
            c1,
            spec_draw_seg_one(c2, w, h, seg, edge, core, BlendMode::Replace),
            c2,
            j,
        ),
{
    let e = ColorSpec::Constant(edge);
    let k = ColorSpec::Constant(core);
    let m1 = spec_draw_wide(c1, w, h, BlendMode::Replace, e, seg.a, seg.b, 3);
    let m2 = spec_draw_wide(c2, w, h, BlendMode::Replace, e, seg.a, seg.b, 3);
    lemma_wide_k_replace_agrees(c1, c2, w, h, e, seg.a, seg.b, 3, 7, j);
    lemma_wide_k_len(c1, w, h, BlendMode::Replace, e, seg.a, seg.b, 3, 7);
    lemma_wide_k_len(c2, w, h, BlendMode::Replace, e, seg.a, seg.b, 3, 7);
    let n1 = spec_draw_wide(m1, w, h, BlendMode::Replace, k, seg.a, seg.b, 1);
    let n2 = spec_draw_wide(m2, w, h, BlendMode::Replace, k, seg.a, seg.b, 1);
    lemma_wide_k_replace_agrees(m1, m2, w, h, k, seg.a, seg.b, 1, 3, j);
    lemma_wide_k_len(m1, w, h, BlendMode::Replace, k, seg.a, seg.b, 1, 3);
    lemma_wide_k_len(m2, w, h, BlendMode::Replace, k, seg.a, seg.b, 1, 3);
    lemma_draw_line_replace_agrees(n1, n2, w, h, seg.a, seg.b, k, j);
}

proof fn lemma_draw_segments_replace_agrees(
    c1: Seq<u8>,
    c2: Seq<u8>,
    w: u32,
    h: u32,
    segs: Seq<Segment>,
    edge: u8,
    core: u8,
    k: nat,
    j: int,
)
    requires
        c1.len() == (w as int) * (h as int),
        c2.len() == (w as int) * (h as int),
        0 <= j < c1.len(),
    ensures
        agrees(
            spec_draw_segments(c1, w, h, segs, edge, core, BlendMode::Replace, k),
            c1,
            spec_draw_segments(c2, w, h, segs, edge, core, BlendMode::Replace, k),
            c2,
            j,
        ),
    decreases k,
{
    if k > 0 {
        let p1 = spec_draw_segments(c1, w, h, segs, edge, core, BlendMode::Replace, (k - 1) as nat);
        let p2 = spec_draw_segments(c2, w, h, segs, edge, core, BlendMode::Replace, (k - 1) as nat);
        lemma_draw_segments_replace_agrees(c1, c2, w, h, segs, edge, core, (k - 1) as nat, j);
        lemma_draw_segments_len(c1, w, h, segs, edge, core, BlendMode::Replace, (k - 1) as nat);
        lemma_draw_segments_len(c2, w, h, segs, edge, core, BlendMode::Replace, (k - 1) as nat);
        lemma_seg_one_replace_agrees(p1, p2, w, h, segs[k - 1], edge, core, j);
    }
}

/// Rendering the same chain of segments twice with the replace blend
/// leaves the canvas exactly as one rendering does: under
/// `BlendMode::Replace` every write is decided by the stroke alone, never
/// by what the canvas held, so the second pass repaints each touched pixel
/// with the value it already has and touches nothing else.
pub proof fn lemma_draw_segments_replace_idempotent(
    c: Seq<u8>,
    w: u32,
    h: u32,
    segs: Seq<Segment>,
    edge: u8,
    core: u8,
)
    requires
        c.len() == (w as int) * (h as int),
    ensures
        spec_draw_segments(
            spec_draw_segments(c, w, h, segs, edge, core, BlendMode::Replace, segs.len()),
            w,
            h,
            segs,
            edge,
            core,
            BlendMode::Replace,
            segs.len(),
        ) == spec_draw_segments(c, w, h, segs, edge, core, BlendMode::Replace, segs.len()),
{
    let once = spec_draw_segments(c, w, h, segs, edge, core, BlendMode::Replace, segs.len());
    let twice = spec_draw_segments(once, w, h, segs, edge, core, BlendMode::Replace, segs.len());
    lemma_draw_segments_len(c, w, h, segs, edge, core, BlendMode::Replace, segs.len());
    lemma_draw_segments_len(once, w, h, segs, edge, core, BlendMode::Replace, segs.len());
    assert forall|j: int| 0 <= j < twice.len() implies twice[j] == once[j] by {
        lemma_draw_segments_replace_agrees(once, c, w, h, segs, edge, core, segs.len(), j);
    }
    assert(twice =~= once);
}

/// Rendering the same arc twice with the replace blend leaves the canvas
/// exactly as one rendering does: the discretization of the arc is a fixed
/// chain of segments, and replace-mode writes are decided by the stroke
/// alone, so the second pass repaints each touched pixel with the value it
/// already holds.
pub proof fn lemma_draw_fat_arc_replace_idempotent(
    c: Seq<u8>,
    w: u32,
    h: u32,
    start: TR,
    end: TR,
    edge: u8,
    core: u8,
)
    requires
        c.len() == (w as int) * (h as int),
    ensures
        ({
            let segs = spec_discretize(w, h, start, end);
            let once = spec_draw_segments(c, w, h, segs, edge, core, BlendMode::Replace, segs.len());
            spec_draw_segments(once, w, h, segs, edge, core, BlendMode::Replace, segs.len())
                == once
        }),
{
    lemma_draw_segments_replace_idempotent(c, w, h, spec_discretize(w, h, start, end), edge, core);
}

/// The storage cell a scan write addresses, after the orientation's
/// transpose: `u` is the major-axis position, `v` the minor-axis pixel.
spec fn oindex(orient: Orientation, u: int, v: int, w: u32) -> int {
    match orient {
        Orientation::Shallow => v * w + u,
        Orientation::Steep => u * w + v,
    }
}

/// Whether a scan write at `(u, v)` lands inside the canvas.
spec fn oin(orient: Orientation, u: int, v: int, w: u32, h: u32) -> bool {
    match orient {
        Orientation::Shallow => 0 <= u < w && 0 <= v < h,
        Orientation::Steep => 0 <= v < w && 0 <= u < h,
    }
}

proof fn lemma_oindex_range(orient: Orientation, u: int, v: int, w: u32, h: u32)
    requires
        oin(orient, u, v, w, h),
    ensures
        0 <= oindex(orient, u, v, w) < (w as int) * (h as int),
{
    match orient {
        Orientation::Shallow => lemma_row_major(w, h, u, v),
        Orientation::Steep => lemma_row_major(w, h, v, u),
    }
}

/// At full coverage the blended pixel is exactly the new color, whatever
/// the blend mode.
proof fn lemma_blend_full(mode: BlendMode, newc: u8, oldc: u8)
    ensures
        crate::canvas::spec_blend(mode, newc, oldc, crate::fixed::ONE as int) == newc,
{
    match mode {
        BlendMode::Replace => {
        },
        BlendMode::Interpolate => {
            assert((newc as int) * (crate::fixed::ONE as int) + (oldc as int) * 0 == (
            crate::fixed::ONE as int) * (newc as int)) by (nonlinear_arith);
            vstd::arithmetic::div_mod::lemma_div_multiples_vanish(
                newc as int,
                crate::fixed::ONE as int,
            );
        },
    }
}

/// A zero-gradient scan from an integer-aligned row writes exactly the
/// pixels of that row between its first and last column, each with full
/// coverage, and nothing else.
proof fn lemma_scan_aligned(
    c: Seq<u8>,
    w: u32,
    h: u32,
    mode: BlendMode,
    orient: Orientation,
    color: u8,
    c0: int,
    ncols: int,
    y0: int,
    k: nat,
    j: int,
)
    requires
        c.len() == (w as int) * (h as int),
        y0 % (crate::fixed::ONE as int) == 0,
        0 <= j < c.len(),
    ensures
        ({
            let iy = y0 / (crate::fixed::ONE as int);
            let r = spec_scan(
                c,
                w,
                h,
                mode,
                orient,
                ColorSpec::Constant(color),
                c0,
                ncols,
                y0,
                0,
                k,
            );
            r[j] == if exists|m: int|
                0 <= m < k && j == #[trigger] oindex(orient, c0 + m, iy, w) && oin(orient, c0 + m, iy, w, h) {
                color
            } else {
                c[j]
            }
        }),
    decreases k,
{
    let one = crate::fixed::ONE as int;
    let iy = y0 / one;
    let cs = ColorSpec::Constant(color);
    if k > 0 {
        lemma_scan_aligned(c, w, h, mode, orient, color, c0, ncols, y0, (k - 1) as nat, j);
        let prev = spec_scan(c, w, h, mode, orient, cs, c0, ncols, y0, 0, (k - 1) as nat);
        lemma_scan_len(c, w, h, mode, orient, cs, c0, ncols, y0, 0, (k - 1) as nat);
        let u = c0 + k - 1;
        assert(y0 + (k - 1) * 0 == y0);
        let r = spec_scan(c, w, h, mode, orient, cs, c0, ncols, y0, 0, k);
        let hit_prev = exists|m: int|
            0 <= m < k - 1 && j == #[trigger] oindex(orient, c0 + m, iy, w) && oin(orient, c0 + m, iy, w, h);
        let hit = exists|m: int|
            0 <= m < k && j == #[trigger] oindex(orient, c0 + m, iy, w) && oin(orient, c0 + m, iy, w, h);
        if oin(orient, u, iy, w, h) {
            lemma_oindex_range(orient, u, iy, w, h);
            lemma_blend_full(mode, color, prev[oindex(orient, u, iy, w)]);
            if j == oindex(orient, u, iy, w) {
                assert(r[j] == color);
                assert(hit) by {
                    assert(0 <= k - 1 < k && j == oindex(orient, c0 + (k - 1), iy, w) && oin(
                        orient,
                        c0 + (k - 1),
                        iy,
                        w,
                        h,
                    ));
                }
            } else {
                assert(r[j] == prev[j]);
                if hit {
                    let m = choose|m: int|
                        0 <= m < k && j == #[trigger] oindex(orient, c0 + m, iy, w) && oin(
                            orient,
                            c0 + m,
                            iy,
                            w,
                            h,
                        );
                    assert(m < k - 1);
                    assert(hit_prev);
                } else {
                    assert(!hit_prev) by {
                        if hit_prev {
                            let m = choose|m: int|
                                0 <= m < k - 1 && j == #[trigger] oindex(orient, c0 + m, iy, w) && oin(
                                    orient,
                                    c0 + m,
                                    iy,
                                    w,
                                    h,
                                );
                            assert(0 <= m < k && j == #[trigger] oindex(orient, c0 + m, iy, w) && oin(
                                orient,
                                c0 + m,
                                iy,
                                w,
                                h,
                            ));
                        }
                    }
                }
            }
        } else {
            assert(r[j] == prev[j]);
            if hit {
                let m = choose|m: int|
                    0 <= m < k && j == #[trigger] oindex(orient, c0 + m, iy, w) && oin(
                        orient,
                        c0 + m,
                        iy,
                        w,
                        h,
                    );
                assert(m < k - 1);
                assert(hit_prev);
            } else {
                if hit_prev {
                    let m = choose|m: int|
                        0 <= m < k - 1 && j == #[trigger] oindex(orient, c0 + m, iy, w) && oin(
                            orient,
                            c0 + m,
                            iy,
                            w,
                            h,
                        );
                    assert(0 <= m < k && j == #[trigger] oindex(orient, c0 + m, iy, w) && oin(
                        orient,
                        c0 + m,
                        iy,
                        w,
                        h,
                    ));
                }
            }
        }
    }
}

/// `j` addresses a pixel of row `row`, at a column between `lo` and `hi`,
/// in the row-major storage of a `w` by `h` canvas.
pub open spec fn in_row_run(j: int, w: u32, h: u32, row: int, lo: int, hi: int) -> bool {
    &&& 0 <= row < h
    &&& j / (w as int) == row
    &&& lo <= j % (w as int) <= hi
}

/// `j` addresses a pixel of column `col`, at a row between `lo` and `hi`,
/// in the row-major storage of a `w` by `h` canvas.
pub open spec fn in_col_run(j: int, w: u32, h: u32, col: int, lo: int, hi: int) -> bool {
    &&& 0 <= col < w
    &&& j % (w as int) == col
    &&& lo <= j / (w as int) <= hi
}

/// Wu round-trip, horizontal case: a horizontal segment between
/// integer-aligned coordinates paints exactly the pixels of its row, from
/// its first to its last column, each with the full color — no
/// antialiasing bleed into a neighboring row — and leaves every other
/// pixel of the canvas untouched.
pub proof fn lemma_axis_aligned_horizontal(
    c: Seq<u8>,
    w: u32,
    h: u32,
    mode: BlendMode,
    color: u8,
    a: PixelPt,
    b: PixelPt,
)
    requires
        c.len() == (w as int) * (h as int),
        a.y == b.y,
        a.x <= b.x,
        a.x as int % (crate::fixed::ONE as int) == 0,
        b.x as int % (crate::fixed::ONE as int) == 0,
        a.y as int % (crate::fixed::ONE as int) == 0,
    ensures
        forall|j: int|
            0 <= j < c.len() ==> (#[trigger] spec_draw_line(
                c,
                w,
                h,
                a,
                b,
                ColorSpec::Constant(color),
                mode,
            )[j]) == if in_row_run(
                j,
                w,
                h,
                a.y as int / (crate::fixed::ONE as int),
                a.x as int / (crate::fixed::ONE as int),
                b.x as int / (crate::fixed::ONE as int),
            ) {
                color
            } else {
                c[j]
            },
{
    let one = crate::fixed::ONE as int;
    let cs = ColorSpec::Constant(color);
    let c0 = a.x as int / one;
    let c1v = b.x as int / one;
    let iy = a.y as int / one;
    let k = c1v - c0 + 1;
    if b.x != a.x {
        assert((b.y - a.y) * one == 0);
        assert((b.x - a.x) as int * 0 == 0);
        lemma_div_multiples_vanish(0, (b.x - a.x) as int);
        assert(crate::render::spec_gradient(a, b) == 0);
    }
    lemma_div_is_ordered(a.x as int, b.x as int, one);
    assert(spec_draw_line(c, w, h, a, b, cs, mode) == spec_scan(
        c,
        w,
        h,
        mode,
        Orientation::Shallow,
        cs,
        c0,
        k,
        a.y as int,
        0,
        k as nat,
    ));
    assert forall|j: int|
        0 <= j < c.len() implies (#[trigger] spec_draw_line(c, w, h, a, b, cs, mode)[j])
        == if in_row_run(j, w, h, iy, c0, c1v) {
        color
    } else {
        c[j]
    } by {
        lemma_scan_aligned(
            c,
            w,
            h,
            mode,
            Orientation::Shallow,
            color,
            c0,
            k,
            a.y as int,
            k as nat,
            j,
        );
        let hit = exists|m: int|
            0 <= m < k && j == #[trigger] oindex(Orientation::Shallow, c0 + m, iy, w) && oin(
                Orientation::Shallow,
                c0 + m,
                iy,
                w,
                h,
            );
        if hit {
            let m = choose|m: int|
                0 <= m < k && j == #[trigger] oindex(Orientation::Shallow, c0 + m, iy, w) && oin(
                    Orientation::Shallow,
                    c0 + m,
                    iy,
                    w,
                    h,
                );
            lemma_fundamental_div_mod_converse(j, w as int, iy, c0 + m);
            assert(in_row_run(j, w, h, iy, c0, c1v));
        } else {
            if in_row_run(j, w, h, iy, c0, c1v) {
                assert(1 <= w) by (nonlinear_arith)
                    requires 0 <= j < (w as int) * (h as int);
                lemma_fundamental_div_mod(j, w as int);
                lemma_mod_bound(j, w as int);
                let u = j % (w as int);
                assert(j == (w as int) * iy + u);
                assert(j == iy * w + u) by (nonlinear_arith)
                    requires j == (w as int) * iy + u;
                assert(0 <= u - c0 < k && j == oindex(Orientation::Shallow, c0 + (u - c0), iy, w)
                    && oin(Orientation::Shallow, c0 + (u - c0), iy, w, h));
                assert(hit);
            }
        }
    }
}

/// Wu round-trip, vertical case: a vertical segment between
/// integer-aligned coordinates paints exactly the pixels of its column,
/// from its first to its last row, each with the full color, and leaves
/// every other pixel of the canvas untouched. The steep transpose makes
/// this the mirror image of the horizontal case.
pub proof fn lemma_axis_aligned_vertical(
    c: Seq<u8>,
    w: u32,
    h: u32,
    mode: BlendMode,
    color: u8,
    a: PixelPt,
    b: PixelPt,
)
    requires
        c.len() == (w as int) * (h as int),
        a.x == b.x,
        a.y < b.y,
        a.y as int % (crate::fixed::ONE as int) == 0,
        b.y as int % (crate::fixed::ONE as int) == 0,
        a.x as int % (crate::fixed::ONE as int) == 0,
    ensures
        forall|j: int|
            0 <= j < c.len() ==> (#[trigger] spec_draw_line(
                c,
                w,
                h,
                a,
                b,
                ColorSpec::Constant(color),
                mode,
            )[j]) == if in_col_run(
                j,
                w,
                h,
                a.x as int / (crate::fixed::ONE as int),
                a.y as int / (crate::fixed::ONE as int),
                b.y as int / (crate::fixed::ONE as int),
            ) {
                color
            } else {
                c[j]
            },
{
    let one = crate::fixed::ONE as int;
    let cs = ColorSpec::Constant(color);
    let ta = PixelPt { x: a.y, y: a.x };
    let tb = PixelPt { x: b.y, y: b.x };
    let c0 = a.y as int / one;
    let c1v = b.y as int / one;
    let ix = a.x as int / one;
    let k = c1v - c0 + 1;
    assert((tb.y - ta.y) * one == 0);
    assert((tb.x - ta.x) as int * 0 == 0);
    lemma_div_multiples_vanish(0, (tb.x - ta.x) as int);
    assert(crate::render::spec_gradient(ta, tb) == 0);
    lemma_div_is_ordered(a.y as int, b.y as int, one);
    assert(spec_draw_line(c, w, h, a, b, cs, mode) == spec_scan(
        c,
        w,
        h,
        mode,
        Orientation::Steep,
        cs,
        c0,
        k,
        a.x as int,
        0,
        k as nat,
    ));
    assert forall|j: int|
        0 <= j < c.len() implies (#[trigger] spec_draw_line(c, w, h, a, b, cs, mode)[j])
        == if in_col_run(j, w, h, ix, c0, c1v) {
        color
    } else {
        c[j]
    } by {
        lemma_scan_aligned(
            c,
            w,
            h,
            mode,
            Orientation::Steep,
            color,
            c0,
            k,
            a.x as int,
            k as nat,
            j,
        );
        let hit = exists|m: int|
            0 <= m < k && j == #[trigger] oindex(Orientation::Steep, c0 + m, ix, w) && oin(
                Orientation::Steep,
                c0 + m,
                ix,
                w,
                h,
            );
        if hit {
            let m = choose|m: int|
                0 <= m < k && j == #[trigger] oindex(Orientation::Steep, c0 + m, ix, w) && oin(
                    Orientation::Steep,
                    c0 + m,
                    ix,
                    w,
                    h,
                );
            lemma_fundamental_div_mod_converse(j, w as int, c0 + m, ix);
            assert(in_col_run(j, w, h, ix, c0, c1v));
        } else {
            if in_col_run(j, w, h, ix, c0, c1v) {
                lemma_fundamental_div_mod(j, w as int);
                lemma_mod_bound(j, w as int);
                let v = j / (w as int);
                assert(j == (w as int) * v + ix);
                assert(j == v * w + ix && 0 <= v < h) by (nonlinear_arith)
                    requires
                        j == (w as int) * v + ix,
                        0 <= ix < w,
                        0 <= j,
                        j < (w as int) * (h as int),
                        1 <= w;
                assert(0 <= v - c0 < k && j == oindex(Orientation::Steep, c0 + (v - c0), ix, w)
                    && oin(Orientation::Steep, c0 + (v - c0), ix, w, h));
                assert(hit);
            }
        }
    }
}

} // verus!
