//! The adaptive arc discretizer: turns the polar interpolation between two
//! points into a chain of short pixel-space segments whose lengths a
//! multiplicative band correction keeps near-constant.

use crate::fixed::{isqrt, spec_isqrt, ONE};
use crate::tr::{lemma_interp_one, spec_interp, spec_xy_x, spec_xy_y, tr_ok, TR};
use crate::xy::{dims_ok, px_ok, spec_on_axis, spec_seg_len2, PixelPt, Segment, PX_MAX};
use vstd::arithmetic::div_mod::{
    lemma_div_is_ordered, lemma_div_is_ordered_by_denominator, lemma_div_multiples_vanish,
};
use vstd::math::abs;
use vstd::prelude::*;

verus! {

broadcast use vstd::seq::group_seq_axioms;

/// Target pixel length of one discretization step (2.5 px, fixed-point).
pub const PIXELS_PER_STEP: i64 = 163840;

/// Lower bound of the per-segment pixel-length band (3 px).
pub const BAND_LO: i64 = 3 * ONE;

/// Upper bound of the per-segment pixel-length band (8 px).
pub const BAND_HI: i64 = 8 * ONE;

/// Shrink target just under the upper bound (7.9 px).
pub const TARGET_HI: i64 = 517734;

/// Growth target just above the lower bound (3.1 px).
pub const TARGET_LO: i64 = 203161;

/// Cap on band-correction iterations within one step.
pub const CORRECTION_CAP: u32 = 64;

/// `q` is the pixel-space projection of the polar point `p` on a `w` by `h`
/// canvas.
pub open spec fn is_projection(q: PixelPt, p: TR, w: u32, h: u32) -> bool {
    q.x == spec_on_axis(spec_xy_x(p), w as int) && q.y == spec_on_axis(spec_xy_y(p), h as int)
}

/// The interpolation parameter one step ahead of `s`, clamped so the final
/// step lands exactly on the arc's end.
pub open spec fn spec_step_param(s: i64, incr: i64) -> int {
    if s + incr > ONE {
        ONE as int
    } else {
        (s + incr) as int
    }
}

/// The pixel-space projection of a polar point, as a value.
pub open spec fn spec_project(p: TR, w: u32, h: u32) -> PixelPt {
    PixelPt {
        x: spec_on_axis(spec_xy_x(p), w as int) as i64,
        y: spec_on_axis(spec_xy_y(p), h as int) as i64,
    }
}

/// Euclidean pixel distance between two canvas positions, fixed-point.
pub fn dist(a: PixelPt, b: PixelPt) -> (d: i64)
    requires
        px_ok(a),
        px_ok(b),
    ensures
        d == spec_isqrt(spec_seg_len2(a, b)),
        0 <= d <= 0x1_0000_0000,
{
    let dx = b.x - a.x;
    let dy = b.y - a.y;
    let adx = if dx < 0 { -dx } else { dx };
    let ady = if dy < 0 { -dy } else { dy };
    proof {
        assert((adx as int) * (adx as int) == (dx as int) * (dx as int)
            && (ady as int) * (ady as int) == (dy as int) * (dy as int)
            && (adx as int) * (adx as int) <= (2 * PX_MAX) * (2 * PX_MAX)
            && (ady as int) * (ady as int) <= (2 * PX_MAX) * (2 * PX_MAX)) by (nonlinear_arith)
            requires
                adx == abs(dx as int),
                ady == abs(dy as int),
                0 <= adx <= 2 * PX_MAX,
                0 <= ady <= 2 * PX_MAX,
                PX_MAX == 0x4000_0000;
    }
    let dd = (adx as u64) * (adx as u64) + (ady as u64) * (ady as u64);
    let len = isqrt(dd);
    proof {
        assert(len <= 0xFFFF_FFFF) by (nonlinear_arith)
            requires (len as int) * (len as int) <= dd, dd <= u64::MAX, 0 <= len;
    }
    len as i64
}

/// Walks one arc as an explicit state machine: `s` is the interpolation
/// parameter, `incr` the adaptive step, `last` the projection of the last
/// accepted point.
#[derive(Debug)]
pub struct ArcToXYIter {
    pub start: TR,
    pub end: TR,
    pub w: u32,
    pub h: u32,
    pub s: i64,
    pub incr: i64,
    pub init_incr: i64,
    pub last: PixelPt,
    pub done: bool,
}

impl ArcToXYIter {
    /// The iterator's state invariant; once `done`, `last` rests exactly on
    /// the projection of the arc's end point.
    pub open spec fn wf(&self) -> bool {
        &&& dims_ok(self.w, self.h)
        &&& tr_ok(self.start)
        &&& tr_ok(self.end)
        &&& 0 <= self.s <= ONE
        &&& 1 <= self.incr <= ONE
        &&& 1 <= self.init_incr <= ONE
        &&& px_ok(self.last)
        &&& (self.done && self.start != self.end ==> is_projection(
            self.last,
            self.end,
            self.w,
            self.h,
        ))
    }

    /// How much of the arc is still to walk; zero once exhausted.
    pub open spec fn measure(&self) -> int {
        if self.done {
            0
        } else {
            (ONE as int) + 1 - self.s
        }
    }

    /// The candidate point one step of size `incr` ahead of the iterator's
    /// current parameter.
    pub open spec fn spec_cand(self, incr: i64) -> PixelPt {
        spec_project(
            spec_interp(self.start, self.end, spec_step_param(self.s, incr)),
            self.w,
            self.h,
        )
    }

    /// The band correction, as a value: from a proposed increment, the
    /// accepted increment, the accepted candidate point, and whether the
    /// step is degenerate and must be skipped without emitting.
    pub open spec fn spec_correct(self, incr: i64, budget: nat) -> (i64, PixelPt, bool)
        decreases budget,
    {
        let cand = self.spec_cand(incr);
        if budget == 0 {
            (incr, cand, false)
        } else {
            let d = spec_isqrt(spec_seg_len2(self.last, cand));
            if BAND_LO <= d && d <= BAND_HI {
                (incr, cand, false)
            } else {
                let target: i64 = if d > BAND_HI {
                    TARGET_HI
                } else {
                    TARGET_LO
                };
                let ni = if d >= 1 {
                    incr * target / d
                } else {
                    0
                };
                if ni >= 1 {
                    let clamped: i64 = if ni > ONE {
                        ONE
                    } else {
                        ni as i64
                    };
                    self.spec_correct(clamped, (budget - 1) as nat)
                } else {
                    let cand2 = self.spec_cand(self.init_incr);
                    (self.init_incr, cand2, cand2 == self.last)
                }
            }
        }
    }

    /// The state and yield of the terminal step, which lands exactly on the
    /// projection of the arc's end.
    pub open spec fn spec_terminal(self) -> (ArcToXYIter, Option<Segment>) {
        let pe = spec_project(self.end, self.w, self.h);
        (
            ArcToXYIter { s: ONE, last: pe, done: true, ..self },
            Some(Segment { a: self.last, b: pe }),
        )
    }

    /// One call of `next` on a live iterator whose endpoints differ: step,
    /// correct, and either emit a segment or skip a degenerate step and try
    /// again. `fuel` bounds the skips; `ONE + 2` is always enough, because
    /// every skip advances the parameter by at least one unit.
    pub open spec fn spec_advance(self, fuel: nat) -> (ArcToXYIter, Option<Segment>)
        decreases fuel,
    {
        if fuel == 0 {
            (self, None)
        } else if self.s >= ONE - self.incr {
            self.spec_terminal()
        } else {
            let c = self.spec_correct(self.incr, CORRECTION_CAP as nat);
            let st2 = ArcToXYIter { incr: c.0, ..self };
            if c.2 {
                let ns: i64 = if st2.s + st2.incr > ONE {
                    ONE
                } else {
                    (st2.s + st2.incr) as i64
                };
                (ArcToXYIter { s: ns, ..st2 }).spec_advance((fuel - 1) as nat)
            } else if st2.s >= ONE - st2.incr {
                st2.spec_terminal()
            } else {
                (
                    ArcToXYIter { s: (st2.s + st2.incr) as i64, last: c.1, ..st2 },
                    Some(Segment { a: st2.last, b: c.1 }),
                )
            }
        }
    }

    /// The full effect of one `next` call, as a value: the successor state
    /// and what the call yields.
    pub open spec fn spec_next(self) -> (ArcToXYIter, Option<Segment>) {
        if self.done {
            (self, None)
        } else if self.start == self.end {
            (ArcToXYIter { done: true, ..self }, None)
        } else {
            self.spec_advance((ONE + 2) as nat)
        }
    }

    /// Every segment the iterator will yield from this state on, in order;
    /// `fuel` bounds the count, and one more than the parameter range is
    /// always enough.
    pub open spec fn spec_collect(self, fuel: nat) -> Seq<Segment>
        decreases fuel,
    {
        if fuel == 0 {
            Seq::<Segment>::empty()
        } else {
            let n = self.spec_next();
            match n.1 {
                Option::None => Seq::<Segment>::empty(),
                Option::Some(seg) => seq![seg] + n.0.spec_collect((fuel - 1) as nat),
            }
        }
    }

    /// The iterator's starting state for an arc.
    pub open spec fn spec_new(w: u32, h: u32, start: TR, end: TR) -> ArcToXYIter {
        let pa = spec_project(start, w, h);
        let pb = spec_project(end, w, h);
        let dpx = spec_isqrt(spec_seg_len2(pa, pb));
        let s0 = (dpx + PIXELS_PER_STEP / 2) / (PIXELS_PER_STEP as int);
        let s1: int = if s0 < 1 {
            1
        } else if s0 > ONE {
            ONE as int
        } else {
            s0
        };
        let ii = ((ONE as int) / s1) as i64;
        ArcToXYIter { start, end, w, h, s: 0, incr: ii, init_incr: ii, last: pa, done: false }
    }

    /// Start walking the arc from `start` to `end` on a canvas of the given
    /// dimensions. The initial step count aims at `PIXELS_PER_STEP` pixels
    /// of travel per step between the two projected endpoints.
    pub fn new(dims: (u32, u32), start: TR, end: TR) -> (it: ArcToXYIter)
        requires
            dims_ok(dims.0, dims.1),
            tr_ok(start),
            tr_ok(end),
        ensures
            it.wf(),
            it.start == start,
            it.end == end,
            it.w == dims.0,
            it.h == dims.1,
            it.s == 0,
            !it.done,
            is_projection(it.last, start, dims.0, dims.1),
            it == ArcToXYIter::spec_new(dims.0, dims.1, start, end),
    {
        let pa = start.xy().on(dims);
        let pb = end.xy().on(dims);
        let dpx = dist(pa, pb);
        let mut steps = (dpx + PIXELS_PER_STEP / 2) / PIXELS_PER_STEP;
        if steps < 1 {
            steps = 1;
        }
        if steps > ONE {
            steps = ONE;
        }
        proof {
            lemma_div_multiples_vanish(1, steps as int);
            lemma_div_is_ordered(steps as int, ONE as int, steps as int);
            lemma_div_is_ordered_by_denominator(ONE as int, 1, steps as int);
        }
        let init_incr = ONE / steps;
        proof {
            assert(pa == spec_project(start, dims.0, dims.1));
            assert(pb == spec_project(end, dims.0, dims.1));
        }
        ArcToXYIter {
            start,
            end,
            w: dims.0,
            h: dims.1,
            s: 0,
            incr: init_incr,
            init_incr,
            last: pa,
            done: false,
        }
    }

    /// The projection of the interpolated point one step ahead, with the
    /// final step clamped to land exactly on the arc's end.
    fn peek(&self) -> (p: PixelPt)
        requires
            self.wf(),
        ensures
            px_ok(p),
            p == self.spec_cand(self.incr),
            is_projection(
                p,
                spec_interp(self.start, self.end, spec_step_param(self.s, self.incr)),
                self.w,
                self.h,
            ),
            self.s + self.incr >= ONE ==> is_projection(p, self.end, self.w, self.h),
    {
        let s2 = if self.s + self.incr > ONE {
            ONE
        } else {
            self.s + self.incr
        };
        proof {
            lemma_interp_one(self.start, self.end);
        }
        self.start.interp_to(self.end, s2).xy().on((self.w, self.h))
    }

    /// Yield the next segment of the arc, or `None` once it is exhausted
    /// (immediately, for an arc whose endpoints coincide). Each emitted
    /// segment starts where the previous one ended; the final one ends
    /// exactly on the projection of the arc's end point.
    pub fn next(&mut self) -> (r: Option<Segment>)
        requires
            old(self).wf(),
        ensures
            *final(self) == old(self).spec_next().0,
            r == old(self).spec_next().1,
            final(self).wf(),
            final(self).start == old(self).start,
            final(self).end == old(self).end,
            final(self).w == old(self).w,
            final(self).h == old(self).h,
            final(self).init_incr == old(self).init_incr,
            r is None <==> (old(self).done || old(self).start == old(self).end),
            r is None ==> final(self).last == old(self).last && final(self).done,
            match r {
                Some(seg) => {
                    &&& seg.a == old(self).last
                    &&& final(self).last == seg.b
                    &&& px_ok(seg.a)
                    &&& px_ok(seg.b)
                    &&& (final(self).done ==> is_projection(
                        seg.b,
                        old(self).end,
                        old(self).w,
                        old(self).h,
                    ))
                    &&& exists|sp: int|
                        0 <= sp <= ONE && is_projection(
                            seg.b,
                            #[trigger] spec_interp(old(self).start, old(self).end, sp),
                            old(self).w,
                            old(self).h,
                        )
                    &&& final(self).measure() < old(self).measure()
                },
                None => true,
            },
    {
        if self.done {
            return None;
        }
        if self.start == self.end {
            self.done = true;
            return None;
        }
        let ghost mut fuel: nat = (ONE + 2) as nat;
        loop
            invariant
                self.wf(),
                !self.done,
                self.start == old(self).start,
                self.end == old(self).end,
                self.w == old(self).w,
                self.h == old(self).h,
                self.init_incr == old(self).init_incr,
                self.start != self.end,
                !old(self).done,
                old(self).start != old(self).end,
                self.last == old(self).last,
                self.s >= old(self).s,
                fuel >= (ONE as int) + 2 - self.s,
                self.spec_advance(fuel) == old(self).spec_advance((ONE + 2) as nat),
            decreases (ONE as int) + 1 - self.s,
        {
            let ghost iter_st = *self;
            if self.s >= ONE - self.incr {
                let pb = self.end.xy().on((self.w, self.h));
                let seg = Segment { a: self.last, b: pb };
                self.s = ONE;
                self.last = pb;
                self.done = true;
                proof {
                    lemma_interp_one(self.start, self.end);
                    assert(0 <= ONE as int <= ONE && is_projection(
                        pb,
                        spec_interp(old(self).start, old(self).end, ONE as int),
                        old(self).w,
                        old(self).h,
                    ));
                    assert(pb == spec_project(iter_st.end, iter_st.w, iter_st.h));
                    assert(fuel >= 1);
                    assert(iter_st.spec_advance(fuel) == iter_st.spec_terminal());
                    assert(*self == iter_st.spec_terminal().0);
                }
                return Some(seg);
            }
            let mut cand = self.peek();
            let mut skip = false;
            let mut k: u32 = 0;
            let ghost pre = *self;
            while k < CORRECTION_CAP
                invariant_except_break
                    !skip,
                    pre.spec_correct(self.incr, (CORRECTION_CAP - k) as nat) == pre.spec_correct(
                        pre.incr,
                        CORRECTION_CAP as nat,
                    ),
                invariant
                    self.wf(),
                    k <= CORRECTION_CAP,
                    self.s == pre.s,
                    self.last == pre.last,
                    self.done == pre.done,
                    self.start == pre.start,
                    self.end == pre.end,
                    self.w == pre.w,
                    self.h == pre.h,
                    self.init_incr == pre.init_incr,
                    px_ok(cand),
                    cand == pre.spec_cand(self.incr),
                    is_projection(
                        cand,
                        spec_interp(self.start, self.end, spec_step_param(self.s, self.incr)),
                        self.w,
                        self.h,
                    ),
                ensures
                    self.incr == pre.spec_correct(pre.incr, CORRECTION_CAP as nat).0,
                    cand == pre.spec_correct(pre.incr, CORRECTION_CAP as nat).1,
                    skip == pre.spec_correct(pre.incr, CORRECTION_CAP as nat).2,
                decreases CORRECTION_CAP - k,
            {
                let d = dist(self.last, cand);
                if BAND_LO <= d && d <= BAND_HI {
                    proof {
                        assert(pre.spec_correct(self.incr, (CORRECTION_CAP - k) as nat) == (
                        self.incr,
                        cand,
                        false,
                        ));
                    }
                    break;
                }
                let target = if d > BAND_HI {
                    TARGET_HI
                } else {
                    TARGET_LO
                };
                proof {
                    assert(0 <= (self.incr as int) * (target as int)
                        && (self.incr as int) * (target as int) <= 65536 * 517734)
                        by (nonlinear_arith)
                        requires 1 <= self.incr <= 65536, 0 < target <= 517734;
                }
                let ni = if d >= 1 {
                    (self.incr * target) / d
                } else {
                    0
                };
                if ni >= 1 {
                    let ghost incr_before = self.incr;
                    self.incr = if ni > ONE {
                        ONE
                    } else {
                        ni
                    };
                    proof {
                        assert(pre.spec_correct(incr_before, (CORRECTION_CAP - k) as nat)
                            == pre.spec_correct(self.incr, (CORRECTION_CAP - k - 1) as nat));
                        assert(self.spec_cand(self.incr) == pre.spec_cand(self.incr));
                    }
                } else {
                    // Degenerate step: reset to the initial increment and
                    // recompute once; if the candidate still coincides with
                    // the last point, skip this step without emitting.
                    let ghost incr_before = self.incr;
                    self.incr = self.init_incr;
                    proof {
                        assert(self.spec_cand(self.incr) == pre.spec_cand(self.incr));
                    }
                    cand = self.peek();
                    if cand.x == self.last.x && cand.y == self.last.y {
                        skip = true;
                    }
                    proof {
                        assert(skip == (cand == pre.last));
                        assert(pre.spec_correct(incr_before, (CORRECTION_CAP - k) as nat) == (
                        self.incr,
                        cand,
                        skip,
                        ));
                    }
                    break;
                }
                cand = self.peek();
                k = k + 1;
            }
            proof {
                assert(pre == iter_st);
                assert(!(iter_st.s >= ONE - iter_st.incr));
                assert(fuel >= 1);
            }
            if skip {
                let ns = self.s + self.incr;
                self.s = if ns > ONE {
                    ONE
                } else {
                    ns
                };
                proof {
                    let c = iter_st.spec_correct(iter_st.incr, CORRECTION_CAP as nat);
                    let st2 = ArcToXYIter { incr: c.0, ..iter_st };
                    let ns2: i64 = if st2.s + st2.incr > ONE {
                        ONE
                    } else {
                        (st2.s + st2.incr) as i64
                    };
                    assert(*self == ArcToXYIter { s: ns2, ..st2 });
                    assert(iter_st.spec_advance(fuel) == (ArcToXYIter {
                        s: ns2,
                        ..st2
                    }).spec_advance((fuel - 1) as nat));
                    fuel = (fuel - 1) as nat;
                }
                continue;
            }
            if self.s >= ONE - self.incr {
                let pb = self.end.xy().on((self.w, self.h));
                let seg = Segment { a: self.last, b: pb };
                proof {
                    let c = iter_st.spec_correct(iter_st.incr, CORRECTION_CAP as nat);
                    let st2 = ArcToXYIter { incr: c.0, ..iter_st };
                    assert(st2.s >= ONE - st2.incr);
                    assert(pb == spec_project(iter_st.end, iter_st.w, iter_st.h));
                    assert(iter_st.spec_advance(fuel) == st2.spec_terminal());
                }
                self.s = ONE;
                self.last = pb;
                self.done = true;
                proof {
                    lemma_interp_one(self.start, self.end);
                    assert(0 <= ONE as int <= ONE && is_projection(
                        pb,
                        spec_interp(old(self).start, old(self).end, ONE as int),
                        old(self).w,
                        old(self).h,
                    ));
                    let c = iter_st.spec_correct(iter_st.incr, CORRECTION_CAP as nat);
                    let st2 = ArcToXYIter { incr: c.0, ..iter_st };
                    assert(*self == st2.spec_terminal().0);
                    assert(Some(seg) == st2.spec_terminal().1);
                }
                return Some(seg);
            }
            let seg = Segment { a: self.last, b: cand };
            proof {
                let c = iter_st.spec_correct(iter_st.incr, CORRECTION_CAP as nat);
                let st2 = ArcToXYIter { incr: c.0, ..iter_st };
                assert(!(st2.s >= ONE - st2.incr));
                assert(iter_st.spec_advance(fuel) == (
                ArcToXYIter { s: (st2.s + st2.incr) as i64, last: c.1, ..st2 },
                Some(Segment { a: st2.last, b: c.1 }),
                ));
            }
            self.last = cand;
            self.s = self.s + self.incr;
            proof {
                let c = iter_st.spec_correct(iter_st.incr, CORRECTION_CAP as nat);
                let st2 = ArcToXYIter { incr: c.0, ..iter_st };
                assert(*self == ArcToXYIter { s: (st2.s + st2.incr) as i64, last: c.1, ..st2 });
            }
            return Some(seg);
        }
    }
}

/// The whole discretization of an arc, as a value: what `discretize`
/// computes.
pub open spec fn spec_discretize(w: u32, h: u32, start: TR, end: TR) -> Seq<Segment> {
    ArcToXYIter::spec_new(w, h, start, end).spec_collect((ONE + 3) as nat)
}

/// Discretize the arc from `start` to `end` on a canvas of the given
/// dimensions into its full chain of pixel-space segments.
///
/// Equal endpoints yield the empty chain and distinct endpoints at least
/// one segment; consecutive segments share their endpoints exactly; the
/// chain starts at the projection of `start` and ends exactly on the
/// projection of `end`, with no drift at the terminal point.
pub fn discretize(dims: (u32, u32), start: TR, end: TR) -> (segs: Vec<Segment>)
    requires
        dims_ok(dims.0, dims.1),
        tr_ok(start),
        tr_ok(end),
    ensures
        start == end <==> segs@.len() == 0,
        forall|i: int| 0 <= i && i + 1 < segs@.len() ==> (#[trigger] segs@[i]).b == segs@[i + 1].a,
        forall|i: int|
            0 <= i < segs@.len() ==> px_ok((#[trigger] segs@[i]).a) && px_ok(segs@[i].b),
        segs@.len() > 0 ==> is_projection(segs@[0].a, start, dims.0, dims.1),
        segs@.len() > 0 ==> is_projection(segs@[segs@.len() - 1].b, end, dims.0, dims.1),
        forall|i: int|
            0 <= i < segs@.len() ==> exists|sp: int|
                0 <= sp <= ONE && is_projection(
                    (#[trigger] segs@[i]).b,
                    #[trigger] spec_interp(start, end, sp),
                    dims.0,
                    dims.1,
                ),
        segs@ == spec_discretize(dims.0, dims.1, start, end),
{
    let mut it = ArcToXYIter::new(dims, start, end);
    let mut segs: Vec<Segment> = Vec::new();
    let ghost mut cfuel: nat = (ONE + 3) as nat;
    proof {
        assert(Seq::<Segment>::empty() + it.spec_collect(cfuel) =~= it.spec_collect(cfuel));
    }
    loop
        invariant
            it.wf(),
            it.start == start,
            it.end == end,
            it.w == dims.0,
            it.h == dims.1,
            start == end ==> segs@.len() == 0,
            segs@.len() == 0 && start != end ==> !it.done,
            segs@.len() > 0 ==> it.last == segs@[segs@.len() - 1].b,
            segs@.len() == 0 ==> is_projection(it.last, start, dims.0, dims.1),
            segs@.len() > 0 ==> is_projection(segs@[0].a, start, dims.0, dims.1),
            forall|i: int| 0 <= i && i + 1 < segs@.len() ==> (#[trigger] segs@[i]).b == segs@[i + 1].a,
            forall|i: int|
                0 <= i < segs@.len() ==> px_ok((#[trigger] segs@[i]).a) && px_ok(segs@[i].b),
            forall|i: int|
                0 <= i < segs@.len() ==> exists|sp: int|
                    0 <= sp <= ONE && is_projection(
                        (#[trigger] segs@[i]).b,
                        #[trigger] spec_interp(start, end, sp),
                        dims.0,
                        dims.1,
                    ),
            cfuel >= it.measure() + 1,
            segs@ + it.spec_collect(cfuel) == spec_discretize(dims.0, dims.1, start, end),
        ensures
            it.done || start == end,
            segs@ == spec_discretize(dims.0, dims.1, start, end),
        decreases it.measure(),
    {
        let ghost prev_it = it;
        let ghost prev_fuel = cfuel;
        match it.next() {
            Some(seg) => {
                let ghost prev = segs@;
                segs.push(seg);
                proof {
                    assert(prev_fuel >= 1);
                    let rest = it.spec_collect((prev_fuel - 1) as nat);
                    assert(prev_it.spec_collect(prev_fuel) == seq![seg] + rest);
                    assert(prev.push(seg) + rest =~= prev + (seq![seg] + rest));
                    cfuel = (prev_fuel - 1) as nat;
                    assert(segs@ == prev.push(seg));
                    assert forall|i: int|
                        0 <= i < segs@.len() implies exists|sp: int|
                            0 <= sp <= ONE && is_projection(
                                (#[trigger] segs@[i]).b,
                                #[trigger] spec_interp(start, end, sp),
                                dims.0,
                                dims.1,
                            ) by {
                        if i < prev.len() {
                            vstd::seq::axiom_seq_push_index_different(prev, seg, i);
                            assert(segs@[i] == prev[i]);
                        } else {
                            vstd::seq::axiom_seq_push_index_same(prev, seg, i);
                            assert(segs@[i] == seg);
                        }
                    }
                    assert forall|i: int|
                        0 <= i && i + 1 < segs@.len() implies (#[trigger] segs@[i]).b == segs@[i
                        + 1].a by {
                        assert(segs@.len() == prev.len() + 1);
                        vstd::seq::axiom_seq_push_index_different(prev, seg, i);
                        if i + 1 < prev.len() {
                            vstd::seq::axiom_seq_push_index_different(prev, seg, i + 1);
                        } else {
                            vstd::seq::axiom_seq_push_index_same(prev, seg, i + 1);
                        }
                    }
                }
            },
            None => {
                proof {
                    assert(prev_it.spec_collect(prev_fuel) =~= Seq::<Segment>::empty());
                    assert(segs@ + Seq::<Segment>::empty() =~= segs@);
                }
                break;
            },
        }
    }
    segs
}

} // verus!
