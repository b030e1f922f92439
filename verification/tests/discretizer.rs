//! The adaptive discretizer: chain exactness, terminal anchoring, the
//! pixel-length band, and the empty case.

use sis_draw::arc::{discretize, dist, BAND_HI, BAND_LO};
use sis_draw::fixed::{ONE, TWO_PI_FP};
use sis_draw::tr::TR;
use sis_draw::xy::PixelPt;

fn project(p: TR, dims: (u32, u32)) -> PixelPt {
    p.xy().on(dims)
}

#[test]
fn equal_endpoints_yield_no_segments() {
    let p = TR { t: 12345, r: ONE / 2 };
    let segs = discretize((100, 100), p, p);
    assert_eq!(segs.len(), 0);
}

#[test]
fn radial_line_chains_exactly() {
    let dims = (100u32, 100u32);
    let a = TR { t: 0, r: 0 };
    let b = TR { t: 0, r: ONE };
    let segs = discretize(dims, a, b);
    assert!(segs.len() >= 1);
    for i in 0..segs.len() - 1 {
        assert_eq!(segs[i].b, segs[i + 1].a);
    }
    assert_eq!(segs[0].a, project(a, dims));
    assert_eq!(segs[segs.len() - 1].b, project(b, dims));
}

#[test]
fn endpoints_anchor_exactly_across_inputs() {
    let dims = (640u32, 480u32);
    let cases = [
        (TR { t: 0, r: 0 }, TR { t: TWO_PI_FP, r: ONE }),
        (TR { t: -3 * TWO_PI_FP, r: ONE / 4 }, TR { t: 5 * TWO_PI_FP, r: ONE }),
        (TR { t: 100, r: 1 }, TR { t: 101, r: 2 }),
        (TR { t: 0, r: ONE }, TR { t: 0, r: -ONE }),
    ];
    for (a, b) in cases {
        let segs = discretize(dims, a, b);
        assert!(segs.len() >= 1);
        assert_eq!(segs[0].a, project(a, dims));
        assert_eq!(segs[segs.len() - 1].b, project(b, dims));
        for i in 0..segs.len() - 1 {
            assert_eq!(segs[i].b, segs[i + 1].a);
        }
    }
}

#[test]
fn interior_segments_stay_in_the_band() {
    // A stress run over pseudo-random polar pairs spanning small and large
    // radii: after correction, the pixel length of interior segments
    // (the terminal one is exempt) must lie in the band almost always.
    let mut seed: u64 = 12345;
    let mut next = move || {
        seed = seed
            .wrapping_mul(6364136223846793005)
            .wrapping_add(1442695040888963407);
        seed
    };
    let dims = (1000u32, 1000u32);
    let mut interior: u64 = 0;
    let mut in_band: u64 = 0;
    for _ in 0..60 {
        let t1 = ((next() >> 33) % (40 * TWO_PI_FP as u64)) as i64 - 20 * TWO_PI_FP;
        let r1 = ((next() >> 40) % (ONE as u64 + 1)) as i64;
        let t2 = ((next() >> 33) % (40 * TWO_PI_FP as u64)) as i64 - 20 * TWO_PI_FP;
        let r2 = ((next() >> 40) % (ONE as u64 + 1)) as i64;
        let a = TR { t: t1, r: r1 };
        let b = TR { t: t2, r: r2 };
        if a == b {
            continue;
        }
        let segs = discretize(dims, a, b);
        for i in 0..segs.len().saturating_sub(1) {
            let d = dist(segs[i].a, segs[i].b);
            interior += 1;
            if BAND_LO <= d && d <= BAND_HI {
                in_band += 1;
            }
        }
    }
    assert!(interior > 0);
    // at least 95 of every 100 interior segments sit inside [3 px, 8 px]
    assert!(in_band * 100 >= interior * 95);
}

#[test]
fn iterator_yields_the_same_chain_as_discretize() {
    let dims = (200u32, 200u32);
    let a = TR { t: 0, r: ONE / 3 };
    let b = TR { t: TWO_PI_FP, r: ONE };
    let mut it = sis_draw::arc::ArcToXYIter::new(dims, a, b);
    let mut walked = Vec::new();
    while let Some(seg) = it.next() {
        walked.push(seg);
    }
    let segs = discretize(dims, a, b);
    assert_eq!(walked.len(), segs.len());
    for i in 0..segs.len() {
        assert_eq!(walked[i], segs[i]);
    }
    // exhausted iterators stay exhausted
    assert!(it.next().is_none());
}

#[test]
fn interpolation_hits_its_endpoints() {
    let a = TR { t: 100, r: 200 };
    let b = TR { t: -5000, r: ONE };
    assert_eq!(a.interp_to(b, 0), a);
    assert_eq!(a.interp_to(b, ONE), b);
    let mid = a.interp_to(b, ONE / 2);
    assert!(b.t <= mid.t && mid.t <= a.t);
    assert!(a.r <= mid.r && mid.r <= b.r);
}

#[test]
fn projection_maps_the_center_and_the_rim() {
    let center = TR { t: 0, r: 0 };
    let p = center.xy().on((100, 100));
    assert_eq!(p, PixelPt { x: 50 * ONE, y: 50 * ONE });
    // at theta 0 the unit radius lands on the right edge, one fixed-point
    // unit short of the full width because cos tops out at ONE - 1
    let rim = TR { t: 0, r: ONE };
    let q = rim.xy().on((100, 100));
    assert_eq!(q.x, 50 * (2 * ONE - 1));
    assert_eq!(q.y, 50 * ONE);
}

#[test]
fn dist_is_the_euclidean_pixel_distance() {
    let o = PixelPt { x: 0, y: 0 };
    let p = PixelPt { x: 3 * ONE, y: 4 * ONE };
    assert_eq!(dist(o, p), 5 * ONE);
    assert_eq!(dist(p, o), 5 * ONE);
    assert_eq!(dist(p, p), 0);
    // non-square distances round down
    let q = PixelPt { x: ONE, y: ONE };
    assert_eq!(dist(o, q), 92681);
}
