//! The fixed-point arithmetic helpers on concrete values.

use sis_draw::fixed::{cos_fp, div_floor, isqrt, mod_floor, sin_fp, HALF_PI_FP, ONE, PI_FP};

#[test]
fn div_floor_rounds_toward_negative_infinity() {
    assert_eq!(div_floor(7, 2), 3);
    assert_eq!(div_floor(-7, 2), -4);
    assert_eq!(div_floor(-8, 2), -4);
    assert_eq!(div_floor(0, 5), 0);
    assert_eq!(div_floor(-1, 65536), -1);
}

#[test]
fn mod_floor_is_always_nonnegative() {
    assert_eq!(mod_floor(7, 2), 1);
    assert_eq!(mod_floor(-7, 2), 1);
    assert_eq!(mod_floor(-8, 2), 0);
    assert_eq!(mod_floor(-1, 65536), 65535);
    assert_eq!(mod_floor(131072, 65536), 0);
}

#[test]
fn isqrt_exact_squares_and_neighbors() {
    assert_eq!(isqrt(0), 0);
    assert_eq!(isqrt(1), 1);
    assert_eq!(isqrt(3), 1);
    assert_eq!(isqrt(4), 2);
    assert_eq!(isqrt(25), 5);
    assert_eq!(isqrt(24), 4);
    assert_eq!(isqrt(u64::MAX), 0xFFFF_FFFF);
}

#[test]
fn sine_anchors() {
    assert_eq!(sin_fp(0), 0);
    assert_eq!(sin_fp(PI_FP), 0);
    assert_eq!(sin_fp(HALF_PI_FP), 65535);
    assert_eq!(sin_fp(PI_FP + HALF_PI_FP), -65535);
    // a full winding later the values repeat exactly
    assert_eq!(sin_fp(HALF_PI_FP + 2 * PI_FP), sin_fp(HALF_PI_FP));
    assert_eq!(sin_fp(-2 * PI_FP), 0);
}

#[test]
fn cosine_anchors() {
    assert_eq!(cos_fp(0), 65535);
    assert_eq!(cos_fp(PI_FP), -65535);
    assert_eq!(cos_fp(205887), -65535);
    assert_eq!(cos_fp(HALF_PI_FP), -1);
    assert!(cos_fp(ONE).abs() <= ONE);
}

#[test]
fn sine_stays_within_one_unit() {
    let mut t: i64 = -10 * PI_FP;
    while t <= 10 * PI_FP {
        let s = sin_fp(t);
        let c = cos_fp(t);
        assert!(-ONE <= s && s <= ONE);
        assert!(-ONE <= c && c <= ONE);
        t += 12345;
    }
}
