//! Fixed-point arithmetic helpers. Every continuous quantity in this crate
//! (radians, normalized radii, sub-pixel canvas positions) is an `i64` scaled
//! by `ONE`, so all geometry is exact integer arithmetic.

use vstd::arithmetic::div_mod::{
    lemma_fundamental_div_mod, lemma_fundamental_div_mod_converse, lemma_mod_bound,
};
use vstd::arithmetic::mul::lemma_mul_inequality;
use vstd::prelude::*;

verus! {

/// The fixed-point unit: the integer standing for 1.0.
pub const ONE: i64 = 65536;

/// Pi scaled by `ONE`.
pub const PI_FP: i64 = 205887;

/// Half pi scaled by `ONE`.
pub const HALF_PI_FP: i64 = 102944;

/// Two pi scaled by `ONE`.
pub const TWO_PI_FP: i64 = 2 * PI_FP;

/// Floor division by a positive divisor: agrees with the mathematical `/`
/// of specifications, which rounds toward negative infinity.
pub fn div_floor(a: i64, b: i64) -> (q: i64)
    requires
        1 <= b,
        i64::MIN < a,
    ensures
        q == a as int / b as int,
{
    let qt = a / b;
    let r = a % b;
    proof {
        if a < 0 {
            let m = -(a as int);
            let d = b as int;
            lemma_fundamental_div_mod(m, d);
            lemma_mod_bound(m, d);
            if r != 0 {
                assert(a as int == (qt - 1) * d + (r + b)) by (nonlinear_arith)
                    requires
                        qt == -(m / d),
                        r == -(m % d),
                        a as int == -m,
                        b == d,
                        m == d * (m / d) + (m % d);
                lemma_fundamental_div_mod_converse(a as int, d, qt - 1, (r + b) as int);
            } else {
                assert(a as int == qt * d + 0) by (nonlinear_arith)
                    requires
                        qt == -(m / d),
                        0 == m % d,
                        a as int == -m,
                        m == d * (m / d) + (m % d);
                lemma_fundamental_div_mod_converse(a as int, d, qt as int, 0);
            }
        }
    }
    if r != 0 && a < 0 {
        qt - 1
    } else {
        qt
    }
}

/// Remainder of floor division by a positive divisor: agrees with the
/// mathematical `%` of specifications, whose result lies in `[0, b)`.
pub fn mod_floor(a: i64, b: i64) -> (r: i64)
    requires
        1 <= b,
        i64::MIN < a,
    ensures
        r == a as int % b as int,
        0 <= r < b,
{
    let r0 = a % b;
    proof {
        if a < 0 {
            let m = -(a as int);
            let d = b as int;
            lemma_fundamental_div_mod(m, d);
            lemma_mod_bound(m, d);
            if r0 != 0 {
                assert(a as int == (-(m / d) - 1) * d + (r0 + b)) by (nonlinear_arith)
                    requires
                        r0 == -(m % d),
                        a as int == -m,
                        b == d,
                        m == d * (m / d) + (m % d);
                lemma_fundamental_div_mod_converse(a as int, d, -(m / d) - 1, (r0 + b) as int);
            } else {
                assert(a as int == (-(m / d)) * d + 0) by (nonlinear_arith)
                    requires
                        0 == m % d,
                        a as int == -m,
                        m == d * (m / d) + (m % d);
                lemma_fundamental_div_mod_converse(a as int, d, -(m / d), 0);
            }
        } else {
            lemma_mod_bound(a as int, b as int);
        }
    }
    if r0 < 0 {
        r0 + b
    } else {
        r0
    }
}

/// The integer square root, defined by repeated increment so that
/// specifications can speak of it as a total function.
pub open spec fn spec_isqrt(n: int) -> int
    decreases n,
{
    if n < 1 {
        0
    } else if (spec_isqrt(n - 1) + 1) * (spec_isqrt(n - 1) + 1) <= n {
        spec_isqrt(n - 1) + 1
    } else {
        spec_isqrt(n - 1)
    }
}

/// `spec_isqrt(n)` really is the square root: it is the greatest integer
/// whose square does not exceed `n`.
pub proof fn lemma_isqrt_bounds(n: int)
    requires
        0 <= n,
    ensures
        0 <= spec_isqrt(n),
        spec_isqrt(n) * spec_isqrt(n) <= n,
        n < (spec_isqrt(n) + 1) * (spec_isqrt(n) + 1),
    decreases n,
{
    if n >= 1 {
        lemma_isqrt_bounds(n - 1);
        let s = spec_isqrt(n - 1);
        if (s + 1) * (s + 1) <= n {
            assert((s + 1) * (s + 1) < (s + 2) * (s + 2)) by (nonlinear_arith)
                requires 0 <= s;
        }
    }
}

/// Any integer satisfying the square-root bounds equals `spec_isqrt`.
pub proof fn lemma_isqrt_unique(n: int, r: int)
    requires
        0 <= n,
        0 <= r,
        r * r <= n,
        n < (r + 1) * (r + 1),
    ensures
        r == spec_isqrt(n),
{
    let s = spec_isqrt(n);
    lemma_isqrt_bounds(n);
    if r < s {
        lemma_mul_inequality(r + 1, s, r + 1);
        lemma_mul_inequality(r + 1, s, s);
        assert((r + 1) * (r + 1) <= s * s) by (nonlinear_arith)
            requires 0 <= r + 1 <= s;
    }
    if s < r {
        assert((s + 1) * (s + 1) <= r * r) by (nonlinear_arith)
            requires 0 <= s + 1 <= r;
    }
}

/// Integer square root by bisection.
pub fn isqrt(n: u64) -> (r: u64)
    ensures
        r == spec_isqrt(n as int),
        r * r <= n,
        n < (r + 1) * (r + 1),
{
    let mut lo: u64 = 0;
    let mut hi: u64 = 0x1_0000_0000;
    proof {
        assert((0x1_0000_0000 as int) * (0x1_0000_0000 as int) > n as int) by (nonlinear_arith);
    }
    while lo + 1 < hi
        invariant
            lo < hi <= 0x1_0000_0000,
            lo * lo <= n,
            (n as int) < (hi as int) * (hi as int),
        decreases hi - lo,
    {
        let mid = lo + (hi - lo) / 2;
        proof {
            assert((mid as int) * (mid as int) <= (0xFFFF_FFFF as int) * (0xFFFF_FFFF as int))
                by (nonlinear_arith)
                requires 0 <= mid <= 0xFFFF_FFFF;
        }
        if mid * mid <= n {
            lo = mid;
        } else {
            hi = mid;
        }
    }
    proof {
        lemma_isqrt_unique(n as int, lo as int);
    }
    lo
}

/// The rational core of the sine approximation on `[0, PI_FP]`, scaled by
/// `ONE` and clamped to `ONE` so the result always lies in `[0, ONE]`.
pub open spec fn spec_sin_half(x: int) -> int {
    let p = x * (PI_FP - x);
    let v = 16 * p * (ONE as int) / (5 * (PI_FP as int) * (PI_FP as int) - 4 * p);
    if v > ONE {
        ONE as int
    } else {
        v
    }
}

/// Sine of a fixed-point angle: reduce into `[0, TWO_PI_FP)`, then fold the
/// second half-turn onto the first with a sign flip.
pub open spec fn spec_sin(t: int) -> int {
    let m = t % (TWO_PI_FP as int);
    if m <= PI_FP {
        spec_sin_half(m)
    } else {
        -spec_sin_half(m - PI_FP)
    }
}

/// Cosine as the sine of a quarter turn later.
pub open spec fn spec_cos(t: int) -> int {
    spec_sin(t + HALF_PI_FP)
}

fn sin_half(x: i64) -> (r: i64)
    requires
        0 <= x <= PI_FP,
    ensures
        r == spec_sin_half(x as int),
        0 <= r <= ONE,
{
    proof {
        assert(0 <= (x as int) * (PI_FP - x as int) <= (PI_FP as int) * (PI_FP as int))
            by (nonlinear_arith)
            requires 0 <= x <= PI_FP;
    }
    let p = x * (PI_FP - x);
    let num = 16 * p * ONE;
    let den = 5 * PI_FP * PI_FP - 4 * p;
    let v = num / den;
    proof {
        lemma_fundamental_div_mod(num as int, den as int);
        lemma_mod_bound(num as int, den as int);
        assert(v >= 0) by (nonlinear_arith)
            requires
                num >= 0,
                den > 0,
                v == num as int / den as int,
                num == den * (num as int / den as int) + num as int % den as int,
                0 <= num as int % (den as int) && num as int % (den as int) < den;
    }
    if v > ONE {
        ONE
    } else {
        v
    }
}

/// Fixed-point sine; the result is scaled by `ONE`.
pub fn sin_fp(t: i64) -> (r: i64)
    requires
        i64::MIN < t,
    ensures
        r == spec_sin(t as int),
        -ONE <= r <= ONE,
{
    let m = mod_floor(t, TWO_PI_FP);
    if m <= PI_FP {
        sin_half(m)
    } else {
        let v = sin_half(m - PI_FP);
        -v
    }
}

/// Fixed-point cosine; the result is scaled by `ONE`.
pub fn cos_fp(t: i64) -> (r: i64)
    requires
        i64::MIN + HALF_PI_FP < t,
        t <= i64::MAX - HALF_PI_FP,
    ensures
        r == spec_cos(t as int),
        -ONE <= r <= ONE,
{
    sin_fp(t + HALF_PI_FP)
}

} // verus!
