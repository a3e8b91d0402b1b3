//! Rounding, level shift and clamp: the last stage of every inverse transform.
use vstd::arithmetic::div_mod::{lemma_fundamental_div_mod, lemma_fundamental_div_mod_converse};
use vstd::prelude::*;

verus! {

/// The integer nearest to `n / d`; a tie goes away from zero.
pub open spec fn round_div(n: int, d: int) -> int
    recommends
        d > 0,
{
    if n >= 0 {
        (n + d / 2) / d
    } else {
        -((d / 2 - n) / d)
    }
}

/// `v` limited to the range of an 8-bit sample.
pub open spec fn clamp_sample(v: int) -> int {
    if v < 0 {
        0
    } else if v > 255 {
        255
    } else {
        v
    }
}

/// The sample that an accumulated sum `n` at scale `d` stands for:
/// rounded to the nearest integer, shifted up by 128, clamped to 0..=255.
pub open spec fn sample_of(n: int, d: int) -> int
    recommends
        d > 0,
{
    clamp_sample(round_div(n, d) + 128)
}

/// Half of a divisor, rounded down.
proof fn lemma_half(d: int)
    requires
        d > 0,
    ensures
        2 * (d / 2) <= d <= 2 * (d / 2) + 1,
        0 <= d / 2,
{
}

/// `r` is the rounded quotient exactly when `n / d` lies within a half of it,
/// the half on the far side of zero excluded.
pub proof fn lemma_round_div_is(n: int, d: int, r: int)
    requires
        d > 0,
        n >= 0 ==> 2 * (d * r) - d <= 2 * n < 2 * (d * r) + d,
        n < 0 ==> 2 * (d * r) - d < 2 * n <= 2 * (d * r) + d,
    ensures
        round_div(n, d) == r,
{
    let h = d / 2;
    lemma_half(d);
    if n >= 0 {
        let rem = n + h - d * r;
        assert(0 <= rem < d);
        assert(n + h == r * d + rem) by (nonlinear_arith)
            requires
                rem == n + h - d * r,
        ;
        lemma_fundamental_div_mod_converse(n + h, d, r, rem);
    } else {
        let rem = h - n + d * r;
        assert(0 <= rem < d);
        assert(h - n == (-r) * d + rem) by (nonlinear_arith)
            requires
                rem == h - n + d * r,
        ;
        lemma_fundamental_div_mod_converse(h - n, d, -r, rem);
    }
}

/// The rounded quotient is within a half of `n / d`.
pub proof fn lemma_round_div_bounds(n: int, d: int)
    requires
        d > 0,
    ensures
        n >= 0 ==> 2 * (d * round_div(n, d)) - d <= 2 * n < 2 * (d * round_div(n, d)) + d,
        n < 0 ==> 2 * (d * round_div(n, d)) - d < 2 * n <= 2 * (d * round_div(n, d)) + d,
        n >= 0 ==> round_div(n, d) >= 0,
        n <= 0 ==> round_div(n, d) <= 0,
{
    let r = round_div(n, d);
    let h = d / 2;
    lemma_half(d);
    if n >= 0 {
        let x = n + h;
        lemma_fundamental_div_mod(x, d);
        assert(0 <= x % d < d);
        assert(d * (x / d) == d * r);
        assert(r >= 0) by (nonlinear_arith)
            requires
                d * r + d > x,
                x >= 0,
                d > 0,
        ;
        assert(n == 0 ==> r <= 0) by (nonlinear_arith)
            requires
                d * r <= n + h,
                2 * h <= d,
                d > 0,
        ;
    } else {
        let x = h - n;
        lemma_fundamental_div_mod(x, d);
        assert(0 <= x % d < d);
        assert(d * (x / d) == -(d * r)) by (nonlinear_arith)
            requires
                r == -(x / d),
        ;
        assert(r <= 0) by (nonlinear_arith)
            requires
                -(d * r) + d > x,
                x >= 0,
                d > 0,
        ;
    }
}

/// Scaling numerator and divisor by the same positive factor changes nothing.
pub proof fn lemma_round_div_scale(n: int, d: int, k: int)
    requires
        d > 0,
        k > 0,
    ensures
        round_div(k * n, k * d) == round_div(n, d),
{
    let r = round_div(n, d);
    lemma_round_div_bounds(n, d);
    assert(k * d > 0) by (nonlinear_arith)
        requires
            k > 0,
            d > 0,
    ;
    if n >= 0 {
        assert(k * n >= 0 && 2 * ((k * d) * r) - k * d <= 2 * (k * n) < 2 * ((k * d) * r) + k * d)
            by (nonlinear_arith)
            requires
                k > 0,
                n >= 0,
                2 * (d * r) - d <= 2 * n < 2 * (d * r) + d,
        ;
    } else {
        assert(k * n < 0 && 2 * ((k * d) * r) - k * d < 2 * (k * n) <= 2 * ((k * d) * r) + k * d)
            by (nonlinear_arith)
            requires
                k > 0,
                n < 0,
                2 * (d * r) - d < 2 * n <= 2 * (d * r) + d,
        ;
    }
    lemma_round_div_is(k * n, k * d, r);
}

/// Two quotients less than `t` apart round to integers at most `t` apart.
pub proof fn lemma_round_div_near(n1: int, d1: int, n2: int, d2: int, t: int)
    requires
        d1 > 0,
        d2 > 0,
        t >= 1,
        -(t * (d1 * d2)) < n1 * d2 - n2 * d1 < t * (d1 * d2),
    ensures
        -t <= round_div(n1, d1) - round_div(n2, d2) <= t,
{
    let r1 = round_div(n1, d1);
    let r2 = round_div(n2, d2);
    let dd = d1 * d2;
    lemma_round_div_bounds(n1, d1);
    lemma_round_div_bounds(n2, d2);
    assert(dd > 0) by (nonlinear_arith)
        requires
            d1 > 0,
            d2 > 0,
            dd == d1 * d2,
    ;
    assert(2 * (dd * (r1 - r2)) <= 2 * (n1 * d2 - n2 * d1) + 2 * dd && 2 * (dd * (r1 - r2)) >= 2 * (n1
        * d2 - n2 * d1) - 2 * dd) by (nonlinear_arith)
        requires
            d1 > 0,
            d2 > 0,
            dd == d1 * d2,
            2 * (d1 * r1) - d1 <= 2 * n1 <= 2 * (d1 * r1) + d1,
            2 * (d2 * r2) - d2 <= 2 * n2 <= 2 * (d2 * r2) + d2,
    ;
    assert(-t <= r1 - r2 <= t) by (nonlinear_arith)
        requires
            dd > 0,
            t >= 1,
            -(t * dd) < n1 * d2 - n2 * d1 < t * dd,
            2 * (dd * (r1 - r2)) <= 2 * (n1 * d2 - n2 * d1) + 2 * dd,
            2 * (dd * (r1 - r2)) >= 2 * (n1 * d2 - n2 * d1) - 2 * dd,
    ;
}

/// Samples of two sums whose quotients are less than `t` apart differ by at most `t`.
pub proof fn lemma_sample_near(n1: int, d1: int, n2: int, d2: int, t: int)
    requires
        d1 > 0,
        d2 > 0,
        t >= 1,
        -(t * (d1 * d2)) < n1 * d2 - n2 * d1 < t * (d1 * d2),
    ensures
        -t <= sample_of(n1, d1) - sample_of(n2, d2) <= t,
{
    lemma_round_div_near(n1, d1, n2, d2, t);
}

/// A sum at or above 127.5 saturates at 255, one at or below -128.5 at 0,
/// and everything between maps to `round + 128` unclamped.
pub proof fn lemma_sample_saturates(n: int, d: int)
    requires
        d > 0,
    ensures
        0 <= sample_of(n, d) <= 255,
        2 * n >= 255 * d ==> sample_of(n, d) == 255,
        2 * n <= -257 * d ==> sample_of(n, d) == 0,
        -257 * d < 2 * n < 255 * d ==> sample_of(n, d) == round_div(n, d) + 128,
{
    let r = round_div(n, d);
    lemma_round_div_bounds(n, d);
    assert(2 * n >= 255 * d ==> r >= 128) by (nonlinear_arith)
        requires
            d > 0,
            2 * n < 2 * (d * r) + d || n < 0,
    ;
    assert(2 * n <= -257 * d ==> r <= -129) by (nonlinear_arith)
        requires
            d > 0,
            2 * (d * r) - d < 2 * n || n >= 0,
    ;
    assert(-257 * d < 2 * n < 255 * d ==> -128 <= r <= 127) by (nonlinear_arith)
        requires
            d > 0,
            2 * (d * r) - d <= 2 * n <= 2 * (d * r) + d,
    ;
}

/// The magnitude of `n / d` rounded to nearest, a tie rounded up: the
/// magnitude of the rounded quotient.
fn round_magnitude(n: i128, d: i128) -> (m: u128)
    requires
        d > 0,
    ensures
        n >= 0 ==> m == round_div(n as int, d as int),
        n < 0 ==> -m == round_div(n as int, d as int),
{
    let dd: u128 = d as u128;
    let a: u128 = if n >= 0 {
        n as u128
    } else {
        (-(n + 1)) as u128 + 1
    };
    let q: u128 = a / dd;
    let rem: u128 = a % dd;
    let m: u128 = if rem >= dd - rem {
        q + 1
    } else {
        q
    };
    proof {
        lemma_fundamental_div_mod(a as int, dd as int);
        assert(dd * q == d * q) by (nonlinear_arith)
            requires
                dd == d,
        ;
        if n >= 0 {
            assert(2 * (d * m) - d <= 2 * n < 2 * (d * m) + d) by (nonlinear_arith)
                requires
                    n == d * q + rem,
                    0 <= rem < d,
                    2 * rem >= d ==> m == q + 1,
                    2 * rem < d ==> m == q,
            ;
            lemma_round_div_is(n as int, d as int, m as int);
        } else {
            assert(2 * (d * (-m)) - d < 2 * n <= 2 * (d * (-m)) + d) by (nonlinear_arith)
                requires
                    -n == d * q + rem,
                    0 <= rem < d,
                    2 * rem >= d ==> m == q + 1,
                    2 * rem < d ==> m == q,
            ;
            lemma_round_div_is(n as int, d as int, -(m as int));
        }
    }
    m
}

/// Rounds `n / d`, adds the level shift and clamps.
pub fn to_sample(n: i128, d: i128) -> (s: u8)
    requires
        d > 0,
    ensures
        s == sample_of(n as int, d as int),
{
    let m = round_magnitude(n, d);
    if n >= 0 {
        if m >= 127 {
            255
        } else {
            (128 + m) as u8
        }
    } else {
        if m >= 128 {
            0
        } else {
            (128 - m) as u8
        }
    }
}

/// `v` limited to the range of a 32-bit coefficient.
pub open spec fn clamp_coefficient(v: int) -> int {
    if v < -0x8000_0000 {
        -0x8000_0000
    } else if v > 0x7fff_ffff {
        0x7fff_ffff
    } else {
        v
    }
}

/// Rounds `n / d` and clamps to 32 bits.
pub fn to_coefficient(n: i128, d: i128) -> (c: i32)
    requires
        d > 0,
    ensures
        c == clamp_coefficient(round_div(n as int, d as int)),
{
    let m = round_magnitude(n, d);
    if n >= 0 {
        if m > 0x7fff_ffff {
            0x7fff_ffff
        } else {
            m as i32
        }
    } else {
        if m >= 0x8000_0000 {
            -0x8000_0000
        } else {
            -(m as i32)
        }
    }
}

} // verus!
