//! Fixed-point elementary functions for the pricing model: the
//! exponential, the natural logarithm, and the standard normal
//! cumulative distribution function.
//!
//! Each function computes a classical approximation entirely in
//! micro-unit fixed point, and its contract pins the result to the
//! spec-level statement of that same approximation: the exponential
//! by integer powers of `e` times a truncated Taylor series of the
//! fractional part; the logarithm by power-of-two range reduction and
//! a truncated series for `2*atanh`; the normal distribution by the
//! classical five-coefficient polynomial approximation of its tail.

use vstd::prelude::*;
use crate::fixed::{
    SCALE,
    abs,
    tdiv,
    fp_mul,
    mul_fp,
    div_trunc,
    lemma_tdiv_bound,
    lemma_fp_mul_unit_bound,
    lemma_fp_mul_bounds,
};
use vstd::arithmetic::div_mod::{lemma_div_is_ordered, lemma_div_multiples_vanish};

verus! {

/// `e` in micro-units.
pub const E_FP: i64 = 2_718_281;

/// `1/e` in micro-units.
pub const INV_E_FP: i64 = 367_879;

/// `ln 2` in micro-units.
pub const LN2_FP: i64 = 693_147;

/// `1/sqrt(2*pi)` in micro-units.
pub const INV_SQRT_TAU_FP: i64 = 398_942;

/// Series length of every truncated expansion here.
pub const SERIES_LEN: i64 = 30;

/// `base^n` in fixed point for a base of at most 1.0.
pub open spec fn spec_pow_frac(base: int, n: int) -> int
    decreases n,
{
    if n <= 0 {
        SCALE as int
    } else {
        fp_mul(spec_pow_frac(base, n - 1), base)
    }
}

proof fn lemma_pow_frac_bound(base: int, n: int)
    requires
        0 <= base <= SCALE,
    ensures
        0 <= spec_pow_frac(base, n) <= SCALE,
    decreases n,
{
    if n > 0 {
        lemma_pow_frac_bound(base, n - 1);
        lemma_fp_mul_unit_bound(spec_pow_frac(base, n - 1), base, SCALE as int);
    }
}

/// `e^n` in fixed point, by repeated fixed-point multiplication.
pub open spec fn spec_pow_e(n: int) -> int
    decreases n,
{
    if n <= 0 {
        SCALE as int
    } else {
        fp_mul(spec_pow_e(n - 1), E_FP as int)
    }
}

proof fn lemma_pow_e_small(n: int)
    requires
        0 <= n <= 2,
    ensures
        SCALE <= spec_pow_e(n) <= 7_400_000,
{
    assert(spec_pow_e(0) == SCALE);
    if n >= 1 {
        assert(spec_pow_e(1) == fp_mul(SCALE as int, E_FP as int));
        assert((SCALE as int) * (E_FP as int) == (SCALE as int) * (E_FP as int));
        lemma_div_multiples_vanish(E_FP as int, SCALE as int);
        assert(tdiv((SCALE as int) * (E_FP as int), SCALE as int) == E_FP) by {
            assert((SCALE as int) * (E_FP as int) >= 0);
        }
        assert(spec_pow_e(1) == E_FP);
    }
    if n == 2 {
        assert(spec_pow_e(2) == fp_mul(E_FP as int, E_FP as int));
        lemma_fp_mul_bounds(E_FP as int, E_FP as int, E_FP as int, E_FP as int);
        assert(tdiv((E_FP as int) * (E_FP as int), SCALE as int) <= 7_400_000);
        assert(spec_pow_e(2) >= SCALE) by {
            assert((E_FP as int) * (E_FP as int) >= (SCALE as int) * (SCALE as int))
                by (nonlinear_arith)
                requires
                    E_FP >= SCALE > 0,
            ;
            lemma_div_is_ordered(
                (SCALE as int) * (SCALE as int),
                (E_FP as int) * (E_FP as int),
                SCALE as int,
            );
            lemma_div_multiples_vanish(SCALE as int, SCALE as int);
        }
    }
}

/// The truncated alternating series for `e^(-f)` with `0 <= f < 1`,
/// written as a nested difference so every partial stays in `[0, t]`.
pub open spec fn spec_exp_neg_series(f: int, t: int, k: int) -> int
    decreases SERIES_LEN - k,
{
    if k >= SERIES_LEN {
        0
    } else {
        t - spec_exp_neg_series(f, tdiv(fp_mul(t, f), k + 1), k + 1)
    }
}

/// The truncated series for `e^f` with `0 <= f < 1`.
pub open spec fn spec_exp_pos_series(f: int, t: int, k: int) -> int
    decreases SERIES_LEN - k,
{
    if k >= SERIES_LEN {
        0
    } else {
        t + spec_exp_pos_series(f, tdiv(fp_mul(t, f), k + 1), k + 1)
    }
}

/// `e^x` in fixed point: the integer part by powers of `e` (or of
/// `1/e`), the fractional part by a truncated series.
pub open spec fn spec_exp_fp(x: int) -> int {
    if x >= 0 {
        let n = x / (SCALE as int);
        let f = x - n * SCALE;
        fp_mul(spec_pow_e(n), spec_exp_pos_series(f, SCALE as int, 0))
    } else {
        let n = (-x) / (SCALE as int);
        let f = (-x) - n * SCALE;
        fp_mul(spec_pow_frac(INV_E_FP as int, n), spec_exp_neg_series(f, SCALE as int, 0))
    }
}

fn exp_neg_series(f: i64, t: i64, k: i64) -> (r: i64)
    requires
        0 <= f < SCALE,
        0 <= t <= SCALE,
        0 <= k <= SERIES_LEN,
    ensures
        r == spec_exp_neg_series(f as int, t as int, k as int),
        0 <= r <= t,
    decreases SERIES_LEN - k,
{
    if k >= SERIES_LEN {
        0
    } else {
        proof {
            lemma_fp_mul_unit_bound(t as int, f as int, SCALE as int);
            lemma_tdiv_bound(fp_mul(t as int, f as int), k as int + 1);
        }
        let next = div_trunc(mul_fp(t, f), k + 1);
        let rest = exp_neg_series(f, next, k + 1);
        t - rest
    }
}

fn exp_pos_series(f: i64, t: i64, k: i64) -> (r: i64)
    requires
        0 <= f < SCALE,
        0 <= t <= SCALE,
        0 <= k <= SERIES_LEN,
    ensures
        r == spec_exp_pos_series(f as int, t as int, k as int),
        k >= 1 ==> 0 <= r <= 2 * t,
        k == 0 ==> 0 <= r <= 3 * t,
    decreases SERIES_LEN - k,
{
    if k >= SERIES_LEN {
        0
    } else {
        proof {
            lemma_fp_mul_unit_bound(t as int, f as int, SCALE as int);
            lemma_tdiv_bound(fp_mul(t as int, f as int), k as int + 1);
            if k >= 1 {
                assert(tdiv(fp_mul(t as int, f as int), k as int + 1) <= t / 2) by {
                    vstd::arithmetic::div_mod::lemma_div_is_ordered_by_denominator(
                        fp_mul(t as int, f as int),
                        2,
                        k as int + 1,
                    );
                    lemma_div_is_ordered(fp_mul(t as int, f as int), t as int, 2);
                }
            }
        }
        let next = div_trunc(mul_fp(t, f), k + 1);
        let rest = exp_pos_series(f, next, k + 1);
        proof {
            if k >= 1 {
                assert(t / 2 + t / 2 <= t) by (nonlinear_arith)
                    requires
                        t >= 0,
                ;
            }
        }
        t + rest
    }
}

fn pow_frac(base: i64, n: i64) -> (r: i64)
    requires
        0 <= base <= SCALE,
        0 <= n <= 100,
    ensures
        r == spec_pow_frac(base as int, n as int),
        0 <= r <= SCALE,
    decreases n,
{
    proof {
        lemma_pow_frac_bound(base as int, n as int);
    }
    if n <= 0 {
        SCALE
    } else {
        let prev = pow_frac(base, n - 1);
        proof {
            lemma_fp_mul_unit_bound(prev as int, base as int, SCALE as int);
        }
        mul_fp(prev, base)
    }
}

fn pow_e(n: i64) -> (r: i64)
    requires
        0 <= n <= 2,
    ensures
        r == spec_pow_e(n as int),
        SCALE <= r <= 7_400_000,
    decreases n,
{
    proof {
        lemma_pow_e_small(n as int);
    }
    if n <= 0 {
        SCALE
    } else {
        let prev = pow_e(n - 1);
        proof {
            lemma_pow_e_small(n as int - 1);
            lemma_fp_mul_bounds(prev as int, E_FP as int, 7_400_000, E_FP as int);
        }
        mul_fp(prev, E_FP)
    }
}

/// `e^x` in fixed point, for `x` at most 2.0 (the pricing model's
/// discount factor never needs more) and at least -40.0.
pub fn exp_fp(x: i64) -> (r: i64)
    requires
        -40 * SCALE <= x <= 2 * SCALE,
    ensures
        r == spec_exp_fp(x as int),
        r >= 0,
        x <= 0 ==> r <= SCALE,
        r <= 23 * SCALE,
{
    if x >= 0 {
        let n = x / SCALE;
        let f = x - n * SCALE;
        proof {
            assert(0 <= f < SCALE && 0 <= n <= 2) by (nonlinear_arith)
                requires
                    0 <= x <= 2 * SCALE,
                    n == (x as int) / (SCALE as int),
                    f == x - n * SCALE,
                    SCALE == 1_000_000,
            ;
        }
        let p = pow_e(n);
        let s = exp_pos_series(f, SCALE, 0);
        proof {
            lemma_fp_mul_bounds(p as int, s as int, 7_400_000, 3 * SCALE as int);
            assert(tdiv(7_400_000 * (3 * (SCALE as int)), SCALE as int) == 22_200_000);
            if x == 0 {
                assert(spec_exp_fp(0) == fp_mul(spec_pow_e(0), spec_exp_pos_series(
                    0,
                    SCALE as int,
                    0,
                )));
            }
        }
        let r = mul_fp(p, s);
        proof {
            if x <= 0 {
                assert(n == 0 && f == 0);
                lemma_series_at_zero();
                assert(s == SCALE && p == SCALE);
                lemma_fp_mul_unit_bound(p as int, s as int, SCALE as int);
            }
        }
        r
    } else {
        let y = -x;
        let n = y / SCALE;
        let f = y - n * SCALE;
        proof {
            assert(0 <= f < SCALE && 0 <= n <= 40) by (nonlinear_arith)
                requires
                    0 < y <= 40 * SCALE,
                    n == (y as int) / (SCALE as int),
                    f == y - n * SCALE,
                    SCALE == 1_000_000,
            ;
            lemma_pow_frac_bound(INV_E_FP as int, n as int);
        }
        let p = pow_frac(INV_E_FP, n);
        let s = exp_neg_series(f, SCALE, 0);
        proof {
            lemma_fp_mul_unit_bound(p as int, s as int, SCALE as int);
        }
        mul_fp(p, s)
    }
}

/// Halves `q` until it lies below 2.0, counting the halvings.
pub open spec fn spec_norm_down(q: int) -> (int, int)
    decreases q,
    when q >= 0
{
    if q < 2 * SCALE {
        (q, 0int)
    } else {
        let r = spec_norm_down(q / 2);
        (r.0, r.1 + 1)
    }
}

/// Doubles `q` until it reaches 1.0, counting the doublings.
pub open spec fn spec_norm_up(q: int) -> (int, int)
    decreases 2 * SCALE - q,
    when 1 <= q < 2 * SCALE
{
    if q >= SCALE {
        (q, 0int)
    } else {
        let r = spec_norm_up(2 * q);
        (r.0, r.1 + 1)
    }
}

proof fn lemma_norm_down_props(q: int, c: nat)
    requires
        SCALE <= q,
        q < vstd::arithmetic::power2::pow2(c) * 2 * SCALE,
    ensures
        SCALE <= spec_norm_down(q).0 < 2 * SCALE,
        0 <= spec_norm_down(q).1 <= c,
    decreases c,
{
    vstd::arithmetic::power2::lemma_pow2_pos(c);
    if q < 2 * SCALE {
    } else {
        assert(c >= 1) by {
            if c == 0 {
                assert(vstd::arithmetic::power2::pow2(0) == 1) by {
                    vstd::arithmetic::power2::lemma2_to64();
                }
            }
        }
        assert(q / 2 < vstd::arithmetic::power2::pow2((c - 1) as nat) * 2 * SCALE) by {
            vstd::arithmetic::power2::lemma_pow2_unfold(c);
            assert(q / 2 * 2 <= q < vstd::arithmetic::power2::pow2(c) * 2 * SCALE)
                by (nonlinear_arith)
                requires
                    q >= 0,
                    q < vstd::arithmetic::power2::pow2(c) * 2 * SCALE,
            ;
            assert(vstd::arithmetic::power2::pow2(c) * 2 * SCALE == 2 * (
            vstd::arithmetic::power2::pow2((c - 1) as nat) * 2 * SCALE)) by (nonlinear_arith)
                requires
                    vstd::arithmetic::power2::pow2(c) == 2 * vstd::arithmetic::power2::pow2(
                        (c - 1) as nat,
                    ),
            ;
        }
        lemma_norm_down_props(q / 2, (c - 1) as nat);
    }
}

proof fn lemma_norm_up_props(q: int, c: nat)
    requires
        1 <= q < 2 * SCALE,
        q * vstd::arithmetic::power2::pow2(c) >= SCALE,
    ensures
        SCALE <= spec_norm_up(q).0 < 2 * SCALE,
        0 <= spec_norm_up(q).1 <= c,
    decreases c,
{
    vstd::arithmetic::power2::lemma_pow2_pos(c);
    if q >= SCALE {
    } else {
        assert(c >= 1) by {
            if c == 0 {
                assert(vstd::arithmetic::power2::pow2(0) == 1) by {
                    vstd::arithmetic::power2::lemma2_to64();
                }
                assert(q * vstd::arithmetic::power2::pow2(c) == q) by (nonlinear_arith)
                    requires
                        vstd::arithmetic::power2::pow2(c) == 1,
                ;
            }
        }
        assert((2 * q) * vstd::arithmetic::power2::pow2((c - 1) as nat) >= SCALE) by {
            vstd::arithmetic::power2::lemma_pow2_unfold(c);
            assert((2 * q) * vstd::arithmetic::power2::pow2((c - 1) as nat) == q * (2
                * vstd::arithmetic::power2::pow2((c - 1) as nat))) by (nonlinear_arith);
        }
        lemma_norm_up_props(2 * q, (c - 1) as nat);
    }
}

fn norm_down(q: i64) -> (r: (i64, i64))
    requires
        SCALE <= q,
    ensures
        (r.0 as int, r.1 as int) == spec_norm_down(q as int),
        SCALE <= r.0 < 2 * SCALE,
        0 <= r.1 <= 63,
    decreases q,
{
    proof {
        vstd::arithmetic::power2::lemma2_to64();
        vstd::arithmetic::power2::lemma2_to64_rest();
        assert(vstd::arithmetic::power2::pow2(63) == 0x8000000000000000);
        lemma_norm_down_props(q as int, 63);
    }
    if q < 2 * SCALE {
        (q, 0)
    } else {
        let r = norm_down(q / 2);
        (r.0, r.1 + 1)
    }
}

fn norm_up(q: i64) -> (r: (i64, i64))
    requires
        1 <= q < 2 * SCALE,
    ensures
        (r.0 as int, r.1 as int) == spec_norm_up(q as int),
        SCALE <= r.0 < 2 * SCALE,
        0 <= r.1 <= 20,
    decreases 2 * SCALE - q,
{
    proof {
        vstd::arithmetic::power2::lemma2_to64();
        assert(vstd::arithmetic::power2::pow2(20) == 0x100000);
        assert((q as int) * 0x100000 >= SCALE) by (nonlinear_arith)
            requires
                q >= 1,
        ;
        lemma_norm_up_props(q as int, 20);
    }
    if q >= SCALE {
        (q, 0)
    } else {
        let r = norm_up(2 * q);
        (r.0, r.1 + 1)
    }
}

/// The truncated odd series for `atanh(z)` applied to `z2 = z*z`:
/// `z + z^3/3 + z^5/5 + ...`, each term fed in as `t`.
pub open spec fn spec_atanh_series(z2: int, t: int, i: int) -> int
    decreases SERIES_LEN - i,
{
    if i >= SERIES_LEN {
        0
    } else {
        tdiv(t, 2 * i + 1) + spec_atanh_series(z2, fp_mul(t, z2), i + 1)
    }
}

fn atanh_series(z2: i64, t: i64, i: i64) -> (r: i64)
    requires
        0 <= z2 <= SCALE / 2,
        0 <= t <= SCALE,
        0 <= i <= SERIES_LEN,
    ensures
        r == spec_atanh_series(z2 as int, t as int, i as int),
        0 <= r <= 2 * t,
    decreases SERIES_LEN - i,
{
    if i >= SERIES_LEN {
        0
    } else {
        proof {
            lemma_fp_mul_unit_bound(t as int, z2 as int, SCALE as int);
            assert(fp_mul(t as int, z2 as int) <= t / 2) by {
                let ti = t as int;
                let h = ti / 2;
                let rem = ti % 2;
                vstd::arithmetic::div_mod::lemma_fundamental_div_mod(ti, 2);
                assert(ti * 500_000 == 1_000_000 * h + 500_000 * rem) by (nonlinear_arith)
                    requires
                        ti == 2 * h + rem,
                ;
                vstd::arithmetic::div_mod::lemma_div_multiples_vanish_fancy(
                    h,
                    500_000 * rem,
                    1_000_000,
                );
                assert(ti * (z2 as int) <= ti * 500_000) by (nonlinear_arith)
                    requires
                        0 <= ti,
                        0 <= z2 <= 500_000,
                ;
                lemma_div_is_ordered(ti * (z2 as int), ti * 500_000, SCALE as int);
                lemma_tdiv_bound(ti * (z2 as int), SCALE as int);
                assert(ti * (z2 as int) >= 0) by (nonlinear_arith)
                    requires
                        ti >= 0,
                        z2 >= 0,
                ;
            }
            lemma_tdiv_bound(t as int, 2 * (i as int) + 1);
        }
        let head = div_trunc(t, 2 * i + 1);
        let next = mul_fp(t, z2);
        let rest = atanh_series(z2, next, i + 1);
        proof {
            assert(head + rest <= t + 2 * (t / 2));
            assert(2 * ((t as int) / 2) <= t) by (nonlinear_arith)
                requires
                    t >= 0,
            ;
        }
        head + rest
    }
}

/// `2*atanh((m - 1)/(m + 1))` for a mantissa `m` in `[1, 2)`: the
/// natural logarithm of the mantissa.
pub open spec fn spec_ln_mantissa(m: int) -> int {
    let z = tdiv((m - SCALE) * SCALE, m + SCALE);
    2 * spec_atanh_series(fp_mul(z, z), z, 0)
}

/// `ln q` in fixed point: the mantissa's logarithm plus or minus the
/// right multiple of `ln 2`.
pub open spec fn spec_ln_fp(q: int) -> int {
    if q >= SCALE {
        let r = spec_norm_down(q);
        spec_ln_mantissa(r.0) + r.1 * LN2_FP
    } else {
        let r = spec_norm_up(q);
        spec_ln_mantissa(r.0) - r.1 * LN2_FP
    }
}

fn ln_mantissa(m: i64) -> (r: i64)
    requires
        SCALE <= m < 2 * SCALE,
    ensures
        r == spec_ln_mantissa(m as int),
        0 <= r <= 2 * SCALE,
{
    let z = div_trunc((m - SCALE) * SCALE, m + SCALE);
    proof {
        lemma_tdiv_bound(((m - SCALE) as int) * (SCALE as int), (m + SCALE) as int);
        assert(z <= SCALE / 2) by {
            assert(((m - SCALE) as int) * (SCALE as int) >= 0) by (nonlinear_arith)
                requires
                    m >= SCALE,
                    SCALE == 1_000_000,
            ;
            vstd::arithmetic::div_mod::lemma_div_is_ordered_by_denominator(
                ((m - SCALE) as int) * (SCALE as int),
                2 * (SCALE as int),
                (m + SCALE) as int,
            );
            assert(((m - SCALE) as int) * (SCALE as int) <= (2 * (SCALE as int)) * ((SCALE as int)
                / 2)) by (nonlinear_arith)
                requires
                    SCALE <= m < 2 * SCALE,
                    SCALE == 1_000_000,
            ;
            lemma_div_is_ordered(
                ((m - SCALE) as int) * (SCALE as int),
                (2 * (SCALE as int)) * ((SCALE as int) / 2),
                2 * (SCALE as int),
            );
            lemma_div_multiples_vanish((SCALE as int) / 2, 2 * (SCALE as int));
        }
    }
    proof {
        lemma_fp_mul_bounds(z as int, z as int, (SCALE as int) / 2, (SCALE as int) / 2);
        assert(tdiv(500_000int * 500_000int, SCALE as int) == 250_000);
    }
    let z2 = mul_fp(z, z);
    let at = atanh_series(z2, z, 0);
    2 * at
}

/// `ln q` in fixed point, for any positive fixed-point `q`.
pub fn ln_fp(q: i64) -> (r: i64)
    requires
        1 <= q,
    ensures
        r == spec_ln_fp(q as int),
        abs(r as int) <= 50_000_000,
{
    if q >= SCALE {
        let (m, k) = norm_down(q);
        let lm = ln_mantissa(m);
        lm + k * LN2_FP
    } else {
        let (m, k) = norm_up(q);
        let lm = ln_mantissa(m);
        lm - k * LN2_FP
    }
}

/// The tail-weight coefficient of the normal approximation.
pub const CDF_T_COEF: i64 = 231_642;

pub const CDF_B1: i64 = 319_382;

pub const CDF_B2: i64 = -356_564;

pub const CDF_B3: i64 = 1_781_478;

pub const CDF_B4: i64 = -1_821_256;

pub const CDF_B5: i64 = 1_330_274;

/// Arguments at or beyond this point round to a probability of 1.
pub const CDF_CAP: i64 = 8_000_000;

/// The five-coefficient polynomial of the tail approximation,
/// evaluated by nested fixed-point multiplication.
pub open spec fn spec_cdf_poly(t: int) -> int {
    fp_mul(
        t,
        CDF_B1 as int + fp_mul(
            t,
            CDF_B2 as int + fp_mul(t, CDF_B3 as int + fp_mul(t, CDF_B4 as int + fp_mul(t, CDF_B5 as int))),
        ),
    )
}

/// The approximation for a nonnegative argument, clamped into
/// `[0, 1]`; at and beyond the cap it is exactly 1.
pub open spec fn spec_cdf_pos(x: int) -> int {
    if x >= CDF_CAP {
        SCALE as int
    } else {
        let t = tdiv((SCALE as int) * (SCALE as int), SCALE as int + fp_mul(CDF_T_COEF as int, x));
        let phi = fp_mul(INV_SQRT_TAU_FP as int, spec_exp_fp(-tdiv(fp_mul(x, x), 2)));
        let raw = SCALE as int - fp_mul(phi, spec_cdf_poly(t));
        if raw < 0 {
            0
        } else if raw > SCALE {
            SCALE as int
        } else {
            raw
        }
    }
}

/// The standard normal cumulative distribution in fixed point.
pub open spec fn spec_norm_cdf(x: int) -> int {
    if x < 0 {
        SCALE as int - spec_cdf_pos(-x)
    } else {
        spec_cdf_pos(x)
    }
}

fn cdf_pos(x: i64) -> (r: i64)
    requires
        0 <= x <= 2_000_000_000_000_000,
    ensures
        r == spec_cdf_pos(x as int),
        0 <= r <= SCALE,
{
    if x >= CDF_CAP {
        return SCALE;
    }
    proof {
        lemma_fp_mul_bounds(CDF_T_COEF as int, x as int, CDF_T_COEF as int, CDF_CAP as int);
        assert(tdiv((CDF_T_COEF as int) * (CDF_CAP as int), SCALE as int) <= 1_900_000);
    }
    let den = SCALE + mul_fp(CDF_T_COEF, x);
    let t = div_trunc(1_000_000_000_000, den);
    proof {
        lemma_tdiv_bound(1_000_000_000_000, den as int);
        vstd::arithmetic::div_mod::lemma_div_is_ordered_by_denominator(
            1_000_000_000_000,
            SCALE as int,
            den as int,
        );
        assert(1_000_000_000_000int / (SCALE as int) == SCALE) by {
            lemma_div_multiples_vanish(SCALE as int, SCALE as int);
            assert((SCALE as int) * (SCALE as int) == 1_000_000_000_000) by (nonlinear_arith)
                requires
                    SCALE == 1_000_000,
            ;
        }
        assert(t <= SCALE);
        assert((SCALE as int) * (SCALE as int) == 1_000_000_000_000) by (nonlinear_arith)
            requires
                SCALE == 1_000_000,
        ;
    }
    // phi(x) = exp(-x^2/2) / sqrt(2*pi)
    proof {
        lemma_fp_mul_bounds(x as int, x as int, CDF_CAP as int, CDF_CAP as int);
        assert(tdiv((CDF_CAP as int) * (CDF_CAP as int), SCALE as int) == 64_000_000);
        lemma_tdiv_bound(fp_mul(x as int, x as int), 2);
    }
    let xsq = mul_fp(x, x);
    let xh = div_trunc(xsq, 2);
    let ex = exp_fp(-xh);
    proof {
        lemma_fp_mul_unit_bound(INV_SQRT_TAU_FP as int, ex as int, SCALE as int);
    }
    let phi = mul_fp(INV_SQRT_TAU_FP, ex);
    // Horner evaluation of the tail polynomial.
    proof {
        crate::fixed::lemma_fp_mul_signed_unit(t as int, CDF_B5 as int);
    }
    let h4 = CDF_B4 + mul_fp(t, CDF_B5);
    proof {
        crate::fixed::lemma_fp_mul_signed_unit(t as int, h4 as int);
    }
    let h3 = CDF_B3 + mul_fp(t, h4);
    proof {
        crate::fixed::lemma_fp_mul_signed_unit(t as int, h3 as int);
    }
    let h2 = CDF_B2 + mul_fp(t, h3);
    proof {
        crate::fixed::lemma_fp_mul_signed_unit(t as int, h2 as int);
    }
    let h1 = CDF_B1 + mul_fp(t, h2);
    proof {
        crate::fixed::lemma_fp_mul_signed_unit(t as int, h1 as int);
    }
    let poly = mul_fp(t, h1);
    proof {
        crate::fixed::lemma_fp_mul_signed_unit(phi as int, poly as int);
        assert(abs(fp_mul(phi as int, poly as int)) <= 7_000_000);
    }
    let raw = SCALE - mul_fp(phi, poly);
    if raw < 0 {
        0
    } else if raw > SCALE {
        SCALE
    } else {
        raw
    }
}

/// The standard normal cumulative distribution in fixed point.
pub fn norm_cdf(x: i64) -> (r: i64)
    requires
        abs(x as int) <= 2_000_000_000_000_000,
    ensures
        r == spec_norm_cdf(x as int),
        0 <= r <= SCALE,
{
    if x < 0 {
        let p = cdf_pos(-x);
        SCALE - p
    } else {
        cdf_pos(x)
    }
}

/// The positive-argument series at zero sums to exactly 1.0: every
/// later term is zero.
proof fn lemma_series_at_zero()
    ensures
        spec_exp_pos_series(0, SCALE as int, 0) == SCALE,
{
    lemma_pos_series_zero_term(0, 1);
    assert(fp_mul(SCALE as int, 0) == 0) by {
        assert((SCALE as int) * 0 == 0) by (nonlinear_arith);
    }
    assert(tdiv(0, 1) == 0);
}

proof fn lemma_pos_series_zero_term(f: int, k: int)
    requires
        f == 0,
        1 <= k,
    ensures
        spec_exp_pos_series(0, 0, k) == 0,
    decreases SERIES_LEN - k,
{
    if k < SERIES_LEN {
        assert(fp_mul(0, 0) == 0) by {
            assert(0int * 0int == 0) by (nonlinear_arith);
        }
        assert(tdiv(0, k + 1) == 0);
        lemma_pos_series_zero_term(f, k + 1);
    }
}

} // verus!
