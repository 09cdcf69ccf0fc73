//! Fixed-point arithmetic on micro-units.
//!
//! A fixed-point value is an `i64` holding `SCALE` times the real
//! quantity it stands for, so `1_500_000` stands for 1.5.
//! Multiplication and division of two fixed-point values rescale
//! their result accordingly, truncating toward zero.

use vstd::prelude::*;

verus! {

/// Number of micro-units in 1.0.
pub const SCALE: i64 = 1_000_000;

/// Largest magnitude a fixed-point result may take.
pub const FP_LIMIT: i64 = 0x7fff_ffff_ffff_ffff;

pub open spec fn abs(a: int) -> int {
    if a >= 0 {
        a
    } else {
        -a
    }
}

/// Truncating (toward zero) division of `a` by a positive divisor `d`.
pub open spec fn tdiv(a: int, d: int) -> int {
    if a >= 0 {
        a / d
    } else {
        -((-a) / d)
    }
}

/// Fixed-point product: `a * b` rescaled by `SCALE`, truncated toward zero.
pub open spec fn fp_mul(a: int, b: int) -> int {
    tdiv(a * b, SCALE as int)
}

/// Fixed-point quotient: `a / b` rescaled by `SCALE`, truncated toward zero.
pub open spec fn fp_div(a: int, b: int) -> int {
    if b >= 0 {
        tdiv(a * SCALE, b)
    } else {
        -tdiv(a * SCALE, -b)
    }
}

pub proof fn lemma_tdiv_bound(a: int, d: int)
    requires
        d > 0,
    ensures
        abs(tdiv(a, d)) <= abs(a),
        abs(tdiv(a, d)) == abs(a) / d,
{
    if a >= 0 {
        assert(a / d <= a) by (nonlinear_arith)
            requires
                d > 0,
                a >= 0,
        ;
        assert(a / d >= 0) by (nonlinear_arith)
            requires
                d > 0,
                a >= 0,
        ;
    } else {
        assert((-a) / d <= -a) by (nonlinear_arith)
            requires
                d > 0,
                a < 0,
        ;
        assert((-a) / d >= 0) by (nonlinear_arith)
            requires
                d > 0,
                a < 0,
        ;
    }
}

/// A fixed-point product of factors in `[0, hi]` and `[0, SCALE]`
/// stays in `[0, hi]`.
pub proof fn lemma_fp_mul_unit_bound(a: int, b: int, hi: int)
    requires
        0 <= a <= hi,
        0 <= b <= SCALE,
    ensures
        0 <= fp_mul(a, b) <= a,
{
    assert(0 <= a * b <= a * SCALE) by (nonlinear_arith)
        requires
            0 <= a,
            0 <= b <= SCALE,
    ;
    lemma_tdiv_bound(a * b, SCALE as int);
    assert((a * b) / (SCALE as int) <= (a * (SCALE as int)) / (SCALE as int)) by {
        vstd::arithmetic::div_mod::lemma_div_is_ordered(a * b, a * (SCALE as int), SCALE as int);
    }
    assert((a * (SCALE as int)) / (SCALE as int) == a) by {
        vstd::arithmetic::div_mod::lemma_div_multiples_vanish(a, SCALE as int);
        assert(a * (SCALE as int) == (SCALE as int) * a) by (nonlinear_arith);
    }
}

/// A nonnegative fixed-point product of bounded factors is bounded by
/// the rescaled product of the bounds.
pub proof fn lemma_fp_mul_bounds(a: int, b: int, ha: int, hb: int)
    requires
        0 <= a <= ha,
        0 <= b <= hb,
    ensures
        0 <= fp_mul(a, b),
        fp_mul(a, b) <= tdiv(ha * hb, SCALE as int),
{
    assert(0 <= a * b <= ha * hb) by (nonlinear_arith)
        requires
            0 <= a <= ha,
            0 <= b <= hb,
    ;
    vstd::arithmetic::div_mod::lemma_div_is_ordered(a * b, ha * hb, SCALE as int);
    assert((a * b) / (SCALE as int) >= 0) by (nonlinear_arith)
        requires
            a * b >= 0,
            SCALE == 1_000_000,
    ;
}

/// Scaling any value by a factor in `[0, 1]` never grows its
/// magnitude.
pub proof fn lemma_fp_mul_signed_unit(t: int, x: int)
    requires
        0 <= t <= SCALE,
    ensures
        abs(fp_mul(t, x)) <= abs(x),
{
    lemma_tdiv_bound(t * x, SCALE as int);
    assert(abs(t * x) == t * abs(x)) by (nonlinear_arith)
        requires
            t >= 0,
    ;
    assert(t * abs(x) <= (SCALE as int) * abs(x)) by (nonlinear_arith)
        requires
            t <= SCALE,
            abs(x) >= 0,
    ;
    vstd::arithmetic::div_mod::lemma_div_is_ordered(
        t * abs(x),
        (SCALE as int) * abs(x),
        SCALE as int,
    );
    vstd::arithmetic::div_mod::lemma_div_multiples_vanish(abs(x), SCALE as int);
}

/// A fixed-point product of factors of bounded magnitude has the
/// rescaled product of the bounds as its magnitude bound.
pub proof fn lemma_fp_mul_abs_bound(a: int, b: int, ha: int, hb: int)
    requires
        abs(a) <= ha,
        abs(b) <= hb,
    ensures
        abs(fp_mul(a, b)) <= tdiv(ha * hb, SCALE as int),
{
    lemma_tdiv_bound(a * b, SCALE as int);
    assert(abs(a * b) == abs(a) * abs(b)) by (nonlinear_arith);
    assert(abs(a) * abs(b) <= ha * hb) by (nonlinear_arith)
        requires
            0 <= abs(a) <= ha,
            0 <= abs(b) <= hb,
    ;
    vstd::arithmetic::div_mod::lemma_div_is_ordered(abs(a) * abs(b), ha * hb, SCALE as int);
    assert(ha * hb >= 0) by (nonlinear_arith)
        requires
            ha >= 0,
            hb >= 0,
    ;
}

/// Truncating (toward zero) division by a positive divisor.
pub fn div_trunc(a: i64, d: i64) -> (r: i64)
    requires
        d > 0,
    ensures
        r == tdiv(a as int, d as int),
{
    let ua: u64 = if a < 0 {
        (-(a as i128)) as u64
    } else {
        a as u64
    };
    let m: u64 = ua / (d as u64);
    proof {
        lemma_tdiv_bound(a as int, d as int);
    }
    let r: i128 = if a < 0 {
        -(m as i128)
    } else {
        m as i128
    };
    r as i64
}

/// `r` is the integer square root of `n`, rounded down.
pub open spec fn is_sqrt_floor(n: int, r: int) -> bool {
    0 <= r && r * r <= n && n < (r + 1) * (r + 1)
}

/// The integer square root of `n`, rounded down.
pub open spec fn sqrt_floor(n: int) -> int {
    choose|r: int| is_sqrt_floor(n, r)
}

/// Every nonnegative integer has a square-root floor, so the chosen
/// one satisfies its defining property.
pub proof fn lemma_sqrt_floor_exists(n: int)
    requires
        0 <= n,
    ensures
        is_sqrt_floor(n, sqrt_floor(n)),
    decreases n,
{
    if n == 0 {
        assert(is_sqrt_floor(0, 0));
    } else {
        lemma_sqrt_floor_exists(n - 1);
        let p = sqrt_floor(n - 1);
        if (p + 1) * (p + 1) <= n {
            assert(is_sqrt_floor(n, p + 1)) by (nonlinear_arith)
                requires
                    is_sqrt_floor(n - 1, p),
                    (p + 1) * (p + 1) <= n,
            ;
        } else {
            assert(is_sqrt_floor(n, p));
        }
    }
    assert(exists|r: int| is_sqrt_floor(n, r));
}

pub proof fn lemma_sqrt_floor_unique(n: int, r: int)
    requires
        is_sqrt_floor(n, r),
    ensures
        sqrt_floor(n) == r,
{
    assert(exists|q: int| is_sqrt_floor(n, q)) by {
        assert(is_sqrt_floor(n, r));
    }
    let r2 = sqrt_floor(n);
    assert(is_sqrt_floor(n, r2));
    assert(r2 == r) by (nonlinear_arith)
        requires
            is_sqrt_floor(n, r),
            is_sqrt_floor(n, r2),
    ;
}

/// Integer square root, rounded down.
pub fn isqrt(x: u128) -> (r: u128)
    requires
        x < (1u128 << 126),
    ensures
        r == sqrt_floor(x as int),
        is_sqrt_floor(x as int, r as int),
{
    let mut lo: u128 = 0;
    let mut hi: u128 = if x < 0x8000_0000_0000_0000u128 {
        x
    } else {
        0x8000_0000_0000_0000u128
    };
    proof {
        assert((1u128 << 126) == 0x4000_0000_0000_0000_0000_0000_0000_0000u128) by (bit_vector);
        if x < 0x8000_0000_0000_0000u128 {
            assert(x < ((x + 1) * (x + 1))) by (nonlinear_arith);
        } else {
            assert((x as int) < (0x8000_0000_0000_0000 + 1) * (0x8000_0000_0000_0000 + 1))
                by (nonlinear_arith)
                requires
                    x < 0x4000_0000_0000_0000_0000_0000_0000_0000u128,
            ;
        }
    }
    while lo < hi
        invariant
            lo <= hi,
            hi <= 0x8000_0000_0000_0000u128,
            lo * lo <= x,
            x < (hi + 1) * (hi + 1),
        decreases hi - lo,
    {
        let mid = lo + (hi - lo + 1) / 2;
        proof {
            assert(mid * mid <= 0x8000_0000_0000_0000u128 * 0x8000_0000_0000_0000u128)
                by (nonlinear_arith)
                requires
                    mid <= 0x8000_0000_0000_0000u128,
            ;
        }
        if mid * mid <= x {
            lo = mid;
        } else {
            hi = mid - 1;
        }
    }
    proof {
        lemma_sqrt_floor_unique(x as int, lo as int);
    }
    lo
}

/// Fixed-point square root of a nonnegative fixed-point value.
pub open spec fn fp_sqrt(x: int) -> int {
    sqrt_floor(x * SCALE)
}

pub fn sqrt_fp(x: i64) -> (r: i64)
    requires
        x >= 0,
    ensures
        r == fp_sqrt(x as int),
        r >= 0,
        is_sqrt_floor(x as int * SCALE, r as int),
{
    proof {
        assert((1u128 << 126) == 0x4000_0000_0000_0000_0000_0000_0000_0000u128) by (bit_vector);
        assert((x as u128) * (SCALE as u128) < (1u128 << 126)) by (nonlinear_arith)
            requires
                x as u128 <= 0x8000_0000_0000_0000u128,
                SCALE == 1_000_000,
                (1u128 << 126) == 0x4000_0000_0000_0000_0000_0000_0000_0000u128,
        ;
    }
    let v: u128 = (x as u128) * (SCALE as u128);
    let r = isqrt(v);
    proof {
        assert((v as int) <= 0x8000_0000_0000_0000 * 1_000_000) by (nonlinear_arith)
            requires
                v == (x as u128) * (SCALE as u128),
                x as u128 <= 0x8000_0000_0000_0000u128,
                SCALE == 1_000_000,
        ;
        assert((r as int) <= 3_100_000_000_000) by (nonlinear_arith)
            requires
                (r as int) * (r as int) <= v as int,
                (v as int) <= 0x8000_0000_0000_0000 * 1_000_000,
        ;
    }
    r as i64
}

/// Fixed-point multiplication.
pub fn mul_fp(a: i64, b: i64) -> (r: i64)
    requires
        abs(fp_mul(a as int, b as int)) <= FP_LIMIT,
    ensures
        r == fp_mul(a as int, b as int),
{
    let ua: u128 = if a < 0 {
        (-(a as i128)) as u128
    } else {
        a as u128
    };
    let ub: u128 = if b < 0 {
        (-(b as i128)) as u128
    } else {
        b as u128
    };
    assert(ua == abs(a as int) && ub == abs(b as int));
    proof {
        assert(ua * ub <= 0x8000_0000_0000_0000u128 * 0x8000_0000_0000_0000u128)
            by (nonlinear_arith)
            requires
                ua <= 0x8000_0000_0000_0000u128,
                ub <= 0x8000_0000_0000_0000u128,
        ;
    }
    let m: u128 = (ua * ub) / (SCALE as u128);
    proof {
        assert((ua as int) * (ub as int) == abs((a as int) * (b as int))) by (nonlinear_arith)
            requires
                ua as int == abs(a as int),
                ub as int == abs(b as int),
        ;
        assert(m == abs((a as int) * (b as int)) / (SCALE as int));
        lemma_tdiv_bound((a as int) * (b as int), SCALE as int);
        assert(m == abs(fp_mul(a as int, b as int)));
    }
    if (a < 0) != (b < 0) {
        let r: i64 = -(m as i64);
        proof {
            if (a as int) * (b as int) >= 0 {
                assert((a as int) * (b as int) == 0) by (nonlinear_arith)
                    requires
                        (a < 0) != (b < 0),
                        (a as int) * (b as int) >= 0,
                ;
            }
        }
        r
    } else {
        proof {
            assert((a as int) * (b as int) >= 0) by (nonlinear_arith)
                requires
                    (a < 0) == (b < 0),
            ;
        }
        m as i64
    }
}

/// Fixed-point division. The divisor must be nonzero.
pub fn div_fp(a: i64, b: i64) -> (r: i64)
    requires
        b != 0,
        abs(fp_div(a as int, b as int)) <= FP_LIMIT,
    ensures
        r == fp_div(a as int, b as int),
{
    let ua: u128 = if a < 0 {
        (-(a as i128)) as u128
    } else {
        a as u128
    };
    let ub: u128 = if b < 0 {
        (-(b as i128)) as u128
    } else {
        b as u128
    };
    assert(ua == abs(a as int) && ub == abs(b as int));
    proof {
        assert(ua * (SCALE as u128) <= 0x8000_0000_0000_0000u128 * 1_000_000u128)
            by (nonlinear_arith)
            requires
                ua <= 0x8000_0000_0000_0000u128,
        ;
    }
    let m: u128 = (ua * (SCALE as u128)) / ub;
    proof {
        let ai = a as int;
        let s = SCALE as int;
        assert((ua as int) * s == abs(ai * s)) by (nonlinear_arith)
            requires
                ua as int == abs(ai),
                s > 0,
        ;
        assert((ai * s >= 0) <==> ai >= 0) by (nonlinear_arith)
            requires
                s > 0,
        ;
        assert(m as int == abs(ai * s) / (ub as int));
        assert(tdiv(ai * s, abs(b as int)) == (if ai >= 0 {
            m as int
        } else {
            -(m as int)
        }));
        assert(abs(fp_div(a as int, b as int)) == m);
    }
    if (a < 0) != (b < 0) {
        -(m as i64)
    } else {
        m as i64
    }
}

} // verus!
