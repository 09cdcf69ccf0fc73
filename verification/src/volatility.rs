//! Realized volatility of a price history: the per-step simple
//! returns, their mean, the sum of squared deviations, and the square
//! root of that sum scaled by the sample correction `sqrt(n/(n-1))`.
//! The correction multiplies the rooted sum, as the estimator is
//! defined here, rather than dividing inside the root.
//!
//! Degenerate histories: fewer than two observations estimate to
//! exactly zero; a zero base price, or a single return (whose sample
//! correction divides by zero), is reported as a division by zero
//! instead of yielding a meaningless value.

use vstd::prelude::*;
use crate::MarketError;
use crate::fixed::{
    SCALE,
    FP_LIMIT,
    abs,
    tdiv,
    fp_div,
    fp_mul,
    fp_sqrt,
    sqrt_floor,
    div_fp,
    mul_fp,
    div_trunc,
    sqrt_fp,
    isqrt,
    lemma_tdiv_bound,
    lemma_sqrt_floor_unique,
};
use crate::stock::history_view;
use vstd::arithmetic::div_mod::{
    lemma_div_is_ordered,
    lemma_div_is_ordered_by_denominator,
    lemma_div_multiples_vanish,
};

verus! {

/// Largest price magnitude the estimator accepts: one million units.
pub const PRICE_LIMIT: i64 = 1_000_000_000_000;

/// Smallest nonzero price magnitude the estimator accepts: a
/// thousandth of a unit. Anything smaller would blow a return past
/// the fixed-point range.
pub const PRICE_FLOOR: i64 = 1_000;

/// Most observations the estimator accepts.
pub const MAX_OBSERVATIONS: usize = 1_000_000;

/// Bound on the magnitude of any single per-step return.
pub const RETURN_LIMIT: i64 = 2_000_000_000_000_000;

/// The per-step simple returns of a history: each step's price change
/// divided by the price it started from.
pub open spec fn spec_returns(h: Seq<int>) -> Seq<int> {
    if h.len() == 0 {
        Seq::<int>::empty()
    } else {
        Seq::new((h.len() - 1) as nat, |i: int| fp_div(h[i + 1] - h[i], h[i]))
    }
}

pub open spec fn seq_sum(s: Seq<int>) -> int
    decreases s.len(),
{
    if s.len() == 0 {
        0
    } else {
        seq_sum(s.drop_last()) + s.last()
    }
}

/// The mean of a nonempty sequence, truncated toward zero.
pub open spec fn spec_mean(s: Seq<int>) -> int {
    tdiv(seq_sum(s), s.len() as int)
}

/// Squared deviations from `m`.
pub open spec fn spec_devsq(s: Seq<int>, m: int) -> Seq<int> {
    s.map_values(|r: int| (r - m) * (r - m))
}

/// The realized-volatility estimate of a history: zero for fewer
/// than two observations, else the square root of the sum of squared
/// deviations of the returns from their mean, times `sqrt(n/(n-1))`
/// where `n` counts the returns.
pub open spec fn spec_volatility(h: Seq<int>) -> int {
    if h.len() < 2 {
        0
    } else {
        let rets = spec_returns(h);
        let m = spec_mean(rets);
        let ssd = seq_sum(spec_devsq(rets, m));
        let n = rets.len() as int;
        fp_mul(sqrt_floor(ssd), fp_sqrt(tdiv(n * SCALE, n - 1)))
    }
}

/// Whether some price that serves as the base of a return is zero.
pub open spec fn has_zero_base(h: Seq<int>) -> bool {
    exists|i: int| 0 <= i < h.len() - 1 && h[i] == 0
}

proof fn lemma_return_bound(prev: int, cur: int)
    requires
        abs(prev) <= PRICE_LIMIT,
        abs(cur) <= PRICE_LIMIT,
        abs(prev) >= PRICE_FLOOR,
    ensures
        abs(fp_div(cur - prev, prev)) <= RETURN_LIMIT,
{
    let d = cur - prev;
    let num = d * (SCALE as int);
    assert(abs(num) == abs(d) * SCALE) by (nonlinear_arith)
        requires
            num == d * (SCALE as int),
            SCALE == 1_000_000,
    ;
    assert(abs(d) * SCALE <= 2_000_000_000_000 * 1_000_000) by (nonlinear_arith)
        requires
            abs(d) <= 2_000_000_000_000,
            SCALE == 1_000_000,
    ;
    lemma_tdiv_bound(num, abs(prev));
    lemma_div_is_ordered_by_denominator(abs(num), 1_000, abs(prev));
    lemma_div_is_ordered(abs(num), 2_000_000_000_000_000_000, 1_000);
    assert(abs(tdiv(num, abs(prev))) <= RETURN_LIMIT);
    if prev >= 0 {
        assert(fp_div(d, prev) == tdiv(num, prev));
    } else {
        assert(fp_div(d, prev) == -tdiv(num, -prev));
    }
}

/// The estimator itself.
///
/// The bounds in the preconditions are the fixed-point range limits
/// under which every intermediate value provably fits its machine
/// integer: at most a million observations, prices of at most a
/// million units in magnitude, and no price closer to zero than a
/// thousandth of a unit except zero itself (which is reported as a
/// division by zero). A history too short to estimate from needs no
/// bounds at all: its estimate is zero without reading an element.
pub fn calculate_volatility(price_history: &Vec<i64>) -> (r: Result<i64, MarketError>)
    requires
        price_history@.len() <= MAX_OBSERVATIONS,
        price_history@.len() >= 2 ==> forall|i: int|
            0 <= i < price_history@.len() ==> abs(#[trigger] price_history@[i] as int)
                <= PRICE_LIMIT,
        price_history@.len() >= 2 ==> forall|i: int|
            0 <= i < price_history@.len() ==> (price_history@[i] == 0 || abs(
                #[trigger] price_history@[i] as int,
            ) >= PRICE_FLOOR),
    ensures
        price_history@.len() < 2 ==> r == Result::<i64, MarketError>::Ok(0i64),
        r is Err <==> (price_history@.len() >= 2 && (has_zero_base(
            history_view(price_history@),
        ) || price_history@.len() == 2)),
        r is Err ==> r == Result::<i64, MarketError>::Err(MarketError::DivisionByZero),
        r is Ok ==> r == Result::<i64, MarketError>::Ok(
            spec_volatility(history_view(price_history@)) as i64,
        ),
        r is Ok ==> 0 <= spec_volatility(history_view(price_history@)) <= FP_LIMIT,
{
    let ghost hv = history_view(price_history@);
    let n = price_history.len();
    if n < 2 {
        return Ok(0);
    }
    // Reject any zero base price: its return would divide by zero.
    let mut i: usize = 0;
    while i < n - 1
        invariant
            n == price_history@.len(),
            2 <= n,
            i <= n - 1,
            hv == history_view(price_history@),
            forall|j: int| 0 <= j < i ==> hv[j] != 0,
        decreases n - i,
    {
        if price_history[i] == 0 {
            proof {
                assert(hv[i as int] == 0);
            }
            return Err(MarketError::DivisionByZero);
        }
        i = i + 1;
    }
    // A single return leaves the sample correction dividing by zero.
    if n == 2 {
        return Err(MarketError::DivisionByZero);
    }
    proof {
        assert(!has_zero_base(hv));
    }
    let nr = n - 1;  // number of returns, at least 2
    let ghost rv = spec_returns(hv);
    // Per-step returns.
    let mut rets: Vec<i64> = Vec::new();
    let mut i: usize = 0;
    proof {
        assert(rv.len() == nr);
    }
    while i < nr
        invariant
            n == price_history@.len(),
            3 <= n <= MAX_OBSERVATIONS,
            nr == n - 1,
            i <= nr,
            hv == history_view(price_history@),
            rv == spec_returns(hv),
            rv.len() == nr,
            forall|j: int| 0 <= j < n - 1 ==> hv[j] != 0,
            forall|j: int|
                0 <= j < price_history@.len() ==> abs(#[trigger] price_history@[j] as int)
                    <= PRICE_LIMIT,
            forall|j: int|
                0 <= j < price_history@.len() ==> (price_history@[j] == 0 || abs(
                    #[trigger] price_history@[j] as int,
                ) >= PRICE_FLOOR),
            rets@.len() == i,
            forall|j: int| 0 <= j < i ==> rets@[j] as int == rv[j],
            forall|j: int| 0 <= j < i ==> abs(#[trigger] rets@[j] as int) <= RETURN_LIMIT,
        decreases nr - i,
    {
        let prev = price_history[i];
        let cur = price_history[i + 1];
        proof {
            assert(hv[i as int] == prev as int && hv[i as int + 1] == cur as int);
            lemma_return_bound(prev as int, cur as int);
            lemma_tdiv_bound((cur - prev) * (SCALE as int), abs(prev as int));
        }
        let d = cur - prev;
        let ret = div_fp(d, prev);
        rets.push(ret);
        i = i + 1;
    }
    // Mean of the returns, truncated toward zero.
    let mut acc: i128 = 0;
    let mut i: usize = 0;
    while i < nr
        invariant
            nr == rets@.len(),
            nr <= MAX_OBSERVATIONS,
            i <= nr,
            rv == spec_returns(hv),
            rv.len() == nr,
            forall|j: int| 0 <= j < nr ==> rets@[j] as int == rv[j],
            forall|j: int| 0 <= j < nr ==> abs(#[trigger] rets@[j] as int) <= RETURN_LIMIT,
            acc == seq_sum(rv.take(i as int)),
            abs(acc as int) <= i * RETURN_LIMIT,
        decreases nr - i,
    {
        proof {
            assert(rv.take(i as int + 1).drop_last() =~= rv.take(i as int));
            assert((i + 1) * RETURN_LIMIT == i * RETURN_LIMIT + RETURN_LIMIT) by (nonlinear_arith);
            assert(i * RETURN_LIMIT <= MAX_OBSERVATIONS * RETURN_LIMIT) by (nonlinear_arith)
                requires
                    0 <= i <= MAX_OBSERVATIONS as int,
                    RETURN_LIMIT > 0,
                    i * RETURN_LIMIT >= 0 || true,
            ;
        }
        acc = acc + (rets[i] as i128);
        i = i + 1;
    }
    proof {
        assert(rv.take(nr as int) =~= rv);
        assert(nr * RETURN_LIMIT <= MAX_OBSERVATIONS * RETURN_LIMIT) by (nonlinear_arith)
            requires
                0 <= nr as int <= MAX_OBSERVATIONS as int,
                RETURN_LIMIT > 0,
        ;
    }
    let neg = acc < 0;
    let mag: u128 = if neg {
        (-acc) as u128
    } else {
        acc as u128
    };
    let md: u128 = mag / (nr as u128);
    proof {
        assert(mag == abs(acc as int));
        assert(md == abs(acc as int) / (nr as int));
        lemma_div_is_ordered(abs(acc as int), nr * RETURN_LIMIT, nr as int);
        lemma_div_multiples_vanish(RETURN_LIMIT as int, nr as int);
        assert((nr * RETURN_LIMIT) / (nr as int) == RETURN_LIMIT);
        assert(md <= RETURN_LIMIT);
    }
    let mean: i64 = if neg {
        -(md as i64)
    } else {
        md as i64
    };
    proof {
        assert(mean as int == tdiv(acc as int, nr as int));
        assert(mean as int == spec_mean(rv));
        assert(abs(mean as int) <= RETURN_LIMIT);
    }
    // Sum of squared deviations from the mean, in raw squared scale.
    let ghost dsq = spec_devsq(rv, mean as int);
    let mut acc2: u128 = 0;
    let mut i: usize = 0;
    while i < nr
        invariant
            nr == rets@.len(),
            2 <= nr <= MAX_OBSERVATIONS,
            i <= nr,
            rv == spec_returns(hv),
            rv.len() == nr,
            dsq == spec_devsq(rv, mean as int),
            abs(mean as int) <= RETURN_LIMIT,
            forall|j: int| 0 <= j < nr ==> rets@[j] as int == rv[j],
            forall|j: int| 0 <= j < nr ==> abs(#[trigger] rets@[j] as int) <= RETURN_LIMIT,
            acc2 == seq_sum(dsq.take(i as int)),
            acc2 <= i * 16_000_000_000_000_000_000_000_000_000_000,
        decreases nr - i,
    {
        let r = rets[i];
        let dev: i64 = r - mean;
        let dmag: u128 = if dev < 0 {
            (-(dev as i128)) as u128
        } else {
            dev as u128
        };
        proof {
            assert(dmag == abs(dev as int));
            assert(abs(dev as int) <= 4_000_000_000_000_000);
            assert(dmag * dmag == (dev as int) * (dev as int)) by (nonlinear_arith)
                requires
                    dmag as int == abs(dev as int),
            ;
            assert(dmag * dmag <= 16_000_000_000_000_000_000_000_000_000_000u128)
                by (nonlinear_arith)
                requires
                    dmag <= 4_000_000_000_000_000u128,
            ;
            assert(dsq[i as int] == (dev as int) * (dev as int));
            assert(dsq.take(i as int + 1).drop_last() =~= dsq.take(i as int));
            assert((i + 1) * 16_000_000_000_000_000_000_000_000_000_000
                == i * 16_000_000_000_000_000_000_000_000_000_000
                + 16_000_000_000_000_000_000_000_000_000_000) by (nonlinear_arith);
            assert((i + 1) * 16_000_000_000_000_000_000_000_000_000_000 <= 1_000_000
                * 16_000_000_000_000_000_000_000_000_000_000) by (nonlinear_arith)
                requires
                    0 <= i + 1 <= 1_000_000,
            ;
        }
        let sq: u128 = dmag * dmag;
        acc2 = acc2 + sq;
        i = i + 1;
    }
    proof {
        assert(dsq.take(nr as int) =~= dsq);
        assert(nr * 16_000_000_000_000_000_000_000_000_000_000 <= 1_000_000
            * 16_000_000_000_000_000_000_000_000_000_000) by (nonlinear_arith)
            requires
                0 <= nr as int <= 1_000_000,
        ;
        assert((1u128 << 126) == 0x4000_0000_0000_0000_0000_0000_0000_0000u128) by (bit_vector);
    }
    // Root of the squared-scale sum is already a fixed-point value.
    let v1 = isqrt(acc2);
    proof {
        assert((v1 as int) <= 4_047_000_000_000_000_000) by (nonlinear_arith)
            requires
                (v1 as int) * (v1 as int) <= acc2 as int,
                acc2 <= 16_000_000_000_000_000_000_000_000_000_000_000_000u128,
        ;
    }
    let v1i: i64 = v1 as i64;
    // Sample correction sqrt(n/(n-1)) as a fixed-point factor.
    let num: i64 = (nr as i64) * SCALE;
    let den: i64 = (nr as i64) - 1;
    let x = div_trunc(num, den);
    proof {
        lemma_tdiv_bound(num as int, den as int);
        assert(abs(num as int) / (den as int) <= (2 * (den as int) * SCALE) / (den as int)) by {
            assert(num as int <= 2 * (den as int) * SCALE) by (nonlinear_arith)
                requires
                    num == (nr as int) * SCALE,
                    den == (nr as int) - 1,
                    2 <= nr as int,
                    SCALE == 1_000_000,
            ;
            lemma_div_is_ordered(num as int, 2 * (den as int) * SCALE, den as int);
        }
        lemma_div_multiples_vanish(2 * (SCALE as int), den as int);
        assert((den as int) * (2 * (SCALE as int)) == 2 * (den as int) * SCALE)
            by (nonlinear_arith);
        assert(x <= 2 * SCALE);
    }
    let corr = sqrt_fp(x);
    proof {
        assert(corr as int == sqrt_floor((x as int) * SCALE));
        assert((corr as int) * (corr as int) <= (x as int) * SCALE);
        assert((x as int) * SCALE <= 2_000_000_000_000) by (nonlinear_arith)
            requires
                x <= 2 * SCALE,
                x >= 0 || true,
                SCALE == 1_000_000,
        ;
        assert(corr as int <= 1_500_000) by (nonlinear_arith)
            requires
                (corr as int) * (corr as int) <= 2_000_000_000_000,
                corr as int >= 0,
        ;
        assert((v1i as int) * (corr as int) <= 6_100_000_000_000_000_000_000_000)
            by (nonlinear_arith)
            requires
                0 <= v1i as int <= 4_047_000_000_000_000_000,
                0 <= corr as int <= 1_500_000,
        ;
        lemma_tdiv_bound((v1i as int) * (corr as int), SCALE as int);
        lemma_div_is_ordered(
            (v1i as int) * (corr as int),
            6_100_000_000_000_000_000_000_000,
            SCALE as int,
        );
        assert(abs(fp_mul(v1i as int, corr as int)) <= FP_LIMIT);
    }
    let vol = mul_fp(v1i, corr);
    proof {
        assert(v1i as int == sqrt_floor(seq_sum(dsq)));
        assert(vol as int == spec_volatility(hv));
        assert((v1i as int) * (corr as int) >= 0) by (nonlinear_arith)
            requires
                v1i >= 0,
                corr >= 0,
        ;
        assert(vol >= 0);
    }
    Ok(vol)
}

/// With fewer than two observations the estimate is exactly zero.
pub proof fn lemma_short_history_zero_volatility(h: Seq<int>)
    requires
        h.len() < 2,
    ensures
        spec_volatility(h) == 0,
{
}

proof fn lemma_seq_sum_zero(s: Seq<int>)
    requires
        forall|i: int| 0 <= i < s.len() ==> s[i] == 0,
    ensures
        seq_sum(s) == 0,
    decreases s.len(),
{
    if s.len() > 0 {
        lemma_seq_sum_zero(s.drop_last());
    }
}

/// A constant history of some nonzero price estimates to exactly
/// zero volatility: every return is zero, so every deviation is zero.
pub proof fn lemma_constant_history_zero_volatility(h: Seq<int>, c: int)
    requires
        c != 0,
        forall|i: int| 0 <= i < h.len() ==> h[i] == c,
    ensures
        spec_volatility(h) == 0,
{
    if h.len() < 2 {
    } else {
        let rets = spec_returns(h);
        assert forall|i: int| 0 <= i < rets.len() implies rets[i] == 0 by {
            assert(rets[i] == fp_div(h[i + 1] - h[i], h[i]));
            assert(h[i + 1] - h[i] == 0);
            assert(tdiv(0, abs(c)) == 0) by {
                assert(0int / abs(c) == 0) by (nonlinear_arith)
                    requires
                        abs(c) > 0,
                ;
            }
        }
        lemma_seq_sum_zero(rets);
        let m = spec_mean(rets);
        assert(m == tdiv(0, rets.len() as int));
        assert(0int / (rets.len() as int) == 0) by (nonlinear_arith)
            requires
                rets.len() > 0,
        ;
        assert(m == 0);
        let dsq = spec_devsq(rets, m);
        assert(dsq.len() == rets.len());
        assert forall|i: int| 0 <= i < dsq.len() implies dsq[i] == 0 by {
            assert(rets[i] == 0);
            assert(dsq[i] == (rets[i] - m) * (rets[i] - m));
            assert((0int - 0int) * (0int - 0int) == 0);
        }
        lemma_seq_sum_zero(dsq);
        lemma_sqrt_floor_unique(0, 0);
        let n = rets.len() as int;
        assert(fp_mul(0, fp_sqrt(tdiv(n * SCALE, n - 1))) == 0) by {
            assert(tdiv(0 * fp_sqrt(tdiv(n * SCALE, n - 1)), SCALE as int) == 0) by
                (nonlinear_arith)
                requires
                    SCALE == 1_000_000,
            ;
        }
    }
}

} // verus!
