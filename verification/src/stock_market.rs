//! Market pressure on a stock: the random daily move, and the price
//! impact of buying or selling a block of shares. Every movement
//! reprices the stock by setting a new market capitalization, so the
//! per-share price is always the capitalization over the share count.

use vstd::prelude::*;
use crate::stock::{Stocks, StocksV, spec_share_price};
use crate::fixed::{
    SCALE,
    abs,
    tdiv,
    fp_mul,
    mul_fp,
    div_trunc,
    lemma_tdiv_bound,
    lemma_fp_mul_abs_bound,
};
use vstd::arithmetic::div_mod::{
    lemma_div_is_ordered,
    lemma_div_multiples_vanish,
    lemma_mul_hoist_inequality,
};

verus! {

/// One daily move: the price scaled by `1 + pct/100` (with `pct` a
/// fixed-point percentage), and the capitalization rebuilt from the
/// scaled price.
pub open spec fn spec_market_step(s: StocksV, pct: int) -> StocksV {
    let factor = SCALE + tdiv(pct, 100);
    let new_price = fp_mul(s.price, factor);
    let new_cap = new_price * s.total_stocks;
    StocksV { market_cap: new_cap, price: spec_share_price(new_cap, s.total_stocks), ..s }
}

/// A trading day: a percentage move is drawn (usually within -1% to
/// +1.2%, occasionally within -5% to +5.5%) and applied to the stock.
pub fn market_open(stock: &mut Stocks)
    requires
        old(stock).total_stocks >= 1,
        abs(old(stock)@.price) <= 1_000_000_000_000,
        abs(old(stock)@.price * old(stock)@.total_stocks) <= 700_000_000_000_000_000,
    ensures
        exists|pct: int|
            -5_000_000 <= pct <= 5_500_000 && final(stock)@ == spec_market_step(old(stock)@, pct),
{
    let rare = crate::rng::random_u32_between(0, 9) == 0;
    let pct: i64 = if rare {
        crate::rng::random_i64_between(-5_000_000, 5_500_000)
    } else {
        crate::rng::random_i64_between(-1_000_000, 1_200_000)
    };
    proof {
        lemma_tdiv_bound(pct as int, 100);
        lemma_div_is_ordered(abs(pct as int), 5_500_000, 100);
    }
    let factor = SCALE + div_trunc(pct, 100);
    proof {
        lemma_fp_mul_abs_bound(
            old(stock)@.price,
            factor as int,
            1_000_000_000_000,
            1_055_000,
        );
    }
    let price = mul_fp(stock.price, factor);
    proof {
        lemma_price_cap_product_bound(
            old(stock)@.price,
            factor as int,
            old(stock)@.total_stocks,
        );
    }
    let cap = price * (stock.total_stocks as i64);
    stock.update_market_cap(cap);
    proof {
        assert(final(stock)@ == spec_market_step(old(stock)@, pct as int));
    }
}

/// With the price and share count bounded as `market_open` requires,
/// the rescaled price times the share count stays within the
/// fixed-point range.
proof fn lemma_price_cap_product_bound(price: int, factor: int, total: int)
    requires
        abs(price) <= 1_000_000_000_000,
        abs(price * total) <= 700_000_000_000_000_000,
        0 <= factor <= 1_055_000,
        total >= 1,
    ensures
        abs(fp_mul(price, factor) * total) <= 800_000_000_000_000_000,
{
    lemma_tdiv_bound(price * factor, SCALE as int);
    let m = abs(fp_mul(price, factor));
    assert(m == abs(price * factor) / (SCALE as int));
    assert(abs(price * factor) == abs(price) * factor) by (nonlinear_arith)
        requires
            factor >= 0,
    ;
    assert(abs(fp_mul(price, factor) * total) == m * total) by (nonlinear_arith)
        requires
            total >= 0,
            m == abs(fp_mul(price, factor)),
    ;
    assert(abs(price) * total == abs(price * total)) by (nonlinear_arith)
        requires
            total >= 0,
    ;
    assert(abs(price) * total >= 0) by (nonlinear_arith)
        requires
            abs(price) >= 0,
            total >= 0,
    ;
    lemma_mul_hoist_inequality(total, abs(price) * factor, SCALE as int);
    assert(total * m <= (total * (abs(price) * factor)) / (SCALE as int));
    assert(total * (abs(price) * factor) == (abs(price) * total) * factor) by (nonlinear_arith);
    assert((abs(price) * total) * factor <= 700_000_000_000_000_000int * 1_055_000int)
        by (nonlinear_arith)
        requires
            0 <= abs(price) * total <= 700_000_000_000_000_000,
            0 <= factor <= 1_055_000,
    ;
    lemma_div_is_ordered(
        (abs(price) * total) * factor,
        700_000_000_000_000_000int * 1_055_000int,
        SCALE as int,
    );
    assert((abs(price) * total) * factor >= 0) by (nonlinear_arith)
        requires
            abs(price) * total >= 0,
            factor >= 0,
    ;
    assert(m * total == total * m) by (nonlinear_arith);
}

/// The stock after a block sale. The price drop the sale causes is
/// the traded fraction of the float times the current price, so the
/// new capitalization is exactly `price * (total - shares)`; the
/// per-share price is then derived from it with a single truncation,
/// so that selling at least one share of a positively priced stock
/// always strictly lowers the price.
pub open spec fn spec_block_sale(s: StocksV, shares: int) -> StocksV {
    let new_cap = s.price * (s.total_stocks - shares);
    StocksV { market_cap: new_cap, price: spec_share_price(new_cap, s.total_stocks), ..s }
}

/// The stock after a block purchase: the capitalization grows to
/// exactly `price * (total + shares)` and the per-share price is
/// derived from it.
pub open spec fn spec_block_purchase(s: StocksV, shares: int) -> StocksV {
    let new_cap = s.price * (s.total_stocks + shares);
    StocksV { market_cap: new_cap, price: spec_share_price(new_cap, s.total_stocks), ..s }
}

/// Selling a block of shares pushes the price down by the traded
/// fraction of the float times the current price. A sale of at least
/// one share of a positively priced stock strictly lowers the price.
pub fn sell(stock: &mut Stocks, shares_sold: u32)
    requires
        old(stock).total_stocks >= 1,
        shares_sold <= old(stock).total_stocks,
        abs(old(stock)@.price * old(stock)@.total_stocks) <= 400_000_000_000_000_000,
    ensures
        final(stock)@ == spec_block_sale(old(stock)@, shares_sold as int),
        old(stock)@.price >= 1 && shares_sold >= 1 ==> final(stock)@.price < old(stock)@.price,
{
    proof {
        lemma_shrunk_cap_in_range(
            old(stock)@.price,
            old(stock)@.total_stocks,
            shares_sold as int,
        );
        if old(stock)@.price >= 1 && shares_sold >= 1 {
            lemma_sale_strictly_lowers_price(
                old(stock)@.price,
                old(stock)@.total_stocks,
                shares_sold as int,
            );
        }
    }
    let cap = stock.price * ((stock.total_stocks - shares_sold) as i64);
    stock.update_market_cap(cap);
}

/// Buying a block of shares pushes the price up by the traded
/// fraction of the float times the current price. The capitalization
/// records every purchase exactly; the derived per-share price never
/// falls, and strictly rises as soon as the purchase is worth at
/// least one micro-unit per outstanding share (below that resolution
/// a truncated integer price cannot move).
pub fn buy(stock: &mut Stocks, shares_bought: u32)
    requires
        old(stock).total_stocks >= 1,
        shares_bought <= old(stock).total_stocks,
        abs(old(stock)@.price * old(stock)@.total_stocks) <= 400_000_000_000_000_000,
    ensures
        final(stock)@ == spec_block_purchase(old(stock)@, shares_bought as int),
        old(stock)@.price >= 0 ==> final(stock)@.price >= old(stock)@.price,
        old(stock)@.price * shares_bought as int >= old(stock)@.total_stocks
            ==> final(stock)@.price > old(stock)@.price,
        old(stock)@.price >= 1 && shares_bought >= 1 ==> final(stock)@.market_cap > old(
            stock,
        )@.price * old(stock)@.total_stocks,
{
    proof {
        lemma_grown_cap_in_range(
            old(stock)@.price,
            old(stock)@.total_stocks,
            shares_bought as int,
        );
        lemma_purchase_never_lowers_price(
            old(stock)@.price,
            old(stock)@.total_stocks,
            shares_bought as int,
        );
        let ghost p0 = old(stock)@.price;
        let ghost t0 = old(stock)@.total_stocks;
        if p0 >= 1 && shares_bought >= 1 {
            assert(p0 * (t0 + shares_bought as int) > p0 * t0) by (nonlinear_arith)
                requires
                    p0 >= 1,
                    shares_bought as int >= 1,
            ;
        }
    }
    let cap = stock.price * (stock.total_stocks as i64 + shares_bought as i64);
    stock.update_market_cap(cap);
}

proof fn lemma_shrunk_cap_in_range(p: int, t: int, s: int)
    requires
        1 <= t,
        0 <= s <= t,
        abs(p * t) <= 400_000_000_000_000_000,
    ensures
        abs(p * (t - s)) <= 400_000_000_000_000_000,
{
    assert(abs(p * (t - s)) == abs(p) * (t - s)) by (nonlinear_arith)
        requires
            t - s >= 0,
    ;
    assert(abs(p * t) == abs(p) * t) by (nonlinear_arith)
        requires
            t >= 0,
    ;
    assert(abs(p) * (t - s) <= abs(p) * t) by (nonlinear_arith)
        requires
            abs(p) >= 0,
            0 <= t - s <= t,
    ;
}

proof fn lemma_grown_cap_in_range(p: int, t: int, s: int)
    requires
        1 <= t,
        0 <= s <= t,
        abs(p * t) <= 400_000_000_000_000_000,
    ensures
        abs(p * (t + s)) <= 800_000_000_000_000_000,
{
    assert(abs(p * (t + s)) == abs(p) * (t + s)) by (nonlinear_arith)
        requires
            t + s >= 0,
    ;
    assert(abs(p * t) == abs(p) * t) by (nonlinear_arith)
        requires
            t >= 0,
    ;
    assert(abs(p) * (t + s) <= 2 * (abs(p) * t)) by (nonlinear_arith)
        requires
            abs(p) >= 0,
            0 <= s <= t,
    ;
}

/// A sale of `s >= 1` shares at a positive price truncates to a
/// price of at most `p - 1`: the shrunk capitalization is at most
/// `t*(p-1) + (t-1)`.
proof fn lemma_sale_strictly_lowers_price(p: int, t: int, s: int)
    requires
        1 <= t,
        1 <= s <= t,
        1 <= p,
    ensures
        spec_share_price(p * (t - s), t) < p,
{
    assert(0 <= p * (t - s) <= p * t - p) by (nonlinear_arith)
        requires
            1 <= s <= t,
            1 <= p,
    ;
    assert(p * t - p <= t * (p - 1) + (t - 1)) by (nonlinear_arith)
        requires
            1 <= t,
            1 <= p,
    ;
    lemma_div_is_ordered(p * (t - s), t * (p - 1) + (t - 1), t);
    vstd::arithmetic::div_mod::lemma_div_multiples_vanish_fancy(p - 1, t - 1, t);
}

/// A purchase never lowers the truncated price, and raises it
/// strictly as soon as `p*s >= t`: the grown capitalization is then
/// at least `t*(p+1)`.
proof fn lemma_purchase_never_lowers_price(p: int, t: int, s: int)
    requires
        1 <= t,
        0 <= s,
    ensures
        p >= 0 ==> spec_share_price(p * (t + s), t) >= p,
        p * s >= t ==> spec_share_price(p * (t + s), t) > p,
{
    if p >= 0 {
        assert(p * t <= p * (t + s)) by (nonlinear_arith)
            requires
                p >= 0,
                s >= 0,
        ;
        assert(p * (t + s) >= 0) by (nonlinear_arith)
            requires
                p >= 0,
                t + s >= 0,
        ;
        lemma_div_is_ordered(p * t, p * (t + s), t);
        lemma_div_multiples_vanish(p, t);
        assert(p * t == t * p) by (nonlinear_arith);
    }
    if p * s >= t {
        assert(p >= 1) by (nonlinear_arith)
            requires
                p * s >= t,
                t >= 1,
                s >= 0,
        ;
        assert(p * (t + s) >= t * (p + 1)) by (nonlinear_arith)
            requires
                p * s >= t,
        ;
        assert(t * (p + 1) >= 0) by (nonlinear_arith)
            requires
                t >= 1,
                p >= 0,
        ;
        lemma_div_is_ordered(t * (p + 1), p * (t + s), t);
        lemma_div_multiples_vanish(p + 1, t);
    }
}

} // verus!
