//! A European option on the synthetic stock: contract parameters,
//! the live pricing inputs, the current fair value, and the price
//! history. Pricing itself lives in `calculate_option_price`.

use vstd::prelude::*;
use crate::MarketError;
use crate::stock::{clone_history, history_view};
use crate::fixed::{
    SCALE,
    abs,
    tdiv,
    fp_mul,
    fp_div,
    fp_sqrt,
    mul_fp,
    div_fp,
    div_trunc,
    sqrt_fp,
    lemma_tdiv_bound,
    lemma_fp_mul_unit_bound,
    lemma_fp_mul_bounds,
    lemma_fp_mul_abs_bound,
};
use crate::math::{spec_exp_fp, spec_ln_fp, spec_norm_cdf, exp_fp, ln_fp, norm_cdf};
use crate::stock::Stocks;
use crate::volatility::spec_volatility;

verus! {

#[derive(Clone, Copy, PartialEq, Eq, Structural, Debug)]
pub enum OptionType {
    Call,
    Put,
}

/// Mathematical model of an option.
pub struct OptionsV {
    pub name: Seq<char>,
    pub option_type: OptionType,
    pub spot_price: int,
    pub strike_price: int,
    pub time_to_expiration: int,
    pub risk_free_rate: int,
    pub volatility: int,
    pub price: int,
    pub price_history: Seq<int>,
}

pub struct Options {
    pub name: String,
    pub option_type: OptionType,
    pub spot_price: i64,
    pub strike_price: i64,
    pub time_to_expiration: i64,
    pub risk_free_rate: i64,
    pub volatility: i64,
    pub price: i64,
    pub price_history: Vec<i64>,
}

impl View for Options {
    type V = OptionsV;

    open spec fn view(&self) -> OptionsV {
        OptionsV {
            name: self.name@,
            option_type: self.option_type,
            spot_price: self.spot_price as int,
            strike_price: self.strike_price as int,
            time_to_expiration: self.time_to_expiration as int,
            risk_free_rate: self.risk_free_rate as int,
            volatility: self.volatility as int,
            price: self.price as int,
            price_history: history_view(self.price_history@),
        }
    }
}

impl DeepView for Options {
    type V = OptionsV;

    open spec fn deep_view(&self) -> OptionsV {
        self.view()
    }
}

impl Clone for Options {
    fn clone(&self) -> (r: Options)
        ensures
            r@ == self@,
    {
        Options {
            name: self.name.clone(),
            option_type: self.option_type,
            spot_price: self.spot_price,
            strike_price: self.strike_price,
            time_to_expiration: self.time_to_expiration,
            risk_free_rate: self.risk_free_rate,
            volatility: self.volatility,
            price: self.price,
            price_history: clone_history(&self.price_history),
        }
    }
}

/// The discount factor `e^(-r*t)` in fixed point.
pub open spec fn spec_discount(t: int, r: int) -> int {
    spec_exp_fp(-fp_mul(r, t))
}

/// The first intermediate term of the pricing model:
/// `(ln(spot/strike) + (r + v^2/2)*t) / (v*sqrt(t))`.
pub open spec fn spec_d1(spot: int, strike: int, t: int, r: int, v: int) -> int {
    let q = fp_div(spot, strike);
    let num = spec_ln_fp(q) + fp_mul(r + tdiv(fp_mul(v, v), 2), t);
    let den = fp_mul(v, fp_sqrt(t));
    fp_div(num, den)
}

/// The second intermediate term: `d1 - v*sqrt(t)`.
pub open spec fn spec_d2(spot: int, strike: int, t: int, r: int, v: int) -> int {
    spec_d1(spot, strike, t, r, v) - fp_mul(v, fp_sqrt(t))
}

/// The fair value of a call:
/// `spot*cdf(d1) - strike*e^(-r*t)*cdf(d2)`.
pub open spec fn spec_call_price(spot: int, strike: int, t: int, r: int, v: int) -> int {
    fp_mul(spot, spec_norm_cdf(spec_d1(spot, strike, t, r, v))) - fp_mul(
        fp_mul(strike, spec_discount(t, r)),
        spec_norm_cdf(spec_d2(spot, strike, t, r, v)),
    )
}

/// The fair value of a put, defined through put-call parity rather
/// than an independent formula: `call - spot + strike*e^(-r*t)`.
pub open spec fn spec_put_price(spot: int, strike: int, t: int, r: int, v: int) -> int {
    spec_call_price(spot, strike, t, r, v) - spot + fp_mul(strike, spec_discount(t, r))
}

pub open spec fn spec_option_price(
    kind: OptionType,
    spot: int,
    strike: int,
    t: int,
    r: int,
    v: int,
) -> int {
    match kind {
        OptionType::Call => spec_call_price(spot, strike, t, r, v),
        OptionType::Put => spec_put_price(spot, strike, t, r, v),
    }
}

/// The inputs on which pricing refuses to produce a value: a
/// non-positive time, volatility, spot or strike, a moneyness ratio
/// below the fixed-point resolution, or a `v*sqrt(t)` term that
/// truncates to zero.
pub open spec fn pricing_rejected(spot: int, strike: int, t: int, r: int, v: int) -> bool {
    t <= 0 || v <= 0 || spot <= 0 || strike <= 0 || fp_div(spot, strike) == 0 || fp_mul(
        v,
        fp_sqrt(t),
    ) == 0
}

/// Whether the volatility estimator reports a division by zero for
/// this history.
pub open spec fn vol_fails(h: Seq<int>) -> bool {
    h.len() >= 2 && (crate::volatility::has_zero_base(h) || h.len() == 2)
}

/// A strike drawn uniformly between half and twice the current price.
pub fn generate_random_strike_price(current_price: i64) -> (r: i64)
    requires
        0 <= current_price <= 500_000_000_000,
    ensures
        tdiv(current_price as int, 2) <= r <= 2 * current_price,
{
    proof {
        lemma_tdiv_bound(current_price as int, 2);
    }
    let lo = div_trunc(current_price, 2);
    let hi = 2 * current_price;
    crate::rng::random_i64_between(lo, hi)
}

/// A time to expiration drawn uniformly between a quarter year and
/// two years.
pub fn generate_random_time_to_expiration() -> (r: i64)
    ensures
        250_000 <= r <= 2_000_000,
{
    crate::rng::random_i64_between(250_000, 2_000_000)
}

/// A random option on the given stock: a coin decides call or put,
/// the strike and expiration are drawn around the stock's price, and
/// the starting volatility and risk-free rate are fixed (the stock
/// has no history yet to estimate from).
pub fn generate_random_option(stock: &Stocks) -> (r: Result<Options, MarketError>)
    requires
        0 <= stock.price <= 500_000_000_000,
    ensures
        r is Err ==> r == Result::<Options, MarketError>::Err(MarketError::InvalidPricingInput),
        stock@.price >= 2 ==> r is Ok,
        r is Ok ==> (r matches Result::Ok(o) && {
            &&& o@.name == stock@.name
            &&& o@.spot_price == stock@.price
            &&& tdiv(stock@.price, 2) <= o@.strike_price <= 2 * stock@.price
            &&& 250_000 <= o@.time_to_expiration <= 2_000_000
            &&& o@.risk_free_rate == 33_150
            &&& o@.volatility == 110_000
            &&& o@.price_history.len() == 0
            &&& o@.price == spec_option_price(
                o@.option_type,
                o@.spot_price,
                o@.strike_price,
                o@.time_to_expiration,
                33_150,
                110_000,
            ) as i64 as int
        }),
{
    let name = stock.name.clone();
    let option_type = if crate::rng::random_coin() {
        OptionType::Call
    } else {
        OptionType::Put
    };
    let spot_price = stock.price;
    let strike_price = generate_random_strike_price(stock.price);
    let time_to_expiration = generate_random_time_to_expiration();
    let volatility: i64 = 110_000;
    let risk_free_rate: i64 = 33_150;
    proof {
        lemma_fp_mul_abs_bound(33_150, time_to_expiration as int, 33_150, 2_000_000);
    }
    let r = Options::new(
        name,
        option_type,
        spot_price,
        strike_price,
        time_to_expiration,
        risk_free_rate,
        volatility,
    );
    proof {
        if stock@.price >= 2 {
            lemma_generated_inputs_accepted(
                stock@.price,
                strike_price as int,
                time_to_expiration as int,
            );
        }
    }
    r
}

/// The random draws around a price of at least two micro-units can
/// never produce inputs that pricing rejects.
proof fn lemma_generated_inputs_accepted(spot: int, strike: int, t: int)
    requires
        2 <= spot <= 500_000_000_000,
        tdiv(spot, 2) <= strike <= 2 * spot,
        250_000 <= t <= 2_000_000,
    ensures
        !pricing_rejected(spot, strike, t, 33_150, 110_000),
{
    assert(strike >= 1);
    // The moneyness ratio is at least one half.
    assert(fp_div(spot, strike) > 0) by {
        lemma_tdiv_bound(spot * SCALE, strike);
        vstd::arithmetic::div_mod::lemma_div_is_ordered_by_denominator(
            spot * SCALE,
            strike,
            2 * spot,
        );
        assert(spot * SCALE >= 0) by (nonlinear_arith)
            requires
                spot >= 0,
        ;
        assert((spot * SCALE) / (2 * spot) == 500_000int) by {
            assert(spot * SCALE == (2 * spot) * 500_000) by (nonlinear_arith)
                requires
                    SCALE == 1_000_000,
            ;
            vstd::arithmetic::div_mod::lemma_div_multiples_vanish(500_000, 2 * spot);
        }
    }
    // The volatility-times-root-time term is strictly positive.
    assert(fp_mul(110_000, fp_sqrt(t)) > 0) by {
        crate::fixed::lemma_sqrt_floor_exists(t * SCALE);
        let st = fp_sqrt(t);
        assert(st >= 500_000) by (nonlinear_arith)
            requires
                crate::fixed::is_sqrt_floor(t * SCALE, st),
                t >= 250_000,
                SCALE == 1_000_000,
        ;
        lemma_tdiv_bound(110_000 * st, SCALE as int);
        assert(110_000 * st >= 55_000 * (SCALE as int)) by (nonlinear_arith)
            requires
                st >= 500_000,
                SCALE == 1_000_000,
        ;
        vstd::arithmetic::div_mod::lemma_div_is_ordered(
            55_000 * (SCALE as int),
            110_000 * st,
            SCALE as int,
        );
        vstd::arithmetic::div_mod::lemma_div_multiples_vanish(55_000, SCALE as int);
        assert((55_000 * (SCALE as int)) / (SCALE as int) == 55_000) by {
            assert(55_000 * (SCALE as int) == (SCALE as int) * 55_000) by (nonlinear_arith);
        }
    }
}

/// Put-call parity holds of the model by construction: for every
/// parameter tuple the put price is exactly the call price minus the
/// spot plus the discounted strike, with no tolerance.
pub proof fn lemma_put_call_parity(spot: int, strike: int, t: int, r: int, v: int)
    ensures
        spec_put_price(spot, strike, t, r, v) == spec_call_price(spot, strike, t, r, v) - spot
            + fp_mul(strike, spec_discount(t, r)),
{
}

impl Options {
    /// The fair value of a European option, in micro-units.
    ///
    /// The preconditions are fixed-point range limits: prices up to a
    /// million units, twenty years to expiration, volatility up to
    /// 1000%, a rate magnitude up to 100% with `r*t` at least -2.
    /// Degenerate contract parameters are rejected explicitly instead
    /// of yielding a meaningless value.
    pub fn calculate_option_price(
        spot_price: i64,
        strike_price: i64,
        time_to_expiration: i64,
        risk_free_rate: i64,
        volatility: i64,
        option_type: OptionType,
    ) -> (r: Result<i64, MarketError>)
        requires
            spot_price <= 1_000_000_000_000,
            strike_price <= 1_000_000_000_000,
            time_to_expiration <= 20_000_000,
            volatility <= 10_000_000,
            abs(risk_free_rate as int) <= 1_000_000,
            fp_mul(risk_free_rate as int, time_to_expiration as int) >= -2_000_000,
        ensures
            r is Err <==> pricing_rejected(
                spot_price as int,
                strike_price as int,
                time_to_expiration as int,
                risk_free_rate as int,
                volatility as int,
            ),
            r is Err ==> r == Result::<i64, MarketError>::Err(MarketError::InvalidPricingInput),
            r is Ok ==> r == Result::<i64, MarketError>::Ok(
                spec_option_price(
                    option_type,
                    spot_price as int,
                    strike_price as int,
                    time_to_expiration as int,
                    risk_free_rate as int,
                    volatility as int,
                ) as i64,
            ),
    {
        if time_to_expiration <= 0 || volatility <= 0 || spot_price <= 0 || strike_price <= 0 {
            return Err(MarketError::InvalidPricingInput);
        }
        proof {
            lemma_tdiv_bound(spot_price as int * SCALE, strike_price as int);
        }
        let q = div_fp(spot_price, strike_price);
        if q == 0 {
            return Err(MarketError::InvalidPricingInput);
        }
        let st = sqrt_fp(time_to_expiration);
        proof {
            assert(st as int <= 4_500_000) by (nonlinear_arith)
                requires
                    (st as int) * (st as int) <= (time_to_expiration as int) * (SCALE as int),
                    0 <= st,
                    time_to_expiration <= 20_000_000,
                    SCALE == 1_000_000,
            ;
            lemma_fp_mul_bounds(volatility as int, st as int, 10_000_000, 4_500_000);
        }
        let den = mul_fp(volatility, st);
        if den == 0 {
            return Err(MarketError::InvalidPricingInput);
        }
        let lnq = ln_fp(q);
        proof {
            lemma_fp_mul_bounds(volatility as int, volatility as int, 10_000_000, 10_000_000);
            lemma_tdiv_bound(fp_mul(volatility as int, volatility as int), 2);
        }
        let halfv2 = div_trunc(mul_fp(volatility, volatility), 2);
        let drift = risk_free_rate + halfv2;
        proof {
            lemma_fp_mul_abs_bound(drift as int, time_to_expiration as int, 51_000_000, 20_000_000);
        }
        let num = lnq + mul_fp(drift, time_to_expiration);
        proof {
            lemma_tdiv_bound(num as int * SCALE, den as int);
            assert(abs(num as int * SCALE) <= 1_070_000_000_000_000) by (nonlinear_arith)
                requires
                    abs(num as int) <= 1_070_000_000,
                    SCALE == 1_000_000,
            ;
        }
        let d1 = div_fp(num, den);
        let d2 = d1 - den;
        proof {
            lemma_fp_mul_abs_bound(
                risk_free_rate as int,
                time_to_expiration as int,
                1_000_000,
                20_000_000,
            );
        }
        let rt = mul_fp(risk_free_rate, time_to_expiration);
        let disc = exp_fp(-rt);
        let cd1 = norm_cdf(d1);
        let cd2 = norm_cdf(d2);
        proof {
            lemma_fp_mul_unit_bound(spot_price as int, cd1 as int, 1_000_000_000_000);
            lemma_fp_mul_bounds(strike_price as int, disc as int, 1_000_000_000_000, 23_000_000);
        }
        let a = mul_fp(spot_price, cd1);
        let kd = mul_fp(strike_price, disc);
        proof {
            lemma_fp_mul_unit_bound(kd as int, cd2 as int, 23_000_000_000_000);
        }
        let b = mul_fp(kd, cd2);
        let call = a - b;
        match option_type {
            OptionType::Call => Ok(call),
            OptionType::Put => Ok(call - spot_price + kd),
        }
    }

    /// Builds an option, pricing it from its five live inputs; the
    /// same range limits and rejections as `calculate_option_price`.
    pub fn new(
        name: String,
        option_type: OptionType,
        spot_price: i64,
        strike_price: i64,
        time_to_expiration: i64,
        risk_free_rate: i64,
        volatility: i64,
    ) -> (r: Result<Options, MarketError>)
        requires
            spot_price <= 1_000_000_000_000,
            strike_price <= 1_000_000_000_000,
            time_to_expiration <= 20_000_000,
            volatility <= 10_000_000,
            abs(risk_free_rate as int) <= 1_000_000,
            fp_mul(risk_free_rate as int, time_to_expiration as int) >= -2_000_000,
        ensures
            r is Err <==> pricing_rejected(
                spot_price as int,
                strike_price as int,
                time_to_expiration as int,
                risk_free_rate as int,
                volatility as int,
            ),
            r is Err ==> r == Result::<Options, MarketError>::Err(MarketError::InvalidPricingInput),
            r is Ok ==> (r matches Result::Ok(o) && o@ == (OptionsV {
                name: name@,
                option_type: option_type,
                spot_price: spot_price as int,
                strike_price: strike_price as int,
                time_to_expiration: time_to_expiration as int,
                risk_free_rate: risk_free_rate as int,
                volatility: volatility as int,
                price: spec_option_price(
                    option_type,
                    spot_price as int,
                    strike_price as int,
                    time_to_expiration as int,
                    risk_free_rate as int,
                    volatility as int,
                ) as i64 as int,
                price_history: Seq::<int>::empty(),
            })),
    {
        let price = match Self::calculate_option_price(
            spot_price,
            strike_price,
            time_to_expiration,
            risk_free_rate,
            volatility,
            option_type,
        ) {
            Ok(p) => p,
            Err(e) => {
                return Err(e);
            },
        };
        let o = Options {
            name,
            option_type,
            spot_price,
            strike_price,
            time_to_expiration,
            risk_free_rate,
            volatility,
            price,
            price_history: Vec::new(),
        };
        proof {
            assert(o@.price_history =~= Seq::<int>::empty());
        }
        Ok(o)
    }

    /// Reprices the option for a new trading day: the volatility is
    /// re-estimated from the stock's history, the spot price is taken
    /// from the stock, the expired time (in days) is subtracted from
    /// the time to expiration, and the price is recomputed. On any
    /// error the option is left exactly as it was.
    pub fn update_option_price(&mut self, stock: Stocks, time_expired: i64) -> (r: Result<
        (),
        MarketError,
    >)
        requires
            stock.price_history@.len() <= crate::volatility::MAX_OBSERVATIONS,
            stock.price_history@.len() >= 2 ==> forall|i: int|
                0 <= i < stock.price_history@.len() ==> abs(
                    #[trigger] stock.price_history@[i] as int,
                ) <= crate::volatility::PRICE_LIMIT,
            stock.price_history@.len() >= 2 ==> forall|i: int|
                0 <= i < stock.price_history@.len() ==> (stock.price_history@[i] == 0 || abs(
                    #[trigger] stock.price_history@[i] as int,
                ) >= crate::volatility::PRICE_FLOOR),
            0 <= time_expired <= 365_000_000,
            stock.price <= 1_000_000_000_000,
            old(self).strike_price <= 1_000_000_000_000,
            abs(old(self).risk_free_rate as int) <= 1_000_000,
            -20_000_000 <= old(self).time_to_expiration <= 20_000_000,
            fp_mul(
                old(self).risk_free_rate as int,
                old(self)@.time_to_expiration - tdiv(time_expired as int, 365),
            ) >= -2_000_000,
        ensures
            ({
                let hv = history_view(stock.price_history@);
                let newt = old(self)@.time_to_expiration - tdiv(time_expired as int, 365);
                let v = spec_volatility(hv);
                &&& (r is Err <==> (vol_fails(hv) || v > 10_000_000 || pricing_rejected(
                    stock@.price,
                    old(self)@.strike_price,
                    newt,
                    old(self)@.risk_free_rate,
                    v,
                )))
                &&& (vol_fails(hv) ==> r == Result::<(), MarketError>::Err(
                    MarketError::DivisionByZero,
                ))
                &&& (!vol_fails(hv) && r is Err ==> r == Result::<(), MarketError>::Err(
                    MarketError::InvalidPricingInput,
                ))
                &&& (r is Err ==> final(self)@ == old(self)@)
                &&& (r is Ok ==> final(self)@ == (OptionsV {
                    spot_price: stock@.price,
                    time_to_expiration: newt,
                    volatility: v,
                    price: spec_option_price(
                        old(self)@.option_type,
                        stock@.price,
                        old(self)@.strike_price,
                        newt,
                        old(self)@.risk_free_rate,
                        v,
                    ) as i64 as int,
                    ..old(self)@
                }))
            }),
    {
        let vol = match crate::volatility::calculate_volatility(&stock.price_history) {
            Ok(v) => v,
            Err(e) => {
                return Err(e);
            },
        };
        // An estimate past the pricing model's 1000% ceiling cannot
        // be priced; reject it rather than demand it of the caller.
        if vol > 10_000_000 {
            return Err(MarketError::InvalidPricingInput);
        }
        let d = div_trunc(time_expired, 365);
        proof {
            lemma_tdiv_bound(time_expired as int, 365);
        }
        let newt = self.time_to_expiration - d;
        match Self::calculate_option_price(
            stock.price,
            self.strike_price,
            newt,
            self.risk_free_rate,
            vol,
            self.option_type,
        ) {
            Ok(p) => {
                self.volatility = vol;
                self.spot_price = stock.price;
                self.time_to_expiration = newt;
                self.price = p;
                Ok(())
            },
            Err(e) => Err(e),
        }
    }

    /// Appends a price to the chronological history.
    pub fn push_history(&mut self, price: i64)
        ensures
            final(self)@ == (OptionsV {
                price_history: old(self)@.price_history.push(price as int),
                ..old(self)@
            }),
    {
        self.price_history.push(price);
        proof {
            assert(self@.price_history =~= old(self)@.price_history.push(price as int));
        }
    }
}

} // verus!
