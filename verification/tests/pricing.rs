use market_sim::MarketError;
use market_sim::fixed::{mul_fp, div_fp, sqrt_fp, div_trunc, SCALE};
use market_sim::math::{exp_fp, ln_fp, norm_cdf};
use market_sim::options::{OptionType, Options};
use market_sim::volatility::calculate_volatility;

const ONE: i64 = SCALE;

#[test]
fn fixed_point_products_truncate_toward_zero() {
    assert_eq!(mul_fp(2 * ONE, 3 * ONE), 6 * ONE);
    assert_eq!(mul_fp(-2 * ONE, 3 * ONE), -6 * ONE);
    assert_eq!(div_fp(ONE, 3 * ONE), 333_333);
    assert_eq!(div_fp(-ONE, 3 * ONE), -333_333);
    assert_eq!(div_fp(ONE, -3 * ONE), -333_333);
    assert_eq!(sqrt_fp(4 * ONE), 2 * ONE);
    assert_eq!(sqrt_fp(2 * ONE), 1_414_213);
    assert_eq!(div_trunc(-7, 2), -3);
}

#[test]
fn exponential_at_known_points() {
    assert_eq!(exp_fp(0), ONE);
    let inv_e = exp_fp(-ONE);
    assert!(inv_e > 367_800 && inv_e < 367_950, "e^-1 was {inv_e}");
    let e2 = exp_fp(2 * ONE);
    assert!(e2 > 7_380_000 && e2 < 7_395_000, "e^2 was {e2}");
}

#[test]
fn logarithm_at_known_points() {
    assert_eq!(ln_fp(ONE), 0);
    let l2 = ln_fp(2 * ONE);
    assert!(l2 > 693_000 && l2 < 693_300, "ln 2 was {l2}");
    let lh = ln_fp(ONE / 2);
    assert!(lh < -693_000 && lh > -693_300, "ln 0.5 was {lh}");
}

#[test]
fn normal_distribution_at_known_points() {
    let half = norm_cdf(0);
    assert!(half > 499_000 && half < 501_000, "cdf(0) was {half}");
    assert_eq!(norm_cdf(9 * ONE), ONE);
    let lo = norm_cdf(-9 * ONE);
    assert_eq!(lo, 0);
    let one_sigma = norm_cdf(ONE);
    assert!(one_sigma > 840_000 && one_sigma < 842_500, "cdf(1) was {one_sigma}");
}

#[test]
fn degenerate_pricing_inputs_are_rejected() {
    let r = Options::calculate_option_price(100 * ONE, 100 * ONE, 0, 33_150, 110_000, OptionType::Call);
    assert_eq!(r, Err(MarketError::InvalidPricingInput));
    let r = Options::calculate_option_price(100 * ONE, 100 * ONE, ONE, 33_150, 0, OptionType::Call);
    assert_eq!(r, Err(MarketError::InvalidPricingInput));
    let r = Options::calculate_option_price(0, 100 * ONE, ONE, 33_150, 110_000, OptionType::Put);
    assert_eq!(r, Err(MarketError::InvalidPricingInput));
    let r = Options::calculate_option_price(100 * ONE, 0, ONE, 33_150, 110_000, OptionType::Put);
    assert_eq!(r, Err(MarketError::InvalidPricingInput));
}

#[test]
fn reference_call_price_matches_the_model() {
    // Spot 100, strike 100, one year, r = 3.315%, sigma = 11%.
    let call = Options::calculate_option_price(
        100 * ONE,
        100 * ONE,
        ONE,
        33_150,
        110_000,
        OptionType::Call,
    )
    .unwrap();
    // The closed-form value is near 6.15; the fixed-point model must
    // land close by.
    assert!(call > 5_900_000 && call < 6_400_000, "call was {call}");
}

#[test]
fn put_call_parity_on_concrete_contracts() {
    let cases = [
        (100 * ONE, 100 * ONE, ONE, 33_150, 110_000),
        (120 * ONE, 95 * ONE, ONE / 2, 20_000, 250_000),
        (80 * ONE, 105 * ONE, 2 * ONE, -10_000, 400_000),
    ];
    for (spot, strike, t, r, v) in cases {
        let call = Options::calculate_option_price(spot, strike, t, r, v, OptionType::Call).unwrap();
        let put = Options::calculate_option_price(spot, strike, t, r, v, OptionType::Put).unwrap();
        let discounted_strike = mul_fp(strike, exp_fp(-mul_fp(r, t)));
        assert_eq!(put, call - spot + discounted_strike);
    }
}

#[test]
fn option_constructor_prices_like_the_free_function() {
    let o = Options::new(
        "XYZ".to_string(),
        OptionType::Call,
        100 * ONE,
        100 * ONE,
        ONE,
        33_150,
        110_000,
    )
    .unwrap();
    let p = Options::calculate_option_price(
        100 * ONE,
        100 * ONE,
        ONE,
        33_150,
        110_000,
        OptionType::Call,
    )
    .unwrap();
    assert_eq!(o.price, p);
    assert_eq!(o.name, "XYZ");
    assert!(o.price_history.is_empty());
}

#[test]
fn volatility_of_short_histories_is_zero() {
    assert_eq!(calculate_volatility(&vec![]), Ok(0));
    assert_eq!(calculate_volatility(&vec![100 * ONE]), Ok(0));
}

#[test]
fn volatility_of_constant_history_is_zero() {
    let h = vec![100 * ONE, 100 * ONE, 100 * ONE, 100 * ONE, 100 * ONE];
    assert_eq!(calculate_volatility(&h), Ok(0));
}

#[test]
fn volatility_rejects_zero_prices_and_single_returns() {
    let h = vec![100 * ONE, 0, 100 * ONE];
    assert_eq!(calculate_volatility(&h), Err(MarketError::DivisionByZero));
    // Two observations leave one return, whose sample correction
    // divides by zero.
    let h = vec![100 * ONE, 110 * ONE];
    assert_eq!(calculate_volatility(&h), Err(MarketError::DivisionByZero));
}

#[test]
fn volatility_of_a_swing_is_the_sample_deviation() {
    // Returns are +10% and -10%: the sample standard deviation with
    // the correction factor sqrt(2/1) is 0.2, up to truncation.
    let h = vec![100 * ONE, 110 * ONE, 99 * ONE];
    assert_eq!(calculate_volatility(&h), Ok(199_999));
}

#[test]
fn repricing_follows_the_stock() {
    let stock = market_sim::stock::Stocks::new("XYZ".to_string(), 102 * ONE, 1_000_000).unwrap();
    let mut o = Options::new(
        "XYZ".to_string(),
        OptionType::Call,
        100 * ONE,
        100 * ONE,
        ONE,
        33_150,
        110_000,
    )
    .unwrap();
    let mut observed = stock.clone();
    observed.price_history = vec![100 * ONE, 101 * ONE, 102 * ONE, 101 * ONE, 102 * ONE];
    let one_day: i64 = ONE;
    o.update_option_price(observed.clone(), one_day).unwrap();
    assert_eq!(o.spot_price, 102 * ONE);
    assert_eq!(o.time_to_expiration, ONE - ONE / 365);
    assert_eq!(o.volatility, calculate_volatility(&observed.price_history).unwrap());
    let direct = Options::calculate_option_price(
        102 * ONE,
        100 * ONE,
        ONE - ONE / 365,
        33_150,
        o.volatility,
        OptionType::Call,
    )
    .unwrap();
    assert_eq!(o.price, direct);
}

#[test]
fn repricing_with_a_bad_history_changes_nothing() {
    let stock = market_sim::stock::Stocks::new("XYZ".to_string(), 100 * ONE, 1_000_000).unwrap();
    let mut o = Options::new(
        "XYZ".to_string(),
        OptionType::Put,
        100 * ONE,
        100 * ONE,
        ONE,
        33_150,
        110_000,
    )
    .unwrap();
    let before = o.price;
    let mut bad = stock.clone();
    bad.price_history = vec![100 * ONE, 0, 100 * ONE];
    let r = o.update_option_price(bad, ONE);
    assert_eq!(r, Err(MarketError::DivisionByZero));
    assert_eq!(o.price, before);
    assert_eq!(o.spot_price, 100 * ONE);
    assert_eq!(o.time_to_expiration, ONE);
}

#[test]
fn reference_contract_prices_are_reproducible() {
    // The model is deterministic: the at-the-money one-year contract
    // always prices to exactly these micro-unit values.
    let call = Options::calculate_option_price(
        100 * ONE,
        100 * ONE,
        ONE,
        33_150,
        110_000,
        OptionType::Call,
    )
    .unwrap();
    let put = Options::calculate_option_price(
        100 * ONE,
        100 * ONE,
        ONE,
        33_150,
        110_000,
        OptionType::Put,
    )
    .unwrap();
    assert_eq!(call, 6_139_223);
    assert_eq!(put, 2_878_523);
}
