use market_sim::fixed::SCALE;
use market_sim::options::{OptionType, Options};
use market_sim::portfolio::{
    BuyableItem, Portfolio, calculate_change_percentage, item_current_price,
    portfolio_item_matches,
};
use market_sim::stock::Stocks;
use market_sim::stock_market;

const ONE: i64 = SCALE;

fn stock(name: &str, price: i64) -> Stocks {
    Stocks::new(name.to_string(), price, 1_000_000).unwrap()
}

fn option(name: &str, kind: OptionType) -> Options {
    Options::new(name.to_string(), kind, 100 * ONE, 100 * ONE, ONE, 33_150, 110_000).unwrap()
}

#[test]
fn stock_constructor_derives_the_market_cap() {
    let s = stock("XYZ", 100 * ONE);
    assert_eq!(s.market_cap, 100 * ONE * 1_000_000);
    assert_eq!(s.total_stocks, 1_000_000);
    assert_eq!(s.price, 100 * ONE);
    assert!(s.price_history.is_empty());
    assert!(Stocks::new("Z".to_string(), 5, 0).is_err());
}

#[test]
fn updating_shares_reprices_and_rejects_zero() {
    let mut s = stock("XYZ", 100 * ONE);
    s.update_total_stocks(2_000_000).unwrap();
    assert_eq!(s.total_stocks, 2_000_000);
    assert_eq!(s.price, 50 * ONE);
    assert!(s.update_total_stocks(0).is_err());
    assert_eq!(s.total_stocks, 2_000_000);
    s.update_market_cap(60 * ONE * 2_000_000);
    assert_eq!(s.price, 60 * ONE);
    s.update_price(42);
    assert_eq!(s.price, 42);
}

#[test]
fn matching_is_by_kind_and_name_alone() {
    let a = BuyableItem::Stock(stock("ABC", 100 * ONE));
    let b = BuyableItem::Stock(stock("ABC", 250 * ONE));
    let c = BuyableItem::Stock(stock("XYZ", 100 * ONE));
    let o = BuyableItem::Option(option("ABC", OptionType::Call));
    assert!(portfolio_item_matches(&a, &a));
    assert!(portfolio_item_matches(&a, &b));
    assert!(portfolio_item_matches(&b, &a));
    assert!(!portfolio_item_matches(&a, &c));
    assert!(!portfolio_item_matches(&a, &o));
    assert!(portfolio_item_matches(&o, &o));
}

#[test]
fn buying_accumulates_both_values() {
    let mut p = Portfolio::new(0);
    let item = BuyableItem::Stock(stock("ABC", 100 * ONE));
    p.buy(item, 3);
    assert_eq!(p.initial_value, 300 * ONE);
    assert_eq!(p.current_value, 300 * ONE);
    assert_eq!(p.items.len(), 3);
    let more = BuyableItem::Stock(stock("ABC", 110 * ONE));
    p.buy(more, 1);
    assert_eq!(p.initial_value, 410 * ONE);
    assert_eq!(p.items.len(), 4);
}

#[test]
fn buying_a_nonpositive_amount_buys_nothing() {
    let mut p = Portfolio::new(7 * ONE);
    p.buy(BuyableItem::Stock(stock("ABC", 100 * ONE)), 0);
    p.buy(BuyableItem::Stock(stock("ABC", 100 * ONE)), -5);
    assert_eq!(p.items.len(), 0);
    assert_eq!(p.initial_value, 7 * ONE);
    assert_eq!(p.current_value, 7 * ONE);
}

#[test]
fn selling_removes_earliest_matches_first() {
    let mut p = Portfolio::new(0);
    p.buy(BuyableItem::Stock(stock("ABC", 100 * ONE)), 2);
    p.buy(BuyableItem::Stock(stock("XYZ", 50 * ONE)), 1);
    p.buy(BuyableItem::Stock(stock("ABC", 100 * ONE)), 1);
    let probe = BuyableItem::Stock(stock("ABC", 100 * ONE));
    p.sell(&probe, 2);
    assert_eq!(p.items.len(), 2);
    // The two earliest ABC holdings went; XYZ then ABC remain.
    assert!(portfolio_item_matches(
        &p.items[0],
        &BuyableItem::Stock(stock("XYZ", 50 * ONE))
    ));
    assert!(portfolio_item_matches(&p.items[1], &probe));
    assert_eq!(p.initial_value, 150 * ONE);
    assert_eq!(p.current_value, 150 * ONE);
}

#[test]
fn selling_more_than_held_sells_what_there_is() {
    let mut p = Portfolio::new(0);
    p.buy(BuyableItem::Stock(stock("ABC", 100 * ONE)), 2);
    let probe = BuyableItem::Stock(stock("ABC", 100 * ONE));
    p.sell(&probe, 10);
    assert_eq!(p.items.len(), 0);
    assert_eq!(p.initial_value, 0);
    assert_eq!(p.current_value, 0);
}

#[test]
fn selling_debits_the_callers_price_not_the_holdings() {
    let mut p = Portfolio::new(0);
    p.buy(BuyableItem::Stock(stock("ABC", 100 * ONE)), 1);
    let repriced = BuyableItem::Stock(stock("ABC", 120 * ONE));
    p.sell(&repriced, 1);
    assert_eq!(p.items.len(), 0);
    assert_eq!(p.initial_value, -20 * ONE);
    assert_eq!(p.current_value, -20 * ONE);
}

#[test]
fn buy_then_sell_at_unchanged_price_restores_values() {
    let mut p = Portfolio::new(40 * ONE);
    p.buy(BuyableItem::Stock(stock("OLD", 10 * ONE)), 2);
    let init = p.initial_value;
    let cur = p.current_value;
    let item = BuyableItem::Stock(stock("ABC", 100 * ONE));
    p.buy(item, 5);
    let probe = BuyableItem::Stock(stock("ABC", 100 * ONE));
    p.sell(&probe, 5);
    assert_eq!(p.initial_value, init);
    assert_eq!(p.current_value, cur);
}

#[test]
fn buy_value_floors_the_quantity() {
    let mut p = Portfolio::new(0);
    let o = option("ABC", OptionType::Call);
    let unit = o.price;
    let item = BuyableItem::Option(o);
    p.buy_value(item, 10_000 * ONE);
    let expected = (10_000 * ONE) / unit;
    assert_eq!(p.items.len(), expected as usize);
    assert_eq!(p.initial_value, expected * unit);
}

#[test]
fn buy_value_at_a_near_zero_price_buys_the_fallback_quantity() {
    let mut p = Portfolio::new(0);
    let item = BuyableItem::Stock(stock("DUST", 1_000));
    p.buy_value(item, 10 * ONE);
    assert_eq!(p.items.len(), 100_000);
    assert_eq!(p.initial_value, 1_000 * 100_000);
}

#[test]
fn update_portfolio_broadcasts_and_rebuilds_the_total() {
    let mut p = Portfolio::new(0);
    p.buy(BuyableItem::Stock(stock("ABC", 100 * ONE)), 2);
    p.buy(BuyableItem::Stock(stock("XYZ", 50 * ONE)), 1);
    p.update_portfolio(BuyableItem::Stock(stock("ABC", 130 * ONE)));
    assert_eq!(p.current_value, 2 * 130 * ONE + 50 * ONE);
    // The invested total is untouched by a broadcast update.
    assert_eq!(p.initial_value, 250 * ONE);
    let mut total: i64 = 0;
    for it in &p.items {
        total += item_current_price(it);
    }
    assert_eq!(p.current_value, total);
}

#[test]
fn update_portfolio_leaves_other_kinds_alone() {
    let mut p = Portfolio::new(0);
    p.buy(BuyableItem::Stock(stock("ABC", 100 * ONE)), 1);
    p.buy(BuyableItem::Option(option("ABC", OptionType::Call)), 1);
    let opt_price = item_current_price(&p.items[1]);
    p.update_portfolio(BuyableItem::Stock(stock("ABC", 10 * ONE)));
    assert_eq!(item_current_price(&p.items[0]), 10 * ONE);
    assert_eq!(item_current_price(&p.items[1]), opt_price);
    assert_eq!(p.current_value, 10 * ONE + opt_price);
}

#[test]
fn change_percentage_is_fixed_point() {
    assert_eq!(calculate_change_percentage(100 * ONE, 110 * ONE), 10 * ONE);
    assert_eq!(calculate_change_percentage(100 * ONE, 95 * ONE), -5 * ONE);
}

#[test]
fn block_trades_move_the_price_by_the_traded_fraction() {
    let mut s = stock("XYZ", 100 * ONE);
    stock_market::sell(&mut s, 100_000);
    assert_eq!(s.price, 90 * ONE);
    assert_eq!(s.market_cap, 90 * ONE * 1_000_000);
    let mut b = stock("XYZ", 100 * ONE);
    stock_market::buy(&mut b, 100_000);
    assert_eq!(b.price, 110 * ONE);
}

#[test]
fn a_one_share_trade_still_moves_a_positive_price() {
    // 2,000,000 shares at 5.0: one share is far below a micro-unit
    // of the float, yet the single-truncation pricing still moves.
    let mut s = Stocks::new("XYZ".to_string(), 5 * ONE, 2_000_000).unwrap();
    stock_market::sell(&mut s, 1);
    assert_eq!(s.price, 4_999_997);
    assert_eq!(s.market_cap, 5 * ONE * 1_999_999);
    let mut b = Stocks::new("XYZ".to_string(), 5 * ONE, 2_000_000).unwrap();
    stock_market::buy(&mut b, 1);
    assert_eq!(b.price, 5_000_002);
    assert_eq!(b.market_cap, 5 * ONE * 2_000_001);
}

#[test]
fn a_trading_day_moves_the_price_within_the_drawn_band() {
    let mut s = stock("XYZ", 100 * ONE);
    stock_market::market_open(&mut s);
    assert!(s.price >= 95 * ONE && s.price <= 105_500_000, "price was {}", s.price);
    assert_eq!(s.name, "XYZ");
    assert_eq!(s.total_stocks, 1_000_000);
}

#[test]
fn generated_stocks_satisfy_their_own_arithmetic() {
    let s = Stocks::generate_new();
    assert!(s.name.len() >= 3 && s.name.len() <= 4);
    assert!(s.name.chars().all(|c| c.is_ascii_uppercase()));
    assert!(s.total_stocks >= 1_000_000 && s.total_stocks <= 100_000_000);
    assert_eq!(s.price, s.market_cap / s.total_stocks as i64);
    assert!(s.price_history.is_empty());
}

#[test]
fn generated_options_ride_on_their_stock() {
    let s = stock("XYZ", 100 * ONE);
    let o = market_sim::options::generate_random_option(&s).unwrap();
    assert_eq!(o.name, "XYZ");
    assert_eq!(o.spot_price, 100 * ONE);
    assert!(o.strike_price >= 50 * ONE && o.strike_price <= 200 * ONE);
    assert!(o.time_to_expiration >= ONE / 4 && o.time_to_expiration <= 2 * ONE);
    assert_eq!(o.risk_free_rate, 33_150);
    assert_eq!(o.volatility, 110_000);
}

#[test]
fn a_simulated_week_keeps_the_portfolio_consistent() {
    let mut s = stock("XYZ", 100 * ONE);
    let mut o = option("XYZ", OptionType::Call);
    let mut p = Portfolio::new(0);
    p.buy_value(BuyableItem::Option(o.clone()), 10_000 * ONE);
    for _ in 0..7 {
        stock_market::market_open(&mut s);
        s.push_history(s.price);
        if o.update_option_price(s.clone(), ONE).is_ok() {
            o.push_history(o.price);
        }
        p.update_portfolio(BuyableItem::Stock(s.clone()));
        p.update_portfolio(BuyableItem::Option(o.clone()));
        let mut total: i64 = 0;
        for it in &p.items {
            total += item_current_price(it);
        }
        assert_eq!(p.current_value, total);
    }
}
