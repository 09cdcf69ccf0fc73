//! A synthetic stock: an identifier, a market capitalization, a share
//! count, the current per-share price, and the chronological price
//! history. The per-share price is the market capitalization divided
//! by the number of outstanding shares, truncated to a micro-unit.

use vstd::prelude::*;
use crate::MarketError;
use crate::fixed::{tdiv, abs, div_trunc, FP_LIMIT};

verus! {

/// Mathematical model of a stock.
pub struct StocksV {
    pub name: Seq<char>,
    pub market_cap: int,
    pub total_stocks: int,
    pub price: int,
    pub price_history: Seq<int>,
}

pub struct Stocks {
    pub name: String,
    pub market_cap: i64,
    pub total_stocks: u32,
    pub price: i64,
    pub price_history: Vec<i64>,
}

impl View for Stocks {
    type V = StocksV;

    open spec fn view(&self) -> StocksV {
        StocksV {
            name: self.name@,
            market_cap: self.market_cap as int,
            total_stocks: self.total_stocks as int,
            price: self.price as int,
            price_history: history_view(self.price_history@),
        }
    }
}

impl DeepView for Stocks {
    type V = StocksV;

    open spec fn deep_view(&self) -> StocksV {
        self.view()
    }
}

/// The mathematical reading of a price history: its values as integers.
pub open spec fn history_view(v: Seq<i64>) -> Seq<int> {
    v.map_values(|x: i64| x as int)
}

/// Copies a price history element by element.
pub(crate) fn clone_history(v: &Vec<i64>) -> (r: Vec<i64>)
    ensures
        r@ == v@,
{
    let mut r: Vec<i64> = Vec::new();
    let mut i: usize = 0;
    while i < v.len()
        invariant
            i <= v.len(),
            r@ == v@.take(i as int),
        decreases v.len() - i,
    {
        r.push(v[i]);
        i = i + 1;
        proof {
            assert(r@ =~= v@.take(i as int));
        }
    }
    proof {
        assert(v@.take(v.len() as int) =~= v@);
    }
    r
}

impl Clone for Stocks {
    fn clone(&self) -> (r: Stocks)
        ensures
            r@ == self@,
    {
        let r = Stocks {
            name: self.name.clone(),
            market_cap: self.market_cap,
            total_stocks: self.total_stocks,
            price: self.price,
            price_history: clone_history(&self.price_history),
        };
        r
    }
}

/// The per-share price implied by a market capitalization and a share
/// count: the capitalization divided by the count, truncated toward
/// zero. A zero share count is a division by zero and is rejected.
pub open spec fn spec_share_price(market_cap: int, total_stocks: int) -> int {
    tdiv(market_cap, total_stocks)
}

pub fn calculate_price(market_cap: i64, total_stocks: u32) -> (r: Result<i64, MarketError>)
    ensures
        total_stocks == 0 <==> r is Err,
        r is Err ==> r == Result::<i64, MarketError>::Err(MarketError::DivisionByZero),
        r is Ok ==> r == Result::<i64, MarketError>::Ok(
            spec_share_price(market_cap as int, total_stocks as int) as i64,
        ),
{
    if total_stocks == 0 {
        return Err(MarketError::DivisionByZero);
    }
    proof {
        crate::fixed::lemma_tdiv_bound(market_cap as int, total_stocks as int);
    }
    Ok(div_trunc(market_cap, total_stocks as i64))
}

impl Stocks {
    /// Builds a stock from its identifier, per-share price and share
    /// count; the market capitalization is price times share count,
    /// so that the stated price is recovered exactly.
    pub fn new(name: String, price: i64, total_stocks: u32) -> (r: Result<Stocks, MarketError>)
        requires
            abs(price as int * total_stocks as int) <= FP_LIMIT,
        ensures
            total_stocks == 0 <==> r is Err,
            r is Err ==> (r matches Result::Err(e) && e == MarketError::DivisionByZero),
            r is Ok ==> (r matches Result::Ok(s) && s@ == (StocksV {
                name: name@,
                market_cap: price as int * total_stocks as int,
                total_stocks: total_stocks as int,
                price: price as int,
                price_history: Seq::<int>::empty(),
            })),
    {
        if total_stocks == 0 {
            return Err(MarketError::DivisionByZero);
        }
        let market_cap: i64 = price * (total_stocks as i64);
        let s = Stocks {
            name,
            market_cap,
            total_stocks,
            price,
            price_history: Vec::new(),
        };
        proof {
            assert(s@.price_history =~= Seq::<int>::empty());
        }
        Ok(s)
    }

    /// Sets the market capitalization and reprices the share from it.
    pub fn update_market_cap(&mut self, market_cap: i64)
        requires
            old(self).total_stocks >= 1,
        ensures
            final(self)@ == (StocksV {
                market_cap: market_cap as int,
                price: spec_share_price(market_cap as int, old(self)@.total_stocks),
                ..old(self)@
            }),
    {
        self.market_cap = market_cap;
        proof {
            crate::fixed::lemma_tdiv_bound(market_cap as int, self.total_stocks as int);
        }
        self.price = div_trunc(market_cap, self.total_stocks as i64);
    }

    /// Sets the share count and reprices the share from it. A zero
    /// count would divide by zero: it is rejected and nothing changes.
    pub fn update_total_stocks(&mut self, total_stocks: u32) -> (r: Result<(), MarketError>)
        ensures
            total_stocks == 0 <==> r is Err,
            r is Err ==> r == Result::<(), MarketError>::Err(MarketError::DivisionByZero)
                && final(self)@ == old(self)@,
            r is Ok ==> final(self)@ == (StocksV {
                total_stocks: total_stocks as int,
                price: spec_share_price(old(self)@.market_cap, total_stocks as int),
                ..old(self)@
            }),
    {
        if total_stocks == 0 {
            return Err(MarketError::DivisionByZero);
        }
        self.total_stocks = total_stocks;
        proof {
            crate::fixed::lemma_tdiv_bound(self.market_cap as int, total_stocks as int);
        }
        self.price = div_trunc(self.market_cap, total_stocks as i64);
        Ok(())
    }

    /// Overwrites the per-share price directly, leaving the market
    /// capitalization as it was.
    pub fn update_price(&mut self, price: i64)
        ensures
            final(self)@ == (StocksV { price: price as int, ..old(self)@ }),
    {
        self.price = price;
    }

    /// Appends a price to the chronological history.
    pub fn push_history(&mut self, price: i64)
        ensures
            final(self)@ == (StocksV {
                price_history: old(self)@.price_history.push(price as int),
                ..old(self)@
            }),
    {
        self.price_history.push(price);
        proof {
            assert(self@.price_history =~= old(self)@.price_history.push(price as int));
        }
    }
}

/// A capital letter of the Latin alphabet.
pub open spec fn is_upper_alpha(c: char) -> bool {
    ('A' as u32) <= (c as u32) && (c as u32) <= ('Z' as u32)
}

/// A random ticker name of three or four capital letters A-Z.
pub fn generate_random_name() -> (r: String)
    ensures
        3 <= r@.len() <= 4,
        forall|i: int| 0 <= i < r@.len() ==> is_upper_alpha(#[trigger] r@[i]),
{
    let alphabet = "ABCDEFGHIJKLMNOPQRSTUVWXYZ";
    proof {
        reveal_strlit("ABCDEFGHIJKLMNOPQRSTUVWXYZ");
        reveal_strlit("AAA");
        assert(forall|i: int|
            0 <= i < alphabet@.len() ==> is_upper_alpha(#[trigger] alphabet@[i]));
        assert(forall|i: int| 0 <= i < "AAA"@.len() ==> is_upper_alpha(#[trigger] "AAA"@[i]));
    }
    if !alphabet.is_ascii() {
        return "AAA".to_owned();
    }
    let len = crate::rng::random_u32_between(3, 4);
    let mut name = String::new();
    let mut i: u32 = 0;
    while i < len
        invariant
            i <= len,
            3 <= len <= 4,
            name@.len() == i,
            alphabet@.len() == 26,
            vstd::string::is_ascii(alphabet),
            forall|j: int| 0 <= j < alphabet@.len() ==> is_upper_alpha(#[trigger] alphabet@[j]),
            forall|j: int| 0 <= j < name@.len() ==> is_upper_alpha(#[trigger] name@[j]),
        decreases len - i,
    {
        let idx = crate::rng::random_u32_between(0, 25) as usize;
        let piece = alphabet.substring_ascii(idx, idx + 1);
        proof {
            assert(piece@[0] == alphabet@[idx as int]);
        }
        name.append(piece);
        i = i + 1;
    }
    name
}

/// A random market capitalization between a hundred million and a
/// hundred billion units.
pub fn generate_random_market_cap() -> (r: i64)
    ensures
        100_000_000_000_000 <= r <= 100_000_000_000_000_000,
{
    crate::rng::random_i64_between(100_000_000_000_000, 100_000_000_000_000_000)
}

/// A random share count between one million and a hundred million.
pub fn generate_random_total_stocks() -> (r: u32)
    ensures
        1_000_000 <= r <= 100_000_000,
{
    crate::rng::random_u32_between(1_000_000, 100_000_000)
}

impl Stocks {
    /// A fresh random stock: random name, capitalization and share
    /// count, with the per-share price derived from them and an empty
    /// history.
    pub fn generate_new() -> (r: Stocks)
        ensures
            3 <= r@.name.len() <= 4,
            forall|i: int| 0 <= i < r@.name.len() ==> is_upper_alpha(#[trigger] r@.name[i]),
            100_000_000_000_000 <= r@.market_cap <= 100_000_000_000_000_000,
            1_000_000 <= r@.total_stocks <= 100_000_000,
            r@.price == spec_share_price(r@.market_cap, r@.total_stocks),
            r@.price_history.len() == 0,
    {
        let name = generate_random_name();
        let market_cap = generate_random_market_cap();
        let total_stocks = generate_random_total_stocks();
        let price = match calculate_price(market_cap, total_stocks) {
            Ok(p) => p,
            Err(_) => 0,
        };
        let s = Stocks { name, market_cap, total_stocks, price, price_history: Vec::new() };
        proof {
            assert(s@.price_history =~= Seq::<int>::empty());
        }
        s
    }
}

} // verus!
