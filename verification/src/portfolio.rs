//! A one-owner portfolio: an ordered collection of holdings (each one
//! unit of a stock or of an option), an invested-value accumulator,
//! and a current mark-to-market value. Holdings are matched by
//! identifier equality alone; duplicates are repeated entries.

use vstd::prelude::*;
use crate::buyable::Buyable;
use crate::fixed::{tdiv, div_trunc};
use crate::options::{Options, OptionsV};
use crate::stock::{Stocks, StocksV};

verus! {

pub enum BuyableItem {
    Stock(Stocks),
    Option(Options),
}

/// Mathematical model of a holding.
pub enum BuyableItemV {
    Stock(StocksV),
    Option(OptionsV),
}

impl View for BuyableItem {
    type V = BuyableItemV;

    open spec fn view(&self) -> BuyableItemV {
        match self {
            BuyableItem::Stock(s) => BuyableItemV::Stock(s@),
            BuyableItem::Option(o) => BuyableItemV::Option(o@),
        }
    }
}

impl Clone for BuyableItem {
    fn clone(&self) -> (r: BuyableItem)
        ensures
            r@ == self@,
    {
        match self {
            BuyableItem::Stock(s) => BuyableItem::Stock(s.clone()),
            BuyableItem::Option(o) => BuyableItem::Option(o.clone()),
        }
    }
}

pub open spec fn item_price(v: BuyableItemV) -> int {
    match v {
        BuyableItemV::Stock(s) => s.price,
        BuyableItemV::Option(o) => o.price,
    }
}

pub open spec fn item_name(v: BuyableItemV) -> Seq<char> {
    match v {
        BuyableItemV::Stock(s) => s.name,
        BuyableItemV::Option(o) => o.name,
    }
}

pub open spec fn item_is_stock(v: BuyableItemV) -> bool {
    v is Stock
}

/// Two holdings are the same instrument when they are the same kind
/// of instrument and carry the same name; nothing else matters.
pub open spec fn item_matches(a: BuyableItemV, b: BuyableItemV) -> bool {
    item_is_stock(a) == item_is_stock(b) && item_name(a) == item_name(b)
}

/// The same holding with its price overwritten.
pub open spec fn with_item_price(v: BuyableItemV, p: int) -> BuyableItemV {
    match v {
        BuyableItemV::Stock(s) => BuyableItemV::Stock(StocksV { price: p, ..s }),
        BuyableItemV::Option(o) => BuyableItemV::Option(OptionsV { price: p, ..o }),
    }
}

pub open spec fn items_view(items: Seq<BuyableItem>) -> Seq<BuyableItemV> {
    items.map_values(|b: BuyableItem| b@)
}

/// The sum of the prices of a sequence of holdings.
pub open spec fn sum_prices(s: Seq<BuyableItemV>) -> int
    decreases s.len(),
{
    if s.len() == 0 {
        0
    } else {
        sum_prices(s.drop_last()) + item_price(s.last())
    }
}

/// The effect of selling up to `k` units matching `t` from `s`,
/// scanning in order: the holdings kept, and the unsold remainder of
/// the budget `k`.
pub open spec fn spec_sell(s: Seq<BuyableItemV>, t: BuyableItemV, k: int) -> (Seq<BuyableItemV>,
    int)
    decreases s.len(),
{
    if s.len() == 0 {
        (s, k)
    } else if k > 0 && item_matches(s.first(), t) {
        spec_sell(s.drop_first(), t, k - 1)
    } else {
        let r = spec_sell(s.drop_first(), t, k);
        (seq![s.first()] + r.0, r.1)
    }
}

/// How many units a sale of budget `k` actually removes.
pub open spec fn sell_removed(s: Seq<BuyableItemV>, t: BuyableItemV, k: int) -> int {
    k - spec_sell(s, t, k).1
}

/// The number of holdings in `s` that match `t`.
pub open spec fn count_matching(s: Seq<BuyableItemV>, t: BuyableItemV) -> int
    decreases s.len(),
{
    if s.len() == 0 {
        0
    } else {
        (if item_matches(s.first(), t) {
            1int
        } else {
            0int
        }) + count_matching(s.drop_first(), t)
    }
}

/// How many units the loop in `buy` appends: `amount`, or none when
/// `amount` is not positive.
pub open spec fn buy_count(amount: int) -> int {
    if amount >= 0 {
        amount
    } else {
        0
    }
}

/// Saturation of an integer into the range of an `i32`, the way a
/// float-to-`i32` conversion saturates.
pub open spec fn sat_i32(q: int) -> int {
    if q > 0x7fff_ffff {
        0x7fff_ffff
    } else if q < -0x8000_0000 {
        -0x8000_0000
    } else {
        q
    }
}

/// How many units `buy_value` buys: the target value divided by the
/// unit price, truncated, unless the price is at or below the
/// thousandth of a unit that counts as "near zero", in which case a
/// fixed fallback quantity is bought.
pub open spec fn spec_buy_amount(value: int, p: int) -> int {
    if p > 1000 {
        sat_i32(tdiv(value, p))
    } else {
        100_000
    }
}

/// Every holding matching `t` repriced to `t`'s price.
pub open spec fn spec_update_items(s: Seq<BuyableItemV>, t: BuyableItemV) -> Seq<BuyableItemV> {
    s.map_values(
        |v: BuyableItemV|
            if item_matches(v, t) {
                with_item_price(v, item_price(t))
            } else {
                v
            },
    )
}

/// Reads the current price of a holding.
pub fn item_current_price(item: &BuyableItem) -> (r: i64)
    ensures
        r as int == item_price(item@),
{
    match item {
        BuyableItem::Stock(s) => s.get_price(),
        BuyableItem::Option(o) => o.get_price(),
    }
}

/// Same-kind, same-name matching of two holdings.
pub fn portfolio_item_matches(portfolio_item: &BuyableItem, item: &BuyableItem) -> (r: bool)
    ensures
        r == item_matches(portfolio_item@, item@),
{
    match (portfolio_item, item) {
        (BuyableItem::Stock(a), BuyableItem::Stock(b)) => a.matches(b),
        (BuyableItem::Option(a), BuyableItem::Option(b)) => a.matches(b),
        _ => false,
    }
}

/// Moves the holdings out of `v` into a fresh vector in reverse
/// order, so a caller can pop them off in their original order.
fn reverse_items(v: &mut Vec<BuyableItem>) -> (r: Vec<BuyableItem>)
    ensures
        items_view(r@) == items_view(old(v)@).reverse(),
        final(v)@.len() == 0,
{
    let ghost v0 = items_view(old(v)@);
    let mut r: Vec<BuyableItem> = Vec::new();
    proof {
        assert(items_view(v@) =~= v0.take(v@.len() as int));
    }
    while v.len() > 0
        invariant
            v0 == items_view(old(v)@),
            items_view(v@) =~= v0.take(v@.len() as int),
            r@.len() + v@.len() == v0.len(),
            forall|i: int|
                0 <= i < r@.len() ==> items_view(r@)[i] == v0[v0.len() - 1 - i],
        decreases v.len(),
    {
        let ghost before = items_view(v@);
        let it = v.pop().unwrap();
        proof {
            assert(it@ == before[before.len() - 1]);
            assert(items_view(v@) =~= v0.take(v@.len() as int));
        }
        let ghost rprev = items_view(r@);
        r.push(it);
        proof {
            assert(items_view(r@) =~= rprev.push(it@));
        }
    }
    proof {
        assert(items_view(r@) =~= v0.reverse());
    }
    r
}

pub struct Portfolio {
    pub initial_value: i64,
    pub current_value: i64,
    pub items: Vec<BuyableItem>,
}

impl Portfolio {
    pub fn new(initial_value: i64) -> (r: Portfolio)
        ensures
            r.initial_value == initial_value,
            r.current_value == initial_value,
            r.items@.len() == 0,
    {
        Portfolio { initial_value, current_value: initial_value, items: Vec::new() }
    }

    /// Buys `amount` units of `item`: each unit is appended as its own
    /// holding, and both accumulators grow by the unit price each time.
    /// A non-positive `amount` buys nothing.
    pub fn buy(&mut self, item: BuyableItem, amount: i32)
        requires
            -0x8000_0000_0000_0000 <= old(self).initial_value + buy_count(amount as int)
                * item_price(item@),
            old(self).initial_value + buy_count(amount as int) * item_price(item@)
                <= 0x7fff_ffff_ffff_ffff,
            -0x8000_0000_0000_0000 <= old(self).current_value + buy_count(amount as int)
                * item_price(item@),
            old(self).current_value + buy_count(amount as int) * item_price(item@)
                <= 0x7fff_ffff_ffff_ffff,
        ensures
            final(self).initial_value == old(self).initial_value + buy_count(amount as int)
                * item_price(item@),
            final(self).current_value == old(self).current_value + buy_count(amount as int)
                * item_price(item@),
            items_view(final(self).items@) == items_view(old(self).items@) + Seq::new(
                buy_count(amount as int) as nat,
                |i: int| item@,
            ),
    {
        let price = item_current_price(&item);
        let ghost p = item_price(item@);
        let ghost init0 = old(self).initial_value as int;
        let ghost cur0 = old(self).current_value as int;
        let ghost iv0 = items_view(old(self).items@);
        proof {
            assert(items_view(self.items@) =~= iv0 + Seq::new(0nat, |i: int| item@));
        }
        let mut j: i32 = 0;
        while j < amount
            invariant
                0 <= j,
                j <= buy_count(amount as int),
                price as int == p,
                -0x8000_0000_0000_0000 <= init0 + buy_count(amount as int) * p,
                init0 + buy_count(amount as int) * p <= 0x7fff_ffff_ffff_ffff,
                -0x8000_0000_0000_0000 <= cur0 + buy_count(amount as int) * p,
                cur0 + buy_count(amount as int) * p <= 0x7fff_ffff_ffff_ffff,
                self.initial_value == init0 + j * p,
                self.current_value == cur0 + j * p,
                items_view(self.items@) == iv0 + Seq::new(j as nat, |i: int| item@),
            decreases amount - j,
        {
            proof {
                if p >= 0 {
                    assert((j + 1) * p <= buy_count(amount as int) * p) by (nonlinear_arith)
                        requires
                            j + 1 <= buy_count(amount as int),
                            p >= 0,
                    ;
                    assert(0 * p <= (j + 1) * p) by (nonlinear_arith)
                        requires
                            0 <= j + 1,
                            p >= 0,
                    ;
                } else {
                    assert((j + 1) * p >= buy_count(amount as int) * p) by (nonlinear_arith)
                        requires
                            j + 1 <= buy_count(amount as int),
                            p < 0,
                    ;
                    assert(0 * p >= (j + 1) * p) by (nonlinear_arith)
                        requires
                            0 <= j + 1,
                            p < 0,
                    ;
                }
                assert(j * p + p == (j + 1) * p) by (nonlinear_arith);
            }
            self.initial_value = self.initial_value + price;
            self.current_value = self.current_value + price;
            let ghost pv = items_view(self.items@);
            let c = item.clone();
            self.items.push(c);
            proof {
                assert(items_view(self.items@) =~= pv.push(item@));
                assert(pv.push(item@) =~= iv0 + Seq::new((j + 1) as nat, |i: int| item@));
                assert(items_view(self.items@) =~= iv0 + Seq::new((j + 1) as nat, |i: int| item@));
            }
            j = j + 1;
        }
    }

    /// Sells up to `amount` units matching `item`, scanning holdings
    /// in purchase order; each removal debits both accumulators by the
    /// price of `item` as supplied by the caller, not the price stored
    /// in the removed holding. When fewer matches exist than asked
    /// for, every match is sold and no error is raised.
    pub fn sell(&mut self, item: &BuyableItem, amount: i32)
        requires
            -0x8000_0000_0000_0000 <= old(self).initial_value - sell_removed(
                items_view(old(self).items@),
                item@,
                amount as int,
            ) * item_price(item@),
            old(self).initial_value - sell_removed(
                items_view(old(self).items@),
                item@,
                amount as int,
            ) * item_price(item@) <= 0x7fff_ffff_ffff_ffff,
            -0x8000_0000_0000_0000 <= old(self).current_value - sell_removed(
                items_view(old(self).items@),
                item@,
                amount as int,
            ) * item_price(item@),
            old(self).current_value - sell_removed(
                items_view(old(self).items@),
                item@,
                amount as int,
            ) * item_price(item@) <= 0x7fff_ffff_ffff_ffff,
        ensures
            items_view(final(self).items@) == spec_sell(
                items_view(old(self).items@),
                item@,
                amount as int,
            ).0,
            final(self).initial_value == old(self).initial_value - sell_removed(
                items_view(old(self).items@),
                item@,
                amount as int,
            ) * item_price(item@),
            final(self).current_value == old(self).current_value - sell_removed(
                items_view(old(self).items@),
                item@,
                amount as int,
            ) * item_price(item@),
    {
        let price = item_current_price(item);
        let ghost p = item_price(item@);
        let ghost iv0 = items_view(old(self).items@);
        let ghost k = amount as int;
        let ghost init0 = old(self).initial_value as int;
        let ghost cur0 = old(self).current_value as int;
        let ghost total = sell_removed(iv0, item@, k);
        let mut tmp: Vec<BuyableItem> = Vec::new();
        core::mem::swap(&mut tmp, &mut self.items);
        let mut rem: i32 = amount;
        proof {
            lemma_spec_sell_budget(iv0, item@, k);
            assert(items_view(self.items@) =~= Seq::<BuyableItemV>::empty());
            assert(items_view(tmp@) == iv0);
        }
        let mut rev = reverse_items(&mut tmp);
        proof {
            assert(items_view(rev@).reverse() =~= iv0);
        }
        while rev.len() > 0
            invariant
                price as int == p,
                spec_sell(items_view(rev@).reverse(), item@, rem as int).1 == spec_sell(
                    iv0,
                    item@,
                    k,
                ).1,
                items_view(self.items@) + spec_sell(items_view(rev@).reverse(), item@, rem as int).0
                    =~= spec_sell(iv0, item@, k).0,
                k - rem >= 0,
                k - rem <= total,
                total == k - spec_sell(iv0, item@, k).1,
                -0x8000_0000_0000_0000 <= init0 - total * p,
                init0 - total * p <= 0x7fff_ffff_ffff_ffff,
                -0x8000_0000_0000_0000 <= cur0 - total * p,
                cur0 - total * p <= 0x7fff_ffff_ffff_ffff,
                self.initial_value == init0 - (k - rem) * p,
                self.current_value == cur0 - (k - rem) * p,
            decreases rev.len(),
        {
            let ghost tv = items_view(rev@).reverse();
            let it = rev.pop().unwrap();
            proof {
                assert(it@ == tv.first());
                assert(items_view(rev@).reverse() =~= tv.drop_first());
            }
            if rem > 0 && portfolio_item_matches(&it, item) {
                proof {
                    assert(spec_sell(tv, item@, rem as int) == spec_sell(
                        tv.drop_first(),
                        item@,
                        rem as int - 1,
                    ));
                    lemma_spec_sell_budget(tv.drop_first(), item@, rem as int - 1);
                    assert(k - (rem - 1) <= total);
                    assert((k - rem) * p + p == (k - rem + 1) * p) by (nonlinear_arith);
                    if p >= 0 {
                        assert((k - rem + 1) * p <= total * p) by (nonlinear_arith)
                            requires
                                k - rem + 1 <= total,
                                p >= 0,
                        ;
                        assert(0 * p <= (k - rem + 1) * p) by (nonlinear_arith)
                            requires
                                0 <= k - rem + 1,
                                p >= 0,
                        ;
                    } else {
                        assert((k - rem + 1) * p >= total * p) by (nonlinear_arith)
                            requires
                                k - rem + 1 <= total,
                                p < 0,
                        ;
                        assert(0 * p >= (k - rem + 1) * p) by (nonlinear_arith)
                            requires
                                0 <= k - rem + 1,
                                p < 0,
                        ;
                    }
                }
                self.initial_value = self.initial_value - price;
                self.current_value = self.current_value - price;
                rem = rem - 1;
            } else {
                proof {
                    assert(spec_sell(tv, item@, rem as int).0 == seq![tv.first()] + spec_sell(
                        tv.drop_first(),
                        item@,
                        rem as int,
                    ).0);
                }
                self.items.push(it);
                proof {
                    assert(items_view(self.items@) + spec_sell(
                        items_view(rev@).reverse(),
                        item@,
                        rem as int,
                    ).0 =~= spec_sell(iv0, item@, k).0);
                }
            }
        }
        proof {
            assert(items_view(rev@).reverse() =~= Seq::<BuyableItemV>::empty());
            assert(spec_sell(items_view(rev@).reverse(), item@, rem as int).0
                =~= Seq::<BuyableItemV>::empty());
            assert(items_view(self.items@) + Seq::<BuyableItemV>::empty() =~= items_view(
                self.items@,
            ));
            assert(rem as int == spec_sell(iv0, item@, k).1);
        }
    }

    /// Buys as many whole units of `item` as `value` pays for at the
    /// item's current price; at a near-zero price (at most a
    /// thousandth of a unit) a fixed fallback quantity is bought
    /// instead.
    pub fn buy_value(&mut self, item: BuyableItem, value: i64)
        requires
            -0x8000_0000_0000_0000 <= old(self).initial_value + buy_count(
                spec_buy_amount(value as int, item_price(item@)),
            ) * item_price(item@),
            old(self).initial_value + buy_count(spec_buy_amount(value as int, item_price(item@)))
                * item_price(item@) <= 0x7fff_ffff_ffff_ffff,
            -0x8000_0000_0000_0000 <= old(self).current_value + buy_count(
                spec_buy_amount(value as int, item_price(item@)),
            ) * item_price(item@),
            old(self).current_value + buy_count(spec_buy_amount(value as int, item_price(item@)))
                * item_price(item@) <= 0x7fff_ffff_ffff_ffff,
        ensures
            final(self).initial_value == old(self).initial_value + buy_count(
                spec_buy_amount(value as int, item_price(item@)),
            ) * item_price(item@),
            final(self).current_value == old(self).current_value + buy_count(
                spec_buy_amount(value as int, item_price(item@)),
            ) * item_price(item@),
            items_view(final(self).items@) == items_view(old(self).items@) + Seq::new(
                buy_count(spec_buy_amount(value as int, item_price(item@))) as nat,
                |i: int| item@,
            ),
    {
        let price = item_current_price(&item);
        let amount: i32 = if price > 1000 {
            let q = div_trunc(value, price);
            if q > 0x7fff_ffff {
                0x7fff_ffff
            } else if q < -0x8000_0000 {
                i32::MIN
            } else {
                q as i32
            }
        } else {
            100_000
        };
        assert(amount as int == spec_buy_amount(value as int, item_price(item@)));
        self.buy(item, amount);
    }

    /// Broadcasts `buyable`'s current price to every matching holding,
    /// then rebuilds the current value from scratch as the sum of all
    /// holdings' prices. The invested value is untouched.
    pub fn update_portfolio(&mut self, buyable: BuyableItem)
        requires
            forall|i: int|
                0 <= i <= old(self).items@.len() ==> -0x8000_0000_0000_0000 <= #[trigger] sum_prices(
                    spec_update_items(items_view(old(self).items@), buyable@).take(i),
                ) <= 0x7fff_ffff_ffff_ffff,
        ensures
            items_view(final(self).items@) == spec_update_items(
                items_view(old(self).items@),
                buyable@,
            ),
            final(self).initial_value == old(self).initial_value,
            final(self).current_value == sum_prices(items_view(final(self).items@)),
    {
        let price = item_current_price(&buyable);
        let ghost iv0 = items_view(old(self).items@);
        let ghost uv = spec_update_items(iv0, buyable@);
        let mut tmp: Vec<BuyableItem> = Vec::new();
        core::mem::swap(&mut tmp, &mut self.items);
        proof {
            assert(items_view(tmp@) == iv0);
            assert(items_view(self.items@) =~= Seq::<BuyableItemV>::empty());
        }
        let mut rev = reverse_items(&mut tmp);
        proof {
            assert(items_view(rev@).reverse() =~= iv0.skip(0));
        }
        while rev.len() > 0
            invariant
                price as int == item_price(buyable@),
                self.items@.len() + rev@.len() == iv0.len(),
                items_view(rev@).reverse() =~= iv0.skip(self.items@.len() as int),
                items_view(self.items@) =~= uv.take(self.items@.len() as int),
                uv == spec_update_items(iv0, buyable@),
                self.initial_value == old(self).initial_value,
            decreases rev.len(),
        {
            let ghost done = self.items@.len() as int;
            let ghost tv = items_view(rev@).reverse();
            let mut it = rev.pop().unwrap();
            proof {
                assert(it@ == tv.first());
                assert(items_view(rev@).reverse() =~= tv.drop_first());
                assert(iv0.skip(done).drop_first() =~= iv0.skip(done + 1));
                assert(items_view(rev@).reverse() =~= iv0.skip(done + 1));
                assert(tv.first() == iv0.skip(done)[0]);
                assert(it@ == iv0[done]);
            }
            if portfolio_item_matches(&it, &buyable) {
                match &mut it {
                    BuyableItem::Stock(s) => s.set_price(price),
                    BuyableItem::Option(o) => o.set_price(price),
                }
                proof {
                    assert(it@ == with_item_price(iv0[done], item_price(buyable@)));
                }
            }
            proof {
                assert(it@ == uv[done]);
            }
            self.items.push(it);
            proof {
                assert(items_view(self.items@) =~= uv.take(done + 1));
            }
        }
        proof {
            assert(items_view(self.items@) =~= uv);
        }
        let n = self.items.len();
        let mut acc: i64 = 0;
        let mut i: usize = 0;
        proof {
            assert(uv.take(0) =~= Seq::<BuyableItemV>::empty());
        }
        while i < n
            invariant
                i <= n,
                n == self.items@.len(),
                items_view(self.items@) =~= uv,
                uv == spec_update_items(iv0, buyable@),
                iv0.len() == n,
                acc == sum_prices(uv.take(i as int)),
                forall|j: int|
                    0 <= j <= n ==> -0x8000_0000_0000_0000 <= #[trigger] sum_prices(uv.take(j))
                        <= 0x7fff_ffff_ffff_ffff,
                self.initial_value == old(self).initial_value,
            decreases n - i,
        {
            let pi = item_current_price(&self.items[i]);
            proof {
                assert(uv.take(i as int + 1).drop_last() =~= uv.take(i as int));
                assert(uv.take(i as int + 1).last() == uv[i as int]);
                assert(sum_prices(uv.take(i as int + 1)) == sum_prices(uv.take(i as int))
                    + item_price(uv[i as int]));
            }
            acc = acc + pi;
            i = i + 1;
        }
        proof {
            assert(uv.take(n as int) =~= uv);
        }
        self.current_value = acc;
    }
}

/// The percentage change from an invested value to a current value,
/// as a fixed-point percentage (so 10% is ten million micro-units).
pub fn calculate_change_percentage(initial_value: i64, current_value: i64) -> (r: i64)
    requires
        initial_value != 0,
        -0x7fff_ffff_ffff_ffff <= current_value - initial_value <= 0x7fff_ffff_ffff_ffff,
        crate::fixed::abs(
            crate::fixed::fp_div(current_value - initial_value, initial_value as int),
        ) <= 92_000_000_000_000_000,
    ensures
        r == 100 * crate::fixed::fp_div(current_value - initial_value, initial_value as int),
{
    let diff = current_value - initial_value;
    proof {
        crate::fixed::lemma_tdiv_bound(
            (diff as int) * (crate::fixed::SCALE as int),
            crate::fixed::abs(initial_value as int),
        );
    }
    let ratio = crate::fixed::div_fp(diff, initial_value);
    ratio * 100
}

/// Matching is reflexive: every holding matches itself.
pub proof fn lemma_matches_reflexive(v: BuyableItemV)
    ensures
        item_matches(v, v),
{
}

/// Matching is symmetric.
pub proof fn lemma_matches_symmetric(a: BuyableItemV, b: BuyableItemV)
    ensures
        item_matches(a, b) == item_matches(b, a),
{
}

/// Matching rests on the kind and the name alone: repricing either
/// side never changes whether two holdings match, so two holdings of
/// the same kind with the same name match whatever their prices.
pub proof fn lemma_matches_ignores_price(a: BuyableItemV, b: BuyableItemV, p: int, q: int)
    ensures
        item_matches(with_item_price(a, p), with_item_price(b, q)) == item_matches(a, b),
        item_matches(a, b) == (item_is_stock(a) == item_is_stock(b) && item_name(a) == item_name(
            b,
        )),
{
}

proof fn lemma_count_nonneg(s: Seq<BuyableItemV>, t: BuyableItemV)
    ensures
        count_matching(s, t) >= 0,
    decreases s.len(),
{
    if s.len() > 0 {
        lemma_count_nonneg(s.drop_first(), t);
    }
}

proof fn lemma_count_concat(a: Seq<BuyableItemV>, b: Seq<BuyableItemV>, t: BuyableItemV)
    ensures
        count_matching(a + b, t) == count_matching(a, t) + count_matching(b, t),
    decreases a.len(),
{
    if a.len() == 0 {
        assert(a + b =~= b);
    } else {
        assert((a + b).first() == a.first());
        assert((a + b).drop_first() =~= a.drop_first() + b);
        lemma_count_concat(a.drop_first(), b, t);
    }
}

proof fn lemma_count_repeat(t: BuyableItemV, q: int)
    requires
        q >= 0,
    ensures
        count_matching(Seq::new(q as nat, |i: int| t), t) == q,
    decreases q,
{
    let s = Seq::new(q as nat, |i: int| t);
    if q > 0 {
        assert(s.first() == t);
        assert(s.drop_first() =~= Seq::new((q - 1) as nat, |i: int| t));
        lemma_count_repeat(t, q - 1);
    }
}

/// A sale whose budget does not exceed the number of matching
/// holdings spends its whole budget.
pub proof fn lemma_sell_exhausts_budget(s: Seq<BuyableItemV>, t: BuyableItemV, k: int)
    requires
        0 <= k <= count_matching(s, t),
    ensures
        spec_sell(s, t, k).1 == 0,
        sell_removed(s, t, k) == k,
    decreases s.len(),
{
    if k == 0 {
        lemma_spec_sell_budget(s, t, 0);
    } else if s.len() == 0 {
    } else if item_matches(s.first(), t) {
        lemma_sell_exhausts_budget(s.drop_first(), t, k - 1);
    } else {
        lemma_sell_exhausts_budget(s.drop_first(), t, k);
    }
}

/// Buying `q` units of an instrument and at once selling `q` units of
/// it with the price unchanged in between returns both the invested
/// value and the current value to what they were before the purchase:
/// the sale finds at least the `q` freshly bought matching holdings,
/// so it removes exactly `q` at the same unit price the purchase paid.
pub proof fn lemma_buy_then_sell_restores_values(
    initial: int,
    current: int,
    items: Seq<BuyableItemV>,
    t: BuyableItemV,
    q: int,
)
    requires
        q >= 0,
    ensures
        sell_removed(items + Seq::new(q as nat, |i: int| t), t, q) == q,
        (initial + q * item_price(t)) - sell_removed(
            items + Seq::new(q as nat, |i: int| t),
            t,
            q,
        ) * item_price(t) == initial,
        (current + q * item_price(t)) - sell_removed(
            items + Seq::new(q as nat, |i: int| t),
            t,
            q,
        ) * item_price(t) == current,
{
    let bought = items + Seq::new(q as nat, |i: int| t);
    lemma_count_concat(items, Seq::new(q as nat, |i: int| t), t);
    lemma_count_repeat(t, q);
    lemma_count_nonneg(items, t);
    lemma_sell_exhausts_budget(bought, t, q);
}

/// Budget accounting of a sale: the unsold remainder never exceeds
/// the budget, and a nonnegative budget leaves a nonnegative
/// remainder.
pub proof fn lemma_spec_sell_budget(s: Seq<BuyableItemV>, t: BuyableItemV, k: int)
    ensures
        spec_sell(s, t, k).1 <= k,
        k >= 0 ==> spec_sell(s, t, k).1 >= 0,
        k < 0 ==> spec_sell(s, t, k).1 == k,
    decreases s.len(),
{
    if s.len() == 0 {
    } else if k > 0 && item_matches(s.first(), t) {
        lemma_spec_sell_budget(s.drop_first(), t, k - 1);
    } else {
        lemma_spec_sell_budget(s.drop_first(), t, k);
    }
}

} // verus!
