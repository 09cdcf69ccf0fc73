//! The capability every tradable instrument offers: read its price,
//! overwrite its price (the portfolio's broadcast update), and test
//! whether another instrument of the same kind is the same instrument.
//! Identity is name equality alone, never object identity.

use vstd::prelude::*;
use crate::stock::{Stocks, StocksV};
use crate::options::{Options, OptionsV};

verus! {

pub trait Buyable: Sized {
    spec fn spec_price(&self) -> int;

    spec fn spec_name(&self) -> Seq<char>;

    fn get_price(&self) -> (r: i64)
        ensures
            r as int == self.spec_price(),
    ;

    fn set_price(&mut self, price: i64)
        ensures
            final(self).spec_price() == price as int,
            final(self).spec_name() == old(self).spec_name(),
    ;

    fn matches(&self, other: &Self) -> (r: bool)
        ensures
            r == (self.spec_name() == other.spec_name()),
    ;
}

impl Buyable for Stocks {
    open spec fn spec_price(&self) -> int {
        self@.price
    }

    open spec fn spec_name(&self) -> Seq<char> {
        self@.name
    }

    fn get_price(&self) -> (r: i64)
        ensures
            r as int == self.spec_price(),
    {
        self.price
    }

    fn set_price(&mut self, price: i64)
        ensures
            final(self)@ == (StocksV { price: price as int, ..old(self)@ }),
    {
        self.price = price;
    }

    fn matches(&self, other: &Self) -> (r: bool)
        ensures
            r == (self.spec_name() == other.spec_name()),
    {
        self.name == other.name
    }
}

impl Buyable for Options {
    open spec fn spec_price(&self) -> int {
        self@.price
    }

    open spec fn spec_name(&self) -> Seq<char> {
        self@.name
    }

    fn get_price(&self) -> (r: i64)
        ensures
            r as int == self.spec_price(),
    {
        self.price
    }

    fn set_price(&mut self, price: i64)
        ensures
            final(self)@ == (OptionsV { price: price as int, ..old(self)@ }),
    {
        self.price = price;
    }

    fn matches(&self, other: &Self) -> (r: bool)
        ensures
            r == (self.spec_name() == other.spec_name()),
    {
        self.name == other.name
    }
}

} // verus!
