//! The canonical quote of one venue: best bid, best ask and their mid-price.

use crate::decimal::{checked_half, checked_half_of, checked_sum, checked_sum_of, Price};
use vstd::prelude::*;

verus! {

/// The mid-price of a bid and an ask, `(bid + ask) / 2` in decimal
/// arithmetic, or `None` where that overflows.
pub open spec fn mid_price_of(bid: Price, ask: Price) -> Option<Price> {
    match checked_sum_of(bid, ask) {
        Some(s) => checked_half_of(s),
        None => None,
    }
}

/// A venue's best bid and best ask, with the mid-price derived from them.
#[derive(Clone, Copy, Debug, PartialEq, Eq, Structural)]
pub struct Quote {
    pub bid: Price,
    pub ask: Price,
    pub price: Price,
}

impl Quote {
    /// The quote is made of well-formed prices and holds their mid-price.
    pub open spec fn wf(self) -> bool {
        &&& self.bid.wf()
        &&& self.ask.wf()
        &&& self.price.wf()
        &&& mid_price_of(self.bid, self.ask) == Some(self.price)
    }

    /// Makes the quote of a bid and an ask; `None` where their mid-price
    /// cannot be represented.
    pub fn new(bid: Price, ask: Price) -> (r: Option<Quote>)
        requires
            bid.wf(),
            ask.wf(),
        ensures
            r is Some <==> mid_price_of(bid, ask) is Some,
            r matches Some(q) ==> q.wf() && q.bid == bid && q.ask == ask
                && Some(q.price) == mid_price_of(bid, ask),
    {
        match checked_sum(&bid, &ask) {
            Some(s) => match checked_half(&s) {
                Some(price) => Some(Quote { bid, ask, price }),
                None => None,
            },
            None => None,
        }
    }

    /// The highest current bid.
    pub fn bid(&self) -> (r: Price)
        ensures
            r == self.bid,
    {
        self.bid
    }

    /// The lowest current ask.
    pub fn ask(&self) -> (r: Price)
        ensures
            r == self.ask,
    {
        self.ask
    }

    /// The mid-point between the best bid and the best ask, which is harder to
    /// move by a targeted trade than the last traded price.
    pub fn price(&self) -> (r: Price)
        ensures
            r == self.price,
    {
        self.price
    }
}

} // verus!
