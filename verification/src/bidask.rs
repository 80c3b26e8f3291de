//! Standing orders: bids to buy one unit and asks to sell one unit.

use vstd::prelude::*;
use std::cmp::Ordering;
use crate::error::MarketError;
use crate::ident::AccId;
use crate::price::{is_finite_bits, Price};
use crate::queue::Prioritized;

verus! {

/// An order to buy one unit at no more than `price`.
#[derive(Debug, Clone, Copy)]
pub struct Bid {
    pub price: Price,
    pub account: AccId,
}

/// An order to sell one unit at no less than `price`.
#[derive(Debug, Clone, Copy)]
pub struct Ask {
    pub price: Price,
    pub account: AccId,
}

impl Bid {
    /// Makes a bid for `acc` at the price whose bits are `price`.
    pub fn new(acc: AccId, price: u64) -> (made: Result<Bid, MarketError>)
        ensures
            is_finite_bits(price) ==> made == Ok::<Bid, MarketError>(
                Bid { price: Price::with_bits(price), account: acc },
            ),
            !is_finite_bits(price) ==> made == Err::<Bid, MarketError>(MarketError::InvalidPrice),
    {
        match Price::from_bits(price) {
            Ok(price) => Ok(Bid { price, account: acc }),
            Err(e) => Err(e),
        }
    }
}

impl Ask {
    /// Makes an ask for `acc` at the price whose bits are `price`.
    pub fn new(acc: AccId, price: u64) -> (made: Result<Ask, MarketError>)
        ensures
            is_finite_bits(price) ==> made == Ok::<Ask, MarketError>(
                Ask { price: Price::with_bits(price), account: acc },
            ),
            !is_finite_bits(price) ==> made == Err::<Ask, MarketError>(MarketError::InvalidPrice),
    {
        match Price::from_bits(price) {
            Ok(price) => Ok(Ask { price, account: acc }),
            Err(e) => Err(e),
        }
    }
}

/// Two bids are equal when their prices are; who placed them does not count.
impl PartialEq for Bid {
    fn eq(&self, other: &Self) -> (same: bool) {
        self.price.is_same(&other.price)
    }
}

impl vstd::std_specs::cmp::PartialEqSpecImpl for Bid {
    open spec fn obeys_eq_spec() -> bool {
        true
    }

    open spec fn eq_spec(&self, other: &Self) -> bool {
        self.price.rank() == other.price.rank()
    }
}

/// Bids are ordered against their prices: the lower bid is the greater.
impl PartialOrd for Bid {
    fn partial_cmp(&self, other: &Self) -> (order: Option<Ordering>) {
        if self.price.is_below(&other.price) {
            Some(Ordering::Greater)
        } else if other.price.is_below(&self.price) {
            Some(Ordering::Less)
        } else {
            Some(Ordering::Equal)
        }
    }
}

impl vstd::std_specs::cmp::PartialOrdSpecImpl for Bid {
    open spec fn obeys_partial_cmp_spec() -> bool {
        true
    }

    open spec fn partial_cmp_spec(&self, other: &Self) -> Option<Ordering> {
        if self.price.rank() < other.price.rank() {
            Some(Ordering::Greater)
        } else if self.price.rank() > other.price.rank() {
            Some(Ordering::Less)
        } else {
            Some(Ordering::Equal)
        }
    }
}

/// Two asks are equal when their prices are; who placed them does not count.
impl PartialEq for Ask {
    fn eq(&self, other: &Self) -> (same: bool) {
        self.price.is_same(&other.price)
    }
}

impl vstd::std_specs::cmp::PartialEqSpecImpl for Ask {
    open spec fn obeys_eq_spec() -> bool {
        true
    }

    open spec fn eq_spec(&self, other: &Self) -> bool {
        self.price.rank() == other.price.rank()
    }
}

/// Asks are ordered by their prices: the higher ask is the greater.
impl PartialOrd for Ask {
    fn partial_cmp(&self, other: &Self) -> (order: Option<Ordering>) {
        if self.price.is_below(&other.price) {
            Some(Ordering::Less)
        } else if other.price.is_below(&self.price) {
            Some(Ordering::Greater)
        } else {
            Some(Ordering::Equal)
        }
    }
}

impl vstd::std_specs::cmp::PartialOrdSpecImpl for Ask {
    open spec fn obeys_partial_cmp_spec() -> bool {
        true
    }

    open spec fn partial_cmp_spec(&self, other: &Self) -> Option<Ordering> {
        if self.price.rank() < other.price.rank() {
            Some(Ordering::Less)
        } else if self.price.rank() > other.price.rank() {
            Some(Ordering::Greater)
        } else {
            Some(Ordering::Equal)
        }
    }
}

impl Prioritized for Bid {
    /// The lowest bid leaves the queue first.
    open spec fn priority(&self) -> int {
        -self.price.rank()
    }

    fn outranks(&self, other: &Self) -> (yes: bool) {
        self.price.is_below(&other.price)
    }
}

impl Prioritized for Ask {
    /// The highest ask leaves the queue first.
    open spec fn priority(&self) -> int {
        self.price.rank()
    }

    fn outranks(&self, other: &Self) -> (yes: bool) {
        other.price.is_below(&self.price)
    }
}

} // verus!
