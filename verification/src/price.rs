//! Prices as IEEE-754 binary64 bit patterns.
//!
//! The engine never does arithmetic on a price; it only compares prices and
//! hands them back. A price is therefore stored as the 64 bits of the
//! floating-point number it came from, and compared through its *rank*: the
//! signed magnitude of those bits. For finite numbers the rank orders bit
//! patterns exactly as the numbers themselves are ordered, with the two
//! zeroes sharing rank 0.

use vstd::prelude::*;
use std::cmp::Ordering;
use crate::error::MarketError;

verus! {

/// The bit that carries the sign.
pub const SIGN_BIT: u64 = 0x8000_0000_0000_0000;

/// The magnitude of infinity: every larger magnitude is a NaN.
pub const INFINITY_MAGNITUDE: u64 = 0x7ff0_0000_0000_0000;

/// The bits without the sign.
pub open spec fn magnitude_of(bits: u64) -> int {
    if bits >= SIGN_BIT {
        bits - SIGN_BIT
    } else {
        bits as int
    }
}

/// Whether the bits have the sign set.
pub open spec fn is_negative(bits: u64) -> bool {
    bits >= SIGN_BIT
}

/// Whether the bits stand for a finite number: neither an infinity nor a NaN.
pub open spec fn is_finite_bits(bits: u64) -> bool {
    magnitude_of(bits) < INFINITY_MAGNITUDE
}

/// The position of the bits in the order of the numbers they stand for.
pub open spec fn rank_of(bits: u64) -> int {
    if is_negative(bits) {
        -magnitude_of(bits)
    } else {
        magnitude_of(bits)
    }
}

/// Splits the bits into sign and magnitude.
fn split(bits: u64) -> (parts: (bool, u64))
    ensures
        parts.0 == is_negative(bits),
        parts.1 == magnitude_of(bits),
{
    if bits >= SIGN_BIT {
        (true, bits - SIGN_BIT)
    } else {
        (false, bits)
    }
}

/// Tells whether the bits stand for a finite number.
pub fn finite(bits: u64) -> (yes: bool)
    ensures
        yes == is_finite_bits(bits),
{
    let (_, magnitude) = split(bits);
    magnitude < INFINITY_MAGNITUDE
}

/// A finite price.
#[derive(Debug, Clone, Copy)]
pub struct Price {
    bits: u64,
}

impl Price {
    #[verifier::type_invariant]
    spec fn is_finite(self) -> bool {
        is_finite_bits(self.bits)
    }

    /// The bit pattern of the price.
    pub closed spec fn bits(self) -> u64 {
        self.bits
    }

    /// The price with the given bit pattern.
    pub closed spec fn with_bits(bits: u64) -> Price {
        Price { bits }
    }

    /// A price is its bit pattern and nothing more.
    pub proof fn lemma_bits(bits: u64, price: Price)
        ensures
            Price::with_bits(bits).bits() == bits,
            Price::with_bits(price.bits()) == price,
    {
    }

    /// The position of the price in the order of prices.
    pub open spec fn rank(self) -> int {
        rank_of(self.bits())
    }

    /// Admits the bits as a price when they stand for a finite number.
    pub fn from_bits(bits: u64) -> (made: Result<Price, MarketError>)
        ensures
            is_finite_bits(bits) ==> made == Ok::<Price, MarketError>(Price::with_bits(bits)),
            !is_finite_bits(bits) ==> made == Err::<Price, MarketError>(MarketError::InvalidPrice),
    {
        if finite(bits) {
            Ok(Price { bits })
        } else {
            Err(MarketError::InvalidPrice)
        }
    }

    /// The bit pattern of the price.
    pub fn to_bits(&self) -> (bits: u64)
        ensures
            bits == self.bits(),
            is_finite_bits(bits),
    {
        proof {
            use_type_invariant(self);
        }
        self.bits
    }

    /// Whether this price is strictly lower than the other.
    pub fn is_below(&self, other: &Price) -> (lower: bool)
        ensures
            lower == (self.rank() < other.rank()),
    {
        let (mine_negative, mine) = split(self.bits);
        let (theirs_negative, theirs) = split(other.bits);
        if mine_negative {
            if theirs_negative {
                mine > theirs
            } else {
                mine > 0 || theirs > 0
            }
        } else {
            if theirs_negative {
                false
            } else {
                mine < theirs
            }
        }
    }

    /// Whether this price is the other or higher.
    pub fn is_at_least(&self, other: &Price) -> (reaches: bool)
        ensures
            reaches == (self.rank() >= other.rank()),
    {
        !self.is_below(other)
    }

    /// Whether both prices stand for the same number.
    pub fn is_same(&self, other: &Price) -> (same: bool)
        ensures
            same == (self.rank() == other.rank()),
    {
        !self.is_below(other) && !other.is_below(self)
    }
}

/// Two prices are equal when they stand for the same number: the two zeroes
/// are equal though their bits differ.
impl PartialEq for Price {
    fn eq(&self, other: &Self) -> (same: bool) {
        self.is_same(other)
    }
}

impl vstd::std_specs::cmp::PartialEqSpecImpl for Price {
    open spec fn obeys_eq_spec() -> bool {
        true
    }

    open spec fn eq_spec(&self, other: &Self) -> bool {
        self.rank() == other.rank()
    }
}

/// Prices are ordered as the numbers they stand for.
impl PartialOrd for Price {
    fn partial_cmp(&self, other: &Self) -> (order: Option<Ordering>) {
        if self.is_below(other) {
            Some(Ordering::Less)
        } else if other.is_below(self) {
            Some(Ordering::Greater)
        } else {
            Some(Ordering::Equal)
        }
    }
}

impl vstd::std_specs::cmp::PartialOrdSpecImpl for Price {
    open spec fn obeys_partial_cmp_spec() -> bool {
        true
    }

    open spec fn partial_cmp_spec(&self, other: &Self) -> Option<Ordering> {
        if self.rank() < other.rank() {
            Some(Ordering::Less)
        } else if self.rank() > other.rank() {
            Some(Ordering::Greater)
        } else {
            Some(Ordering::Equal)
        }
    }
}

} // verus!
