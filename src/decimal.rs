//! Decimal prices, held as a mantissa and a decimal scale, with the arithmetic
//! and ordering that the aggregation needs, computed by `rust_decimal`.

use rust_decimal::Decimal;
use vstd::prelude::*;

verus! {

/// The largest number of decimal places that a price may carry.
pub const MAX_SCALE: u32 = 28;

/// The largest magnitude of a mantissa: 96 bits.
pub const MAX_MANTISSA: i128 = 0xFFFF_FFFF_FFFF_FFFF_FFFF_FFFF;

/// A decimal number `mantissa / 10^scale`.
#[derive(Clone, Copy, Debug, PartialEq, Eq, Structural)]
pub struct Price {
    pub mantissa: i128,
    pub scale: u32,
}

/// `10^n`.
pub open spec fn pow10(n: nat) -> int
    decreases n,
{
    if n == 0 {
        1
    } else {
        10 * pow10((n - 1) as nat)
    }
}

impl Price {
    /// The price can be represented by a `rust_decimal::Decimal`.
    pub open spec fn wf(self) -> bool {
        &&& self.scale <= MAX_SCALE
        &&& -MAX_MANTISSA <= self.mantissa <= MAX_MANTISSA
    }

    /// The price's value in units of `10^-28`, which is exact for every
    /// well-formed price.
    pub open spec fn units(self) -> int {
        self.mantissa * pow10((MAX_SCALE - self.scale) as nat)
    }

    /// Makes the price `mantissa / 10^scale`, if it is representable.
    pub fn new(mantissa: i128, scale: u32) -> (r: Option<Price>)
        ensures
            r is Some <==> (Price { mantissa, scale }).wf(),
            r matches Some(p) ==> p == (Price { mantissa, scale }),
    {
        if scale <= MAX_SCALE && -MAX_MANTISSA <= mantissa && mantissa <= MAX_MANTISSA {
            Some(Price { mantissa, scale })
        } else {
            None
        }
    }
}

/// What `rust_decimal::Decimal::checked_add` returns for two prices.
pub uninterp spec fn checked_sum_of(a: Price, b: Price) -> Option<Price>;

/// What `rust_decimal::Decimal::checked_div` returns when a price is divided by two.
pub uninterp spec fn checked_half_of(a: Price) -> Option<Price>;

/// Relies on `Decimal::from_i128_with_scale`, which is exact for well-formed
/// prices, and on `Decimal`'s `Ord`, which orders decimals by value.
#[verifier::external_body]
pub(crate) fn price_le(a: &Price, b: &Price) -> (r: bool)
    requires
        a.wf(),
        b.wf(),
    ensures
        r == (a.units() <= b.units()),
{
    let x = Decimal::from_i128_with_scale(a.mantissa, a.scale);
    let y = Decimal::from_i128_with_scale(b.mantissa, b.scale);
    x.le(&y)
}

/// Relies on `Decimal::checked_add`: the sum, or `None` on overflow. A decimal
/// always has a scale of at most 28 and a 96-bit mantissa.
#[verifier::external_body]
pub(crate) fn checked_sum(a: &Price, b: &Price) -> (r: Option<Price>)
    requires
        a.wf(),
        b.wf(),
    ensures
        r == checked_sum_of(*a, *b),
        r matches Some(s) ==> s.wf(),
{
    let x = Decimal::from_i128_with_scale(a.mantissa, a.scale);
    let y = Decimal::from_i128_with_scale(b.mantissa, b.scale);
    x.checked_add(y).map(|s| Price { mantissa: s.mantissa(), scale: s.scale() })
}

/// Relies on `Decimal::checked_div` with the divisor `Decimal::TWO`: the
/// quotient, or `None` on overflow. A decimal always has a scale of at most 28
/// and a 96-bit mantissa.
#[verifier::external_body]
pub(crate) fn checked_half(a: &Price) -> (r: Option<Price>)
    requires
        a.wf(),
    ensures
        r == checked_half_of(*a),
        r matches Some(s) ==> s.wf(),
{
    let x = Decimal::from_i128_with_scale(a.mantissa, a.scale);
    x.checked_div(Decimal::TWO).map(|s| Price { mantissa: s.mantissa(), scale: s.scale() })
}

} // verus!
