//! Conversion between astronomical units and metres.

use vstd::prelude::*;
use crate::decimal::{decimal_view, digits_value, valid_parts, Decimal, DecimalModel};

verus! {

/// The digits of one astronomical unit in metres.
pub open spec fn au_digits() -> Seq<u64> {
    seq![1, 4, 9, 5, 9, 7, 8, 7, 0, 6, 9, 1]
}

/// One astronomical unit: 149 597 870 691 metres, to twelve digits.
pub open spec fn au_metres() -> DecimalModel {
    DecimalModel { significand: digits_value(au_digits()) as int, exponent: 0, precision: 12 }
}

/// One astronomical unit in metres.
pub fn au_meters_constant() -> (r: Decimal)
    ensures
        r@ == au_metres(),
{
    let digits: Vec<u64> = vec![1, 4, 9, 5, 9, 7, 8, 7, 0, 6, 9, 1];
    assert(digits@ =~= au_digits());
    assert(valid_parts(false, digits@, 0, 12));
    match Decimal::from_digits(false, digits, 0, 12) {
        Some(r) => r,
        None => Decimal::zero(),
    }
}

/// A length in astronomical units, in metres.
pub fn au_to_meters(au: Decimal) -> (r: Option<Decimal>)
    ensures
        decimal_view(r) == au@.times(au_metres()),
{
    au.mul(&au_meters_constant())
}

/// A length in metres, in astronomical units.
pub fn meters_to_au(meters: Decimal) -> (r: Option<Decimal>)
    ensures
        decimal_view(r) == meters@.over(au_metres()),
{
    meters.div(&au_meters_constant())
}

} // verus!
