use crate::error::LandError;
use vstd::prelude::*;

verus! {

/// Tax rates are given in hundredths of a percent: 10000 is the whole
/// amount.
pub const TAX_RATE_SCALE: u64 = 10000;

/// The tax on `amount` at `tax_rate`, rounded down, or `None` where
/// `amount * tax_rate` does not fit in a `u64`.
pub open spec fn tax_due(amount: u64, tax_rate: u64) -> Option<int> {
    if amount * tax_rate <= u64::MAX {
        Some((amount * tax_rate) / (TAX_RATE_SCALE as int))
    } else {
        None
    }
}

/// The tax on `amount` at `tax_rate` hundredths of a percent, rounded
/// down. Fails where the product of the two leaves the range of a `u64`.
pub fn calculate_tax(amount: u64, tax_rate: u64) -> (tax: Result<u64, LandError>)
    ensures
        match tax_due(amount, tax_rate) {
            Some(t) => tax == Ok::<u64, LandError>(t as u64),
            None => tax == Err::<u64, LandError>(LandError::CalculationError),
        },
{
    match amount.checked_mul(tax_rate) {
        Some(product) => Ok(product / TAX_RATE_SCALE),
        None => Err(LandError::CalculationError),
    }
}

/// One more factor on a running product: `None` once the product no longer
/// fits in a `u64`, and from then on.
pub open spec fn checked_times(product: Option<int>, factor: u64) -> Option<int> {
    match product {
        Some(p) => if p * factor <= u64::MAX {
            Some(p * factor)
        } else {
            None
        },
        None => None,
    }
}

/// The price of a rectangle of `width` by `height` units at `unit_price`,
/// multiplied out from left to right with every step checked.
pub open spec fn area_price(unit_price: u64, width: u64, height: u64) -> Option<int> {
    checked_times(checked_times(Some(unit_price as int), width), height)
}

/// The price of a rectangle, with every multiplication checked.
pub fn price_of_area(unit_price: u64, width: u64, height: u64) -> (p: Option<u64>)
    ensures
        match area_price(unit_price, width, height) {
            Some(v) => p == Some(v as u64) && v == unit_price * width * height,
            None => p is None,
        },
{
    match unit_price.checked_mul(width) {
        None => None,
        Some(row) => row.checked_mul(height),
    }
}

} // verus!
