//! The filter engine: validation and correction of order quantities against
//! a symbol's trading rules.

pub mod error;
pub mod spot_market;

use crate::decimal::{nmin, trunc_units, Decimal, MAX_SCALE};
use crate::types::Quantity;
use error::SymbolFilterError;
use vstd::prelude::*;

verus! {

/// Outcome of applying a trading rule.
pub type SymbolFilterResult<T> = Result<T, SymbolFilterError>;

/// Accepts a quantity exactly when it carries no more fractional digits than
/// the asset's precision allows.
pub fn filter_precision<'a>(quantity: &'a Quantity, precision: u32) -> (r: SymbolFilterResult<
    &'a Quantity,
>)
    ensures
        quantity.spec_scale() <= precision as nat ==> r == SymbolFilterResult::Ok(quantity),
        quantity.spec_scale() > precision as nat ==> r == SymbolFilterResult::<&'a Quantity>::Err(
            SymbolFilterError::Precision,
        ),
{
    let scale = quantity.scale();
    if scale > precision {
        return Err(SymbolFilterError::Precision);
    }
    Ok(quantity)
}

/// The quantity truncated toward zero at the asset's precision.
pub fn correct_precision(quantity: &Quantity, precision: u32) -> (r: Quantity)
    ensures
        r.spec_scale() == nmin(quantity.spec_scale(), precision as nat),
        r.spec_scale() <= precision as nat,
        r.units() == trunc_units(
            quantity.units(),
            (MAX_SCALE - nmin(quantity.spec_scale(), precision as nat)) as nat,
        ),
{
    quantity.trunc_with_scale(precision)
}

} // verus!
