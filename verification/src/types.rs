//! Aliases naming the roles a [`Decimal`] plays in the engine.

use crate::decimal::Decimal;
use vstd::prelude::*;

verus! {

/// A market price, in quote currency per unit of base currency.
pub type Price = Decimal;

/// An order quantity, in base or quote currency depending on context.
pub type Quantity = Decimal;

/// A quantity of the base asset.
pub type BaseQuantity = Decimal;

/// A quantity of the quote asset.
pub type QuoteQuantity = Decimal;

} // verus!

