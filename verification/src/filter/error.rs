//! The ways a quantity can break a symbol's trading rules.

use vstd::prelude::*;

verus! {

/// A violated trading rule: a malformed numeric string, too many fractional
/// digits, a lot-size or market-lot-size bound, or a notional bound.
#[derive(Clone, Copy, Debug, PartialEq, Eq, Structural)]
pub enum SymbolFilterError {
    Decimal,
    Precision,
    LotSize,
    Notional,
    MinNotional,
    MarketLotSize,
}

} // verus!
