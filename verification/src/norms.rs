//! Exchange-published trading rules for a symbol.

use crate::decimal::Decimal;
use vstd::prelude::*;

verus! {

/// Bounds and step for the base quantity of a limit-style order.
#[derive(Clone, Copy, Debug)]
pub struct SymbolLotSizeFilter {
    pub min_qty: Decimal,
    pub max_qty: Decimal,
    pub step_size: Decimal,
}

/// Bounds and step for the base quantity of a market order.
#[derive(Clone, Copy, Debug)]
pub struct SymbolMarketLotSizeFilter {
    pub min_qty: Decimal,
    pub max_qty: Decimal,
    pub step_size: Decimal,
}

/// Bounds on the trade value `price * quantity`, each applied to market
/// orders only when its flag is set.
#[derive(Clone, Copy, Debug)]
pub struct SymbolNotionalFilter {
    pub min_notional: Decimal,
    pub max_notional: Decimal,
    pub apply_min_to_market: bool,
    pub apply_max_to_market: bool,
}

/// A lower bound on the trade value, applied to market orders only when its
/// flag is set.
#[derive(Clone, Copy, Debug)]
pub struct SymbolMinNotionalFilter {
    pub min_notional: Decimal,
    pub apply_to_market: bool,
}

/// One named trading rule of a symbol.
#[derive(Clone, Copy, Debug)]
pub enum SymbolFilter {
    LotSize(SymbolLotSizeFilter),
    MarketLotSize(SymbolMarketLotSizeFilter),
    Notional(SymbolNotionalFilter),
    MinNotional(SymbolMinNotionalFilter),
}

/// The trading rules of one symbol: asset precisions and a list of filters.
#[derive(Clone, Debug)]
pub struct SymbolNorms {
    pub symbol: String,
    pub base_asset_precision: u32,
    pub quote_asset_precision: u32,
    pub filters: Vec<SymbolFilter>,
}

} // verus!
