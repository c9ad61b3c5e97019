//! Order-normalization and position-execution engine for spot trading.
//!
//! The engine takes a desired trade together with the exchange's published
//! trading rules for a symbol (lot size, market lot size, notional bounds,
//! precision) and produces a corrected, rule-compliant order quantity; it then
//! executes multi-leg position strategies while tracking running balances and
//! commission-adjusted fills with exact decimal arithmetic.

pub mod api;
pub mod decimal;
pub mod filter;
pub mod math;
pub mod norms;
pub mod order;
pub mod ploy;
pub mod spot;
pub mod time;
pub mod types;
