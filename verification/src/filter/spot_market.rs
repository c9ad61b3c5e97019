//! Filters and corrections for spot market orders, by the currency the
//! quantity is expressed in.

pub mod base_quantity;
pub mod quote_quantity;
