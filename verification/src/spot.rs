//! Spot-trading capabilities around the filter engine: conversion traits and
//! a deterministic executor that fills orders analytically at a fixed
//! commission rate, for planning and dry runs.

use crate::decimal::{
    iabs, lemma_checked_mul_exact, lemma_mul_fits, lemma_trunc_scale_cases, mul_fits,
    mul_in_range, mul_ok, nmin, pow10, qdiv_units, qmul_units, trunc_units, Decimal, MAX_SCALE,
    UNITS_LIMIT,
};
use crate::filter::error::SymbolFilterError;
use crate::filter::spot_market::base_quantity;
use crate::filter::spot_market::quote_quantity;
use crate::norms::SymbolNorms;
use crate::order::{
    buy_fold, buy_trades_match, sell_fold, sell_trades_match, to_buy_trades, to_sell_trades, Fill,
    OrderFill, Trade as OrderTrade,
};
use crate::ploy::{Trade, TradeSide};
use crate::types::{BaseQuantity, Price, Quantity, QuoteQuantity};
use vstd::prelude::*;

verus! {

/// Turns an executed order's fills into trade records and the net income:
/// base income for a buy, quote income for a sell; `None` when a value
/// leaves the representable range.
pub trait ConvertTrades {
    /// The executed order's direction.
    spec fn spec_side(&self) -> TradeSide;

    /// The executed order's fills.
    spec fn spec_fills(&self) -> Seq<Fill>;

    /// One trade per fill and the net income, folded by the order's side.
    fn to_trades(&self) -> (r: Option<(Vec<OrderTrade>, Quantity)>)
        ensures
            ({
                let fold = if self.spec_side() == TradeSide::Buy {
                    buy_fold(self.spec_fills(), 0, 0)
                } else {
                    sell_fold(self.spec_fills(), 0, 0)
                };
                match fold {
                    None => r is None,
                    Some(t) => {
                        if iabs(t.0 - t.1) <= UNITS_LIMIT as int {
                            &&& r is Some
                            &&& (if self.spec_side() == TradeSide::Buy {
                                buy_trades_match(self.spec_fills(), r->Some_0.0@)
                            } else {
                                sell_trades_match(self.spec_fills(), r->Some_0.0@)
                            })
                            &&& r->Some_0.1.units() == t.0 - t.1
                        } else {
                            r is None
                        }
                    },
                }
            }),
    ;
}

impl ConvertTrades for OrderFill {
    open spec fn spec_side(&self) -> TradeSide {
        self.side
    }

    open spec fn spec_fills(&self) -> Seq<Fill> {
        self.fills@
    }

    fn to_trades(&self) -> (r: Option<(Vec<OrderTrade>, Quantity)>) {
        match self.side {
            TradeSide::Buy => to_buy_trades(&self.fills),
            TradeSide::Sell => to_sell_trades(&self.fills),
        }
    }
}

/// Validation and correction of order quantities against a symbol's rules,
/// as methods of the rules themselves.
pub trait ConvertFilter {
    /// The symbol rules the implementation validates against.
    spec fn spec_norms(&self) -> SymbolNorms;

    /// Accepts a base quantity exactly when its notional is computable and
    /// every base-side rule holds; a notional too large to compute exactly
    /// is reported as a `Decimal` error.
    fn filter_base_quantity(&self, price: &Price, quantity: &BaseQuantity) -> (r: Result<
        (),
        SymbolFilterError,
    >)
        ensures
            !mul_ok(*price, *quantity) ==> r == Result::<(), SymbolFilterError>::Err(
                SymbolFilterError::Decimal,
            ),
            mul_ok(*price, *quantity) ==> {
                &&& (r is Ok <==> base_quantity::base_filter_error(
                    self.spec_norms(),
                    *price,
                    *quantity,
                ) is None)
                &&& (r is Err ==> Some(r->Err_0) == base_quantity::base_filter_error(
                    self.spec_norms(),
                    *price,
                    *quantity,
                ))
            },
    ;

    /// Accepts a quote quantity exactly when every quote-side rule holds.
    fn filter_quote_quantity(&self, price: &Price, quantity: &QuoteQuantity) -> (r: Result<
        (),
        SymbolFilterError,
    >)
        ensures
            r is Ok <==> quote_quantity::quote_filter_error(self.spec_norms(), *quantity) is None,
            r is Err ==> Some(r->Err_0) == quote_quantity::quote_filter_error(
                self.spec_norms(),
                *quantity,
            ),
    ;

    /// The base quantity after step alignment and precision truncation;
    /// correction never fails.
    fn correct_base_quantity(&self, price: &Price, quantity: &BaseQuantity) -> (r: Result<
        BaseQuantity,
        SymbolFilterError,
    >)
        ensures
            r is Ok,
            r->Ok_0.units() == base_quantity::correct_units(self.spec_norms(), *quantity),
            r->Ok_0.spec_scale() == base_quantity::correct_scale(self.spec_norms(), *quantity),
    ;

    /// The quote quantity after precision truncation; correction never
    /// fails.
    fn correct_quote_quantity(&self, price: &Price, quantity: &QuoteQuantity) -> (r: Result<
        QuoteQuantity,
        SymbolFilterError,
    >)
        ensures
            r is Ok,
            r->Ok_0.units() == quote_quantity::quote_correct_units(self.spec_norms(), *quantity),
            r->Ok_0.spec_scale() == nmin(
                quantity.spec_scale(),
                self.spec_norms().quote_asset_precision as nat,
            ),
    ;
}

impl ConvertFilter for SymbolNorms {
    open spec fn spec_norms(&self) -> SymbolNorms {
        *self
    }

    fn filter_base_quantity(&self, price: &Price, quantity: &BaseQuantity) -> (r: Result<
        (),
        SymbolFilterError,
    >) {
        if !mul_in_range(price, quantity) {
            return Err(SymbolFilterError::Decimal);
        }
        base_quantity::filter(self, price, quantity)
    }

    fn filter_quote_quantity(&self, price: &Price, quantity: &QuoteQuantity) -> (r: Result<
        (),
        SymbolFilterError,
    >) {
        quote_quantity::filter(self, price, quantity)
    }

    fn correct_base_quantity(&self, price: &Price, quantity: &BaseQuantity) -> (r: Result<
        BaseQuantity,
        SymbolFilterError,
    >) {
        base_quantity::correct(self, price, quantity)
    }

    fn correct_quote_quantity(&self, price: &Price, quantity: &QuoteQuantity) -> (r: Result<
        QuoteQuantity,
        SymbolFilterError,
    >) {
        quote_quantity::correct(self, price, quantity)
    }
}

/// A deterministic spot executor: corrects and validates each quantity
/// against the symbol's rules, then computes the fill analytically at a
/// fixed commission rate instead of reaching an exchange.
pub struct BinanceSpotTest {
    normal: SymbolNorms,
    commission: Decimal,
}

/// The proceeds of an analytic fill: the given value, less the commission
/// rate, truncated at the asset precision; all in units.
pub open spec fn sim_proceeds_units(gross: int, commission: Decimal, precision: nat) -> int {
    trunc_units(
        qmul_units(gross, pow10(MAX_SCALE as nat) - commission.units()),
        (MAX_SCALE - nmin(precision, MAX_SCALE as nat)) as nat,
    )
}

/// The arithmetic of an analytic fill stays representable: the commission
/// complement is in range and the product of the gross value with it fits
/// the machine.
pub open spec fn sim_fill_fits(gross: int, gross_scale: nat, commission: Decimal) -> bool {
    let omcu = pow10(MAX_SCALE as nat) - commission.units();
    &&& iabs(omcu) <= UNITS_LIMIT as int
    &&& mul_fits(gross, gross_scale, omcu, commission.spec_scale())
}

impl BinanceSpotTest {
    /// The symbol rules the executor validates against.
    pub closed spec fn spec_normal(self) -> SymbolNorms {
        self.normal
    }

    /// The commission rate withheld from every fill.
    pub closed spec fn spec_commission(self) -> Decimal {
        self.commission
    }

    /// An executor for one symbol's rules at a fixed commission rate.
    pub fn new(normal: SymbolNorms, commission: Decimal) -> (r: Self)
        ensures
            r.spec_normal() == normal,
            r.spec_commission() == commission,
    {
        Self { normal, commission }
    }

    /// Buys base with the corrected quote quantity at the given price: the
    /// base received is `quote / price` less the commission rate, truncated
    /// at the base-asset precision; the trade records the quote spent.  A
    /// filter violation comes back as that filter's error; a zero price or a
    /// value out of the representable range as the `Decimal` error; success
    /// is owed otherwise.
    pub fn buy(&self, price: &Price, quantity: &QuoteQuantity) -> (r: Result<
        Vec<Trade>,
        SymbolFilterError,
    >)
        ensures
            ({
                let nrm = self.spec_normal();
                let cqu = quote_quantity::quote_correct_units(nrm, *quantity);
                let d = qdiv_units(cqu, price.units());
                match quote_quantity::quote_filters_error(nrm.filters@, cqu) {
                    Some(fe) => r == Result::<Vec<Trade>, SymbolFilterError>::Err(fe),
                    None => {
                        if price.units() != 0 && iabs(d) <= UNITS_LIMIT as int && sim_fill_fits(
                            d,
                            MAX_SCALE as nat,
                            self.spec_commission(),
                        ) {
                            &&& r is Ok
                            &&& r->Ok_0@.len() == 1
                            &&& r->Ok_0@[0].side == TradeSide::Buy
                            &&& r->Ok_0@[0].price == *price
                            &&& r->Ok_0@[0].quote_quantity_commission.units() == cqu
                            &&& r->Ok_0@[0].quote_quantity_commission.spec_scale() == nmin(
                                quantity.spec_scale(),
                                nrm.quote_asset_precision as nat,
                            )
                            &&& r->Ok_0@[0].base_quantity.units() == sim_proceeds_units(
                                d,
                                self.spec_commission(),
                                nrm.base_asset_precision as nat,
                            )
                        } else {
                            r == Result::<Vec<Trade>, SymbolFilterError>::Err(
                                SymbolFilterError::Decimal,
                            )
                        }
                    },
                }
            }),
    {
        let quote_quantity = match quote_quantity::correct(&self.normal, price, quantity) {
            Ok(v) => v,
            Err(e) => {
                return Err(e);
            },
        };
        if let Err(e) = quote_quantity::filter(&self.normal, price, &quote_quantity) {
            return Err(e);
        }
        let expected = match quote_quantity.checked_div(price) {
            Some(v) => v,
            None => {
                return Err(SymbolFilterError::Decimal);
            },
        };
        let one_less_commission = match Decimal::one().checked_sub(&self.commission) {
            Some(v) => v,
            None => {
                return Err(SymbolFilterError::Decimal);
            },
        };
        proof {
            use_type_invariant(&expected);
            use_type_invariant(&one_less_commission);
            lemma_mul_fits(expected, one_less_commission);
        }
        let gross = match expected.checked_mul(&one_less_commission) {
            Some(v) => v,
            None => {
                return Err(SymbolFilterError::Decimal);
            },
        };
        let base_quantity = gross.trunc_with_scale(self.normal.base_asset_precision);
        proof {
            lemma_trunc_scale_cases(gross, self.normal.base_asset_precision as nat);
        }
        let trade = Trade::with_buy(price.clone(), base_quantity, quote_quantity);
        Ok(vec![trade])
    }

    /// Sells the corrected base quantity at the given price: the quote
    /// received is `base * price` less the commission rate, truncated at the
    /// quote-asset precision; the trade records the quote received.  A
    /// notional too large to compute exactly or a value out of the
    /// representable range comes back as the `Decimal` error; a filter
    /// violation as that filter's error; success is owed otherwise.
    pub fn sell(&self, price: &Price, quantity: &BaseQuantity) -> (r: Result<
        Vec<Trade>,
        SymbolFilterError,
    >)
        ensures
            ({
                let nrm = self.spec_normal();
                let cbu = base_quantity::correct_units(nrm, *quantity);
                let cbs = base_quantity::correct_scale(nrm, *quantity);
                let nu = qmul_units(cbu, price.units());
                if !(price.spec_scale() + cbs <= MAX_SCALE as nat && iabs(
                    price.units() * cbu,
                ) <= UNITS_LIMIT as int * pow10(MAX_SCALE as nat)) {
                    r == Result::<Vec<Trade>, SymbolFilterError>::Err(SymbolFilterError::Decimal)
                } else {
                    match base_quantity::filters_error(nrm.filters@, price.units(), cbu) {
                        Some(fe) => r == Result::<Vec<Trade>, SymbolFilterError>::Err(fe),
                        None => {
                            if sim_fill_fits(
                                nu,
                                (cbs + price.spec_scale()) as nat,
                                self.spec_commission(),
                            ) {
                                &&& r is Ok
                                &&& r->Ok_0@.len() == 1
                                &&& r->Ok_0@[0].side == TradeSide::Sell
                                &&& r->Ok_0@[0].price == *price
                                &&& r->Ok_0@[0].base_quantity.units() == cbu
                                &&& r->Ok_0@[0].base_quantity.spec_scale() == cbs
                                &&& r->Ok_0@[0].quote_quantity_commission.units()
                                    == sim_proceeds_units(
                                    nu,
                                    self.spec_commission(),
                                    nrm.quote_asset_precision as nat,
                                )
                            } else {
                                r == Result::<Vec<Trade>, SymbolFilterError>::Err(
                                    SymbolFilterError::Decimal,
                                )
                            }
                        },
                    }
                }
            }),
    {
        let base_quantity = match base_quantity::correct(&self.normal, price, quantity) {
            Ok(v) => v,
            Err(e) => {
                return Err(e);
            },
        };
        if !mul_in_range(price, &base_quantity) {
            return Err(SymbolFilterError::Decimal);
        }
        if let Err(e) = base_quantity::filter(&self.normal, price, &base_quantity) {
            return Err(e);
        }
        proof {
            use_type_invariant(price);
            use_type_invariant(&base_quantity);
            assert(base_quantity.units() * price.units() == price.units()
                * base_quantity.units()) by (nonlinear_arith);
            lemma_checked_mul_exact(base_quantity, *price);
        }
        let notional = match base_quantity.checked_mul(price) {
            Some(v) => v,
            None => {
                return Err(SymbolFilterError::Decimal);  // unreachable: the product is in range
            },
        };
        let one_less_commission = match Decimal::one().checked_sub(&self.commission) {
            Some(v) => v,
            None => {
                return Err(SymbolFilterError::Decimal);
            },
        };
        proof {
            use_type_invariant(&notional);
            use_type_invariant(&one_less_commission);
            lemma_mul_fits(notional, one_less_commission);
        }
        let gross = match notional.checked_mul(&one_less_commission) {
            Some(v) => v,
            None => {
                return Err(SymbolFilterError::Decimal);
            },
        };
        let quote_quantity = gross.trunc_with_scale(self.normal.quote_asset_precision);
        proof {
            lemma_trunc_scale_cases(gross, self.normal.quote_asset_precision as nat);
        }
        let trade = Trade::with_sell(price.clone(), base_quantity, quote_quantity);
        Ok(vec![trade])
    }
}

} // verus!
