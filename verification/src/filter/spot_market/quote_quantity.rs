//! Validation and correction of a quote-currency quantity for a market
//! order.  A quote quantity is already a trade value, so notional bounds
//! compare it directly, without a multiplication by price.

use crate::decimal::{lemma_trunc_scale_cases, nmin, trunc_units, Decimal, MAX_SCALE};
use crate::filter::error::SymbolFilterError;
use crate::filter::{correct_precision, filter_precision, SymbolFilterResult};
use crate::norms::{SymbolFilter, SymbolMinNotionalFilter, SymbolNotionalFilter, SymbolNorms};
use crate::types::{Price, Quantity};
use vstd::prelude::*;

verus! {

/// The quote quantity value respects the bounds whose market flag is set.
pub open spec fn quote_notional_ok(qu: int, f: SymbolNotionalFilter) -> bool {
    &&& (f.apply_max_to_market ==> qu <= f.max_notional.units())
    &&& (f.apply_min_to_market ==> qu >= f.min_notional.units())
}

/// The quote quantity value reaches the minimum when the market flag is set.
pub open spec fn quote_min_notional_ok(qu: int, f: SymbolMinNotionalFilter) -> bool {
    f.apply_to_market ==> qu >= f.min_notional.units()
}

/// The first rule a quote quantity breaks among the filters, in order; only
/// notional and min-notional rules apply to quote quantities.
pub open spec fn quote_filters_error(fs: Seq<SymbolFilter>, qu: int) -> Option<
    SymbolFilterError,
>
    decreases fs.len(),
{
    if fs.len() == 0 {
        None
    } else {
        let head = match fs[0] {
            SymbolFilter::Notional(f) => if quote_notional_ok(qu, f) {
                None
            } else {
                Some(SymbolFilterError::Notional)
            },
            SymbolFilter::MinNotional(f) => if quote_min_notional_ok(qu, f) {
                None
            } else {
                Some(SymbolFilterError::MinNotional)
            },
            _ => None,
        };
        if head is Some {
            head
        } else {
            quote_filters_error(fs.skip(1), qu)
        }
    }
}

/// The first rule the quote quantity breaks: the quote-asset precision, else
/// a filter in order.
pub open spec fn quote_filter_error(norms: SymbolNorms, q: Decimal) -> Option<SymbolFilterError> {
    if q.spec_scale() > norms.quote_asset_precision as nat {
        Some(SymbolFilterError::Precision)
    } else {
        quote_filters_error(norms.filters@, q.units())
    }
}

/// The quote quantity after correction: truncation at the quote-asset
/// precision.
pub open spec fn quote_correct_units(norms: SymbolNorms, q: Decimal) -> int {
    trunc_units(
        q.units(),
        (MAX_SCALE - nmin(norms.quote_asset_precision as nat, MAX_SCALE as nat)) as nat,
    )
}

/// Accepts a quote quantity exactly when it carries no more fractional
/// digits than the quote-asset precision and respects every notional rule.
pub fn filter(norms: &SymbolNorms, _price: &Price, quantity: &Quantity) -> (r: SymbolFilterResult<
    (),
>)
    ensures
        r is Ok <==> quote_filter_error(*norms, *quantity) is None,
        r is Err ==> Some(r->Err_0) == quote_filter_error(*norms, *quantity),
{
    let precision = norms.quote_asset_precision;
    if let Err(e) = filter_precision(quantity, precision) {
        return Err(e);
    }
    let len = norms.filters.len();
    let mut i: usize = 0;
    proof {
        assert(norms.filters@.skip(0) =~= norms.filters@);
    }
    while i < len
        invariant
            i <= len,
            len == norms.filters@.len(),
            quantity.spec_scale() <= norms.quote_asset_precision as nat,
            quote_filters_error(norms.filters@.skip(i as int), quantity.units())
                == quote_filters_error(norms.filters@, quantity.units()),
        ensures
            i == len,
            quote_filters_error(norms.filters@, quantity.units()) is None,
        decreases len - i,
    {
        proof {
            assert(norms.filters@.skip(i as int)[0] == norms.filters@[i as int]);
            assert(norms.filters@.skip(i as int).skip(1) =~= norms.filters@.skip(i as int + 1));
        }
        let result: SymbolFilterResult<()> = match &norms.filters[i] {
            SymbolFilter::Notional(f) => match filter_notional(quantity, f) {
                Ok(_) => Ok(()),
                Err(e) => Err(e),
            },
            SymbolFilter::MinNotional(f) => match filter_min_notional(quantity, f) {
                Ok(_) => Ok(()),
                Err(e) => Err(e),
            },
            _ => Ok(()),
        };
        if let Err(e) = result {
            return Err(e);
        }
        i = i + 1;
    }
    proof {
        assert(norms.filters@.skip(len as int) =~= Seq::<SymbolFilter>::empty());
    }
    Ok(())
}

/// The quote quantity truncated at the quote-asset precision; a quote
/// quantity has no lot-size step, and correction never fails.
pub fn correct(norms: &SymbolNorms, _price: &Price, quantity: &Quantity) -> (r: SymbolFilterResult<
    Quantity,
>)
    ensures
        r is Ok,
        r->Ok_0.units() == quote_correct_units(*norms, *quantity),
        r->Ok_0.spec_scale() == nmin(quantity.spec_scale(), norms.quote_asset_precision as nat),
        r->Ok_0.spec_scale() <= norms.quote_asset_precision as nat,
{
    let precision = norms.quote_asset_precision;
    let correct_quantity = correct_precision(quantity, precision);
    proof {
        use_type_invariant(quantity);
        lemma_trunc_scale_cases(*quantity, precision as nat);
    }
    Ok(correct_quantity)
}

/// Accepts a quote quantity exactly when it reaches the minimum notional
/// while the market flag is set.
pub fn filter_min_notional<'a>(quantity: &'a Quantity, filter: &SymbolMinNotionalFilter) -> (r:
    SymbolFilterResult<&'a Quantity>)
    ensures
        r is Ok <==> quote_min_notional_ok(quantity.units(), *filter),
        r is Ok ==> r->Ok_0 == quantity,
        r is Err ==> r->Err_0 == SymbolFilterError::MinNotional,
{
    if !filter.apply_to_market {
        return Ok(quantity);
    }
    if quantity.lt(&filter.min_notional) {
        return Err(SymbolFilterError::MinNotional);
    }
    Ok(quantity)
}

/// Accepts a quote quantity exactly when it respects each notional bound
/// whose market flag is set.
pub fn filter_notional<'a>(quantity: &'a Quantity, filter: &SymbolNotionalFilter) -> (r:
    SymbolFilterResult<&'a Quantity>)
    ensures
        r is Ok <==> quote_notional_ok(quantity.units(), *filter),
        r is Ok ==> r->Ok_0 == quantity,
        r is Err ==> r->Err_0 == SymbolFilterError::Notional,
{
    if filter.apply_max_to_market {
        if quantity.gt(&filter.max_notional) {
            return Err(SymbolFilterError::Notional);
        }
    }
    if filter.apply_min_to_market {
        if quantity.lt(&filter.min_notional) {
            return Err(SymbolFilterError::Notional);
        }
    }
    Ok(quantity)
}

} // verus!
