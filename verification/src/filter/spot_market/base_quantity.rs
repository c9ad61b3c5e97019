//! Validation and correction of a base-currency quantity for a market order.

use crate::decimal::{
    iabs, lemma_align, lemma_checked_mul_exact, lemma_pow10_pos, lemma_tmod_cases,
    lemma_trunc_scale_cases, lemma_trunc_units_multiple, mul_ok, qmul_units, nmax, nmin, pow10,
    tdiv, tmod, trunc_units, Decimal, MAX_SCALE,
};
use crate::filter::error::SymbolFilterError;
use crate::filter::{correct_precision, filter_precision, SymbolFilterResult};
use crate::norms::{
    SymbolFilter, SymbolLotSizeFilter, SymbolMarketLotSizeFilter, SymbolNotionalFilter,
    SymbolNorms,
};
use crate::types::{Price, Quantity};
use vstd::arithmetic::div_mod::lemma_mod_multiples_basic;
use vstd::prelude::*;

verus! {

/// The quantity value lies within the lot-size bounds and, for a nonzero
/// step, on a multiple of it.
pub open spec fn lot_size_ok(qu: int, f: SymbolLotSizeFilter) -> bool {
    &&& qu <= f.max_qty.units()
    &&& qu >= f.min_qty.units()
    &&& (f.step_size.units() != 0 ==> tmod(qu, iabs(f.step_size.units())) == 0)
}

/// The quantity value lies within the market lot-size bounds; the step is
/// not checked for market orders.
pub open spec fn market_lot_size_ok(qu: int, f: SymbolMarketLotSizeFilter) -> bool {
    &&& qu <= f.max_qty.units()
    &&& qu >= f.min_qty.units()
}

/// The trade value `price * quantity` respects the bounds whose market flag
/// is set.
pub open spec fn notional_ok(pu: int, qu: int, f: SymbolNotionalFilter) -> bool {
    &&& (f.apply_max_to_market ==> qmul_units(pu, qu) <= f.max_notional.units())
    &&& (f.apply_min_to_market ==> qmul_units(pu, qu) >= f.min_notional.units())
}

/// The first rule a base quantity value breaks among the filters, in order;
/// min-notional rules do not apply to base quantities.
pub open spec fn filters_error(fs: Seq<SymbolFilter>, pu: int, qu: int) -> Option<
    SymbolFilterError,
>
    decreases fs.len(),
{
    if fs.len() == 0 {
        None
    } else {
        let head = match fs[0] {
            SymbolFilter::LotSize(f) => if lot_size_ok(qu, f) {
                None
            } else {
                Some(SymbolFilterError::LotSize)
            },
            SymbolFilter::Notional(f) => if notional_ok(pu, qu, f) {
                None
            } else {
                Some(SymbolFilterError::Notional)
            },
            SymbolFilter::MarketLotSize(f) => if market_lot_size_ok(qu, f) {
                None
            } else {
                Some(SymbolFilterError::MarketLotSize)
            },
            SymbolFilter::MinNotional(_) => None,
        };
        if head is Some {
            head
        } else {
            filters_error(fs.skip(1), pu, qu)
        }
    }
}

/// The first rule the base quantity breaks: a filter in order, else the
/// base-asset precision.
pub open spec fn base_filter_error(norms: SymbolNorms, price: Decimal, q: Decimal) -> Option<
    SymbolFilterError,
> {
    match filters_error(norms.filters@, price.units(), q.units()) {
        Some(e) => Some(e),
        None => if q.spec_scale() <= norms.base_asset_precision as nat {
            None
        } else {
            Some(SymbolFilterError::Precision)
        },
    }
}

/// The value rounded toward zero onto a multiple of the step; a zero step
/// changes nothing.
pub open spec fn step_align(u: int, s: int) -> int {
    if s != 0 {
        u - tmod(u, iabs(s))
    } else {
        u
    }
}

/// The value after every lot-size and market-lot-size step alignment, in
/// filter order.
pub open spec fn align_units(fs: Seq<SymbolFilter>, u: int) -> int
    decreases fs.len(),
{
    if fs.len() == 0 {
        u
    } else {
        let u1 = match fs[0] {
            SymbolFilter::LotSize(f) => step_align(u, f.step_size.units()),
            SymbolFilter::MarketLotSize(f) => step_align(u, f.step_size.units()),
            _ => u,
        };
        align_units(fs.skip(1), u1)
    }
}

/// The scale after every step alignment, in filter order: aligning at a
/// nonzero step raises the scale to at least the step's own.
pub open spec fn align_scale(fs: Seq<SymbolFilter>, s: nat) -> nat
    decreases fs.len(),
{
    if fs.len() == 0 {
        s
    } else {
        let s1 = match fs[0] {
            SymbolFilter::LotSize(f) => if f.step_size.units() != 0 {
                nmax(s, f.step_size.spec_scale())
            } else {
                s
            },
            SymbolFilter::MarketLotSize(f) => if f.step_size.units() != 0 {
                nmax(s, f.step_size.spec_scale())
            } else {
                s
            },
            _ => s,
        };
        align_scale(fs.skip(1), s1)
    }
}

/// The scale the corrected base quantity carries.
pub open spec fn correct_scale(norms: SymbolNorms, q: Decimal) -> nat {
    nmin(
        align_scale(norms.filters@, q.spec_scale()),
        norms.base_asset_precision as nat,
    )
}

/// The base quantity after correction: every step alignment, then truncation
/// at the base-asset precision.
pub open spec fn correct_units(norms: SymbolNorms, q: Decimal) -> int {
    trunc_units(
        align_units(norms.filters@, q.units()),
        (MAX_SCALE - nmin(norms.base_asset_precision as nat, MAX_SCALE as nat)) as nat,
    )
}

/// The step size a filter imposes, or zero when it imposes none.
pub open spec fn step_units_of(f: SymbolFilter) -> int {
    match f {
        SymbolFilter::LotSize(l) => l.step_size.units(),
        SymbolFilter::MarketLotSize(m) => m.step_size.units(),
        _ => 0,
    }
}

/// The last nonzero step size among the filters, or zero when none carries
/// one.
pub open spec fn last_nonzero_step(fs: Seq<SymbolFilter>) -> int
    decreases fs.len(),
{
    if fs.len() == 0 {
        0
    } else {
        let rest = last_nonzero_step(fs.skip(1));
        if rest != 0 {
            rest
        } else {
            step_units_of(fs[0])
        }
    }
}

/// The norms' step sizes fit together: every nonzero step divides the last
/// nonzero one, and that one is a whole multiple of the grain the base-asset
/// precision keeps.  Exchange rules with one step-bearing filter whose step
/// carries no more fractional digits than the precision satisfy this.
pub open spec fn steps_compatible(norms: SymbolNorms) -> bool {
    let g = last_nonzero_step(norms.filters@);
    let k = (MAX_SCALE - nmin(norms.base_asset_precision as nat, MAX_SCALE as nat)) as nat;
    &&& forall|i: int|
        0 <= i < norms.filters@.len() ==> {
            let s = step_units_of(#[trigger] norms.filters@[i]);
            s != 0 ==> tmod(iabs(g), iabs(s)) == 0
        }
    &&& (g != 0 ==> tmod(iabs(g), pow10(k)) == 0)
}

/// Divisibility carries over: a multiple of `g` is a multiple of every
/// divisor of `g`.
proof fn lemma_tmod_transitive(x: int, g: int, s: int)
    requires
        g > 0,
        s > 0,
        tmod(x, g) == 0,
        tmod(g, s) == 0,
    ensures
        tmod(x, s) == 0,
{
    let m = tdiv(g, s) * tdiv(x, g);
    assert(x == s * m) by (nonlinear_arith)
        requires
            x == g * tdiv(x, g),
            g == s * tdiv(g, s),
            m == tdiv(g, s) * tdiv(x, g),
    ;
    lemma_tmod_cases(x, s);
    assert(m * s == s * m) by (nonlinear_arith);
    lemma_mod_multiples_basic(m, s);
}

/// With no step-bearing filter, alignment changes nothing.
proof fn lemma_align_no_steps(fs: Seq<SymbolFilter>, x: int)
    requires
        last_nonzero_step(fs) == 0,
    ensures
        align_units(fs, x) == x,
    decreases fs.len(),
{
    if fs.len() > 0 {
        lemma_align_no_steps(fs.skip(1), x);
    }
}

/// A value already on every filter's step stays fixed under alignment.
proof fn lemma_align_fixed(fs: Seq<SymbolFilter>, x: int)
    requires
        forall|i: int|
            0 <= i < fs.len() ==> (step_units_of(#[trigger] fs[i]) != 0 ==> tmod(
                x,
                iabs(step_units_of(fs[i])),
            ) == 0),
    ensures
        align_units(fs, x) == x,
    decreases fs.len(),
{
    if fs.len() > 0 {
        assert(step_units_of(fs[0]) != 0 ==> tmod(x, iabs(step_units_of(fs[0]))) == 0);
        assert(forall|j: int| 0 <= j < fs.skip(1).len() ==> fs.skip(1)[j] == fs[j + 1]);
        lemma_align_fixed(fs.skip(1), x);
    }
}

/// Alignment lands on a multiple of the last nonzero step.
proof fn lemma_align_multiple(fs: Seq<SymbolFilter>, u: int)
    ensures
        last_nonzero_step(fs) != 0 ==> tmod(
            align_units(fs, u),
            iabs(last_nonzero_step(fs)),
        ) == 0,
    decreases fs.len(),
{
    if fs.len() > 0 {
        let s0 = step_units_of(fs[0]);
        let u1 = step_align(u, s0);
        assert(align_units(fs, u) == align_units(fs.skip(1), u1));
        let rest = last_nonzero_step(fs.skip(1));
        lemma_align_multiple(fs.skip(1), u1);
        if rest == 0 && s0 != 0 {
            lemma_align_no_steps(fs.skip(1), u1);
            lemma_align(u, iabs(s0));
        }
    }
}

/// Truncation is the identity on a multiple of the grain.
proof fn lemma_trunc_fixed(a: int, k: nat)
    requires
        tmod(a, pow10(k)) == 0,
    ensures
        trunc_units(a, k) == a,
{
    lemma_pow10_pos(k);
    assert(tdiv(a, pow10(k)) * pow10(k) == pow10(k) * tdiv(a, pow10(k))) by (nonlinear_arith);
}

/// Step correction is idempotent: correcting an already-corrected quantity
/// returns its value unchanged, because alignment rounds onto multiples of
/// the steps and truncation onto the precision's grain, and a value already
/// on both is left where it is.  This holds whenever the norms' step sizes
/// fit together in the sense of `steps_compatible`.
pub proof fn lemma_correct_idempotent(norms: SymbolNorms, q: Decimal, corrected: Decimal)
    requires
        steps_compatible(norms),
        corrected.units() == correct_units(norms, q),
    ensures
        correct_units(norms, corrected) == corrected.units(),
{
    let fs = norms.filters@;
    let g = last_nonzero_step(fs);
    let k = (MAX_SCALE - nmin(norms.base_asset_precision as nat, MAX_SCALE as nat)) as nat;
    let pk = pow10(k);
    lemma_pow10_pos(k);
    let a = align_units(fs, q.units());
    if g != 0 {
        lemma_align_multiple(fs, q.units());
        lemma_tmod_transitive(a, iabs(g), pk);
        lemma_trunc_fixed(a, k);
        assert(corrected.units() == a);
        assert forall|i: int|
            0 <= i < fs.len() && step_units_of(#[trigger] fs[i]) != 0 implies tmod(
            corrected.units(),
            iabs(step_units_of(fs[i])),
        ) == 0 by {
            lemma_tmod_transitive(a, iabs(g), iabs(step_units_of(fs[i])));
        }
        lemma_align_fixed(fs, corrected.units());
        lemma_trunc_fixed(corrected.units(), k);
    } else {
        lemma_align_no_steps(fs, q.units());
        lemma_align_no_steps(fs, corrected.units());
        lemma_pow10_pos(k);
        assert(corrected.units() == tdiv(q.units(), pk) * pk);
        lemma_trunc_units_multiple(tdiv(q.units(), pk), k, k);
    }
}

/// Accepts a base quantity exactly when it satisfies every lot-size,
/// market-lot-size and notional rule and the base-asset precision.
pub fn filter(norms: &SymbolNorms, price: &Price, quantity: &Quantity) -> (r: SymbolFilterResult<
    (),
>)
    requires
        mul_ok(*price, *quantity),
    ensures
        r is Ok <==> base_filter_error(*norms, *price, *quantity) is None,
        r is Err ==> Some(r->Err_0) == base_filter_error(*norms, *price, *quantity),
{
    let len = norms.filters.len();
    let mut i: usize = 0;
    proof {
        assert(norms.filters@.skip(0) =~= norms.filters@);
    }
    while i < len
        invariant
            i <= len,
            len == norms.filters@.len(),
            mul_ok(*price, *quantity),
            filters_error(norms.filters@.skip(i as int), price.units(), quantity.units())
                == filters_error(norms.filters@, price.units(), quantity.units()),
        ensures
            i == len,
            filters_error(norms.filters@, price.units(), quantity.units()) is None,
        decreases len - i,
    {
        proof {
            assert(norms.filters@.skip(i as int)[0] == norms.filters@[i as int]);
            assert(norms.filters@.skip(i as int).skip(1) =~= norms.filters@.skip(i as int + 1));
        }
        let result: SymbolFilterResult<()> = match &norms.filters[i] {
            SymbolFilter::LotSize(f) => match filter_lot_size(quantity, f) {
                Ok(_) => Ok(()),
                Err(e) => Err(e),
            },
            SymbolFilter::Notional(f) => match filter_notional(price, quantity, f) {
                Ok(_) => Ok(()),
                Err(e) => Err(e),
            },
            SymbolFilter::MarketLotSize(f) => match filter_market_lot_size(quantity, f) {
                Ok(_) => Ok(()),
                Err(e) => Err(e),
            },
            SymbolFilter::MinNotional(_) => Ok(()),
        };
        if let Err(e) = result {
            return Err(e);
        }
        i = i + 1;
    }
    proof {
        assert(norms.filters@.skip(len as int) =~= Seq::<SymbolFilter>::empty());
    }
    match filter_precision(quantity, norms.base_asset_precision) {
        Ok(_) => Ok(()),
        Err(e) => Err(e),
    }
}

/// The base quantity corrected into compliance with every step size, then
/// truncated at the base-asset precision; correction never fails.
pub fn correct(norms: &SymbolNorms, _price: &Price, quantity: &Quantity) -> (r: SymbolFilterResult<
    Quantity,
>)
    ensures
        r is Ok,
        r->Ok_0.units() == correct_units(*norms, *quantity),
        r->Ok_0.spec_scale() == correct_scale(*norms, *quantity),
        r->Ok_0.spec_scale() <= norms.base_asset_precision as nat,
{
    let mut correct_quantity = quantity.clone();
    let len = norms.filters.len();
    let mut i: usize = 0;
    proof {
        assert(norms.filters@.skip(0) =~= norms.filters@);
    }
    while i < len
        invariant
            i <= len,
            len == norms.filters@.len(),
            align_units(norms.filters@.skip(i as int), correct_quantity.units()) == align_units(
                norms.filters@,
                quantity.units(),
            ),
            align_scale(norms.filters@.skip(i as int), correct_quantity.spec_scale())
                == align_scale(norms.filters@, quantity.spec_scale()),
        ensures
            i == len,
            correct_quantity.units() == align_units(norms.filters@, quantity.units()),
            correct_quantity.spec_scale() == align_scale(norms.filters@, quantity.spec_scale()),
        decreases len - i,
    {
        proof {
            assert(norms.filters@.skip(i as int)[0] == norms.filters@[i as int]);
            assert(norms.filters@.skip(i as int).skip(1) =~= norms.filters@.skip(i as int + 1));
        }
        match &norms.filters[i] {
            SymbolFilter::LotSize(f) => {
                correct_quantity = match correct_lot_size(&correct_quantity, f) {
                    Ok(v) => v,
                    Err(e) => {
                        return Err(e);
                    },
                };
            },
            SymbolFilter::MarketLotSize(f) => {
                correct_quantity = match correct_market_lot_size(&correct_quantity, f) {
                    Ok(v) => v,
                    Err(e) => {
                        return Err(e);
                    },
                };
            },
            _ => {},
        }
        i = i + 1;
    }
    proof {
        assert(norms.filters@.skip(len as int) =~= Seq::<SymbolFilter>::empty());
    }
    let precision = norms.base_asset_precision;
    let corrected = correct_precision(&correct_quantity, precision);
    proof {
        use_type_invariant(&correct_quantity);
        lemma_trunc_scale_cases(correct_quantity, precision as nat);
    }
    Ok(corrected)
}

/// Accepts a base quantity exactly when it lies within the lot-size bounds
/// and, for a nonzero step, on a multiple of it.
pub fn filter_lot_size<'a>(quantity: &'a Quantity, filter: &SymbolLotSizeFilter) -> (r:
    SymbolFilterResult<&'a Quantity>)
    ensures
        r is Ok <==> lot_size_ok(quantity.units(), *filter),
        r is Ok ==> r->Ok_0 == quantity,
        r is Err ==> r->Err_0 == SymbolFilterError::LotSize,
{
    if quantity.gt(&filter.max_qty) {
        return Err(SymbolFilterError::LotSize);
    }
    if quantity.lt(&filter.min_qty) {
        return Err(SymbolFilterError::LotSize);
    }
    if !filter.step_size.is_zero() {
        let rem = match quantity.checked_rem(&filter.step_size) {
            Some(v) => v,
            None => {
                return Err(SymbolFilterError::LotSize);  // unreachable: nonzero step
            },
        };
        if !rem.is_zero() {
            return Err(SymbolFilterError::LotSize);
        }
    }
    Ok(quantity)
}

/// Accepts a base quantity exactly when it lies within the market lot-size
/// bounds; market orders are not held to the step.
pub fn filter_market_lot_size<'a>(quantity: &'a Quantity, filter: &SymbolMarketLotSizeFilter) -> (r:
    SymbolFilterResult<&'a Quantity>)
    ensures
        r is Ok <==> market_lot_size_ok(quantity.units(), *filter),
        r is Ok ==> r->Ok_0 == quantity,
        r is Err ==> r->Err_0 == SymbolFilterError::MarketLotSize,
{
    if quantity.gt(&filter.max_qty) {
        return Err(SymbolFilterError::MarketLotSize);
    }
    if quantity.lt(&filter.min_qty) {
        return Err(SymbolFilterError::MarketLotSize);
    }
    Ok(quantity)
}

/// Accepts a base quantity exactly when the trade value `price * quantity`
/// respects each notional bound whose market flag is set.
pub fn filter_notional<'a>(
    price: &'a Price,
    quantity: &'a Quantity,
    filter: &SymbolNotionalFilter,
) -> (r: SymbolFilterResult<&'a Quantity>)
    requires
        mul_ok(*price, *quantity),
    ensures
        r is Ok <==> notional_ok(price.units(), quantity.units(), *filter),
        r is Ok ==> r->Ok_0 == quantity,
        r is Err ==> r->Err_0 == SymbolFilterError::Notional,
{
    proof {
        use_type_invariant(price);
        use_type_invariant(quantity);
        lemma_checked_mul_exact(*price, *quantity);
    }
    let notional = match price.checked_mul(quantity) {
        Some(v) => v,
        None => {
            return Err(SymbolFilterError::Notional);  // unreachable: the product is in range
        },
    };
    if filter.apply_max_to_market {
        if notional.gt(&filter.max_notional) {
            return Err(SymbolFilterError::Notional);
        }
    }
    if filter.apply_min_to_market {
        if notional.lt(&filter.min_notional) {
            return Err(SymbolFilterError::Notional);
        }
    }
    Ok(quantity)
}

/// The quantity rounded down onto a multiple of the lot-size step; a zero
/// step changes nothing, and correction never fails.
pub fn correct_lot_size(quantity: &Quantity, filter: &SymbolLotSizeFilter) -> (r:
    SymbolFilterResult<Quantity>)
    ensures
        r is Ok,
        r->Ok_0.units() == step_align(quantity.units(), filter.step_size.units()),
        r->Ok_0.spec_scale() == if filter.step_size.units() != 0 {
            nmax(quantity.spec_scale(), filter.step_size.spec_scale())
        } else {
            quantity.spec_scale()
        },
{
    if filter.step_size.is_zero() {
        return Ok(quantity.clone());
    }
    proof {
        use_type_invariant(quantity);
        use_type_invariant(&filter.step_size);
        lemma_align(quantity.units(), iabs(filter.step_size.units()));
    }
    let rem = match quantity.checked_rem(&filter.step_size) {
        Some(v) => v,
        None => {
            return Ok(quantity.clone());  // unreachable: nonzero step
        },
    };
    let aligned = match quantity.checked_sub(&rem) {
        Some(v) => v,
        None => {
            return Ok(quantity.clone());  // unreachable: alignment only shrinks
        },
    };
    Ok(aligned)
}

/// The quantity rounded down onto a multiple of the market lot-size step; a
/// zero step changes nothing, and correction never fails.
pub fn correct_market_lot_size(quantity: &Quantity, filter: &SymbolMarketLotSizeFilter) -> (r:
    SymbolFilterResult<Quantity>)
    ensures
        r is Ok,
        r->Ok_0.units() == step_align(quantity.units(), filter.step_size.units()),
        r->Ok_0.spec_scale() == if filter.step_size.units() != 0 {
            nmax(quantity.spec_scale(), filter.step_size.spec_scale())
        } else {
            quantity.spec_scale()
        },
{
    if filter.step_size.is_zero() {
        return Ok(quantity.clone());
    }
    proof {
        use_type_invariant(quantity);
        use_type_invariant(&filter.step_size);
        lemma_align(quantity.units(), iabs(filter.step_size.units()));
    }
    let rem = match quantity.checked_rem(&filter.step_size) {
        Some(v) => v,
        None => {
            return Ok(quantity.clone());  // unreachable: nonzero step
        },
    };
    let aligned = match quantity.checked_sub(&rem) {
        Some(v) => v,
        None => {
            return Ok(quantity.clone());  // unreachable: alignment only shrinks
        },
    };
    Ok(aligned)
}

} // verus!
