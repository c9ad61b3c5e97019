//! The value shapes of the service's requests and replies, free of any
//! transport: the HTTP layer around the engine deserializes into these,
//! calls the engine, and serializes them back inside its response envelope.

use crate::decimal::Decimal;
use crate::norms::SymbolNorms;
use crate::order::{buy_leg_rel, execute, pass_orders, sell_leg_rel, Order, OrderFill, Position};
use crate::ploy;
use crate::ploy::TradeSide;
use crate::types::{Price, Quantity};
use vstd::prelude::*;

verus! {

/// A query naming the symbol whose market data a request reads.
#[derive(Clone, Debug)]
pub struct Params {
    pub symbol: String,
}

/// An execution request: the caller's keys, the symbol, and the positions to
/// run one pass over.  The keys are carried through to the exchange client
/// and never read by the engine.
#[derive(Clone, Debug)]
pub struct Payload {
    pub api_key: String,
    pub secret_key: String,
    pub symbol: String,
    pub positions: Vec<Position>,
}

/// An execution reply: every position with its updated balances, and
/// whichever orders executed.
#[derive(Clone, Debug)]
pub struct Reply {
    pub positions: Vec<Position>,
    pub order: Vec<Order>,
}

/// Runs one execution pass over the request's positions at the current
/// price and shapes the outcome as a reply: every position comes back,
/// related to its input by the sell-leg and then the buy-leg relation, the
/// orders are exactly those the legs produced, and a position whose price
/// sits in neither of its bands comes back unchanged.
pub fn reply<P>(payload: Payload, price: &Price, norms: &SymbolNorms, place: &P) -> (r: Reply)
    where P: Fn(TradeSide, Quantity) -> Option<OrderFill>,
    requires
        forall|s: TradeSide, q: Quantity| #[trigger] call_requires(*place, (s, q)),
    ensures
        r.positions@.len() == payload.positions@.len(),
        exists|w: Seq<(Position, Option<Order>, Option<Order>)>|
            #![auto]
            {
                &&& w.len() == payload.positions@.len()
                &&& forall|j: int|
                    0 <= j < w.len() ==> sell_leg_rel(
                        *place,
                        *price,
                        *norms,
                        payload.positions@[j],
                        (#[trigger] w[j]).0,
                        w[j].1,
                    ) && buy_leg_rel(*place, *price, *norms, w[j].0, r.positions@[j], w[j].2)
                &&& r.order@ == pass_orders(w)
            },
        forall|j: int|
            0 <= j < payload.positions@.len() && !crate::math::spec_within_any(
                price.units(),
                (#[trigger] payload.positions@[j]).selling_price@,
            ) && !crate::math::spec_within_any(price.units(), payload.positions@[j].buying_price@)
                ==> r.positions@[j] == payload.positions@[j],
{
    let (positions, order) = execute(price, norms, payload.positions, place);
    Reply { positions, order }
}

/// One position's planned pass and its net profit figure.
#[derive(Clone, Debug)]
pub struct Analyzer {
    pub evaluate: Decimal,
    pub trades: Vec<ploy::Trade>,
    pub position: ploy::Position,
}

/// A planning reply: the analysis of each position beside the positions
/// themselves.
#[derive(Clone, Debug)]
pub struct ResponseBody {
    pub analyzer: Vec<Analyzer>,
    pub positions: Vec<ploy::Position>,
}

} // verus!
