//! Position execution: gate a leg on the current price, correct and validate
//! the quantity, hand it to the order placement capability, and fold the
//! returned fills into trades and updated balances.
//!
//! Placement itself is outside work: the caller supplies it as a closure from
//! side and quantity to the filled order, and a failed placement skips the
//! leg without touching the position.

use crate::decimal::{iabs, mul_in_range, mul_ok, mul_units, Decimal, UNITS_LIMIT};
use crate::filter::spot_market::base_quantity;
use crate::filter::spot_market::quote_quantity;
use crate::math::{is_within_ranges, spec_within_any, Range};
use crate::norms::SymbolNorms;
use crate::ploy::TradeSide;
use crate::types::{Price, Quantity};
use vstd::prelude::*;

verus! {

/// One matched portion of an executed order, as the exchange reports it.
#[derive(Clone, Copy, Debug)]
pub struct Fill {
    pub price: Decimal,
    pub qty: Decimal,
    pub commission: Decimal,
}

/// The exchange's answer to one placed market order.
#[derive(Clone, Debug)]
pub struct OrderFill {
    pub order_id: i64,
    pub symbol: String,
    pub side: TradeSide,
    pub transact_time: u128,
    pub fills: Vec<Fill>,
}

/// One fill turned into a record: price, base quantity and the commission
/// cost expressed in quote currency.
#[derive(Clone, Copy, Debug)]
pub struct Trade {
    pub price: Price,
    pub base_quantity: Quantity,
    pub quote_quantity_commission: Quantity,
}

/// One executed leg of a position: the order's identity and its trades.
#[derive(Clone, Debug)]
pub struct Order {
    pub order_id: i64,
    pub symbol: String,
    pub side: TradeSide,
    pub timestamp: u128,
    pub trades: Vec<Trade>,
}

/// A trading intent bound to one symbol: buy and sell price bands and the
/// running base and quote balances.
#[derive(Clone, Debug)]
pub struct Position {
    pub buying_price: Vec<Range<Price>>,
    pub selling_price: Vec<Range<Price>>,
    pub base_quantity: Quantity,
    pub quote_quantity: Quantity,
}

/// Totals of a buy order's fills, folded in order: base quantity bought and
/// base commission withheld; `None` when a value leaves the representable
/// range.
pub open spec fn buy_fold(fs: Seq<Fill>, tb: int, tc: int) -> Option<(int, int)>
    decreases fs.len(),
{
    if fs.len() == 0 {
        Some((tb, tc))
    } else {
        let f = fs[0];
        let pm = f.price.spec_mantissa() * f.commission.spec_mantissa();
        let qqc = mul_units(f.price, f.commission);
        if pm > i128::MAX || pm < i128::MIN || iabs(qqc) > UNITS_LIMIT as int {
            None
        } else if iabs(tb + f.qty.units()) > UNITS_LIMIT as int || iabs(
            tc + f.commission.units(),
        ) > UNITS_LIMIT as int {
            None
        } else {
            buy_fold(fs.skip(1), tb + f.qty.units(), tc + f.commission.units())
        }
    }
}

/// The trades of a buy order: one per fill, carrying the fill's own price,
/// its base quantity, and its commission valued in quote at the fill price.
pub open spec fn buy_trades_match(fs: Seq<Fill>, ts: Seq<Trade>) -> bool {
    &&& ts.len() == fs.len()
    &&& forall|i: int|
        0 <= i < fs.len() ==> {
            &&& (#[trigger] ts[i]).price == fs[i].price
            &&& ts[i].base_quantity == fs[i].qty
            &&& ts[i].quote_quantity_commission.units() == mul_units(fs[i].price, fs[i].commission)
        }
}

/// Totals of a sell order's fills, folded in order: quote proceeds and quote
/// commission withheld; `None` when a value leaves the representable range.
pub open spec fn sell_fold(fs: Seq<Fill>, tq: int, tc: int) -> Option<(int, int)>
    decreases fs.len(),
{
    if fs.len() == 0 {
        Some((tq, tc))
    } else {
        let f = fs[0];
        let pm = f.price.spec_mantissa() * f.qty.spec_mantissa();
        let n = mul_units(f.price, f.qty);
        if pm > i128::MAX || pm < i128::MIN || iabs(n) > UNITS_LIMIT as int {
            None
        } else if iabs(tq + n) > UNITS_LIMIT as int || iabs(tc + f.commission.units())
            > UNITS_LIMIT as int {
            None
        } else {
            sell_fold(fs.skip(1), tq + n, tc + f.commission.units())
        }
    }
}

/// The trades of a sell order: one per fill, carrying the fill's own price,
/// its base quantity, and its commission, already quote-denominated.
pub open spec fn sell_trades_match(fs: Seq<Fill>, ts: Seq<Trade>) -> bool {
    &&& ts.len() == fs.len()
    &&& forall|i: int|
        0 <= i < fs.len() ==> {
            &&& (#[trigger] ts[i]).price == fs[i].price
            &&& ts[i].base_quantity == fs[i].qty
            &&& ts[i].quote_quantity_commission == fs[i].commission
        }
}

/// Turns a buy order's fills into trades and the net base income, the base
/// bought less the base commission; `None` when a value leaves the
/// representable range.
pub fn to_buy_trades(fills: &Vec<Fill>) -> (r: Option<(Vec<Trade>, Quantity)>)
    ensures
        match buy_fold(fills@, 0, 0) {
            None => r is None,
            Some(t) => {
                if iabs(t.0 - t.1) <= UNITS_LIMIT as int {
                    &&& r is Some
                    &&& buy_trades_match(fills@, r->Some_0.0@)
                    &&& r->Some_0.1.units() == t.0 - t.1
                } else {
                    r is None
                }
            },
        },
{
    let mut trades: Vec<Trade> = Vec::new();
    let mut total_base = Decimal::zero();
    let mut total_commission = Decimal::zero();
    let len = fills.len();
    let mut i: usize = 0;
    proof {
        assert(fills@.skip(0) =~= fills@);
    }
    while i < len
        invariant
            i <= len,
            len == fills@.len(),
            trades@.len() == i,
            buy_fold(fills@.skip(i as int), total_base.units(), total_commission.units())
                == buy_fold(fills@, 0, 0),
            forall|j: int|
                0 <= j < i ==> {
                    &&& (#[trigger] trades@[j]).price == fills@[j].price
                    &&& trades@[j].base_quantity == fills@[j].qty
                    &&& trades@[j].quote_quantity_commission.units() == mul_units(
                        fills@[j].price,
                        fills@[j].commission,
                    )
                },
        ensures
            i == len,
            trades@.len() == len,
            buy_fold(fills@.skip(i as int), total_base.units(), total_commission.units())
                == buy_fold(fills@, 0, 0),
            buy_trades_match(fills@, trades@),
        decreases len - i,
    {
        proof {
            assert(fills@.skip(i as int)[0] == fills@[i as int]);
            assert(fills@.skip(i as int).skip(1) =~= fills@.skip(i as int + 1));
        }
        let fill = &fills[i];
        let quote_quantity_commission = match fill.price.checked_mul(&fill.commission) {
            Some(v) => v,
            None => {
                return None;
            },
        };
        let new_base = match total_base.checked_add(&fill.qty) {
            Some(v) => v,
            None => {
                return None;
            },
        };
        let new_commission = match total_commission.checked_add(&fill.commission) {
            Some(v) => v,
            None => {
                return None;
            },
        };
        total_base = new_base;
        total_commission = new_commission;
        trades.push(
            Trade { price: fill.price, base_quantity: fill.qty, quote_quantity_commission },
        );
        i = i + 1;
    }
    proof {
        assert(fills@.skip(len as int) =~= Seq::<Fill>::empty());
    }
    let income = match total_base.checked_sub(&total_commission) {
        Some(v) => v,
        None => {
            return None;
        },
    };
    Some((trades, income))
}

/// Turns a sell order's fills into trades and the net quote income, the
/// quote proceeds less the quote commission; `None` when a value leaves the
/// representable range.
pub fn to_sell_trades(fills: &Vec<Fill>) -> (r: Option<(Vec<Trade>, Quantity)>)
    ensures
        match sell_fold(fills@, 0, 0) {
            None => r is None,
            Some(t) => {
                if iabs(t.0 - t.1) <= UNITS_LIMIT as int {
                    &&& r is Some
                    &&& sell_trades_match(fills@, r->Some_0.0@)
                    &&& r->Some_0.1.units() == t.0 - t.1
                } else {
                    r is None
                }
            },
        },
{
    let mut trades: Vec<Trade> = Vec::new();
    let mut total_quote = Decimal::zero();
    let mut total_commission = Decimal::zero();
    let len = fills.len();
    let mut i: usize = 0;
    proof {
        assert(fills@.skip(0) =~= fills@);
    }
    while i < len
        invariant
            i <= len,
            len == fills@.len(),
            trades@.len() == i,
            sell_fold(fills@.skip(i as int), total_quote.units(), total_commission.units())
                == sell_fold(fills@, 0, 0),
            forall|j: int|
                0 <= j < i ==> {
                    &&& (#[trigger] trades@[j]).price == fills@[j].price
                    &&& trades@[j].base_quantity == fills@[j].qty
                    &&& trades@[j].quote_quantity_commission == fills@[j].commission
                },
        ensures
            i == len,
            sell_fold(fills@.skip(i as int), total_quote.units(), total_commission.units())
                == sell_fold(fills@, 0, 0),
            sell_trades_match(fills@, trades@),
        decreases len - i,
    {
        proof {
            assert(fills@.skip(i as int)[0] == fills@[i as int]);
            assert(fills@.skip(i as int).skip(1) =~= fills@.skip(i as int + 1));
        }
        let fill = &fills[i];
        let notional = match fill.price.checked_mul(&fill.qty) {
            Some(v) => v,
            None => {
                return None;
            },
        };
        let new_quote = match total_quote.checked_add(&notional) {
            Some(v) => v,
            None => {
                return None;
            },
        };
        let new_commission = match total_commission.checked_add(&fill.commission) {
            Some(v) => v,
            None => {
                return None;
            },
        };
        total_quote = new_quote;
        total_commission = new_commission;
        trades.push(
            Trade {
                price: fill.price,
                base_quantity: fill.qty,
                quote_quantity_commission: fill.commission,
            },
        );
        i = i + 1;
    }
    proof {
        assert(fills@.skip(len as int) =~= Seq::<Fill>::empty());
    }
    let income = match total_quote.checked_sub(&total_commission) {
        Some(v) => v,
        None => {
            return None;
        },
    };
    Some((trades, income))
}

/// What one sell-leg attempt guarantees, as a relation between the position
/// before and after: no order when the price is outside every sell band, the
/// position untouched when the leg was skipped, and on success a corrected,
/// filter-clean quantity placed through `place`, its fills folded into the
/// order's trades and into the balance changes, with the bands preserved.
pub open spec fn sell_leg_rel<P: Fn(TradeSide, Quantity) -> Option<OrderFill>>(
    place: P,
    price: Price,
    norms: SymbolNorms,
    pre: Position,
    post: Position,
    r: Option<Order>,
) -> bool {
    &&& (!spec_within_any(price.units(), pre.selling_price@) ==> r is None)
    &&& (r is None ==> post == pre)
    &&& match r {
        Some(o) => {
            &&& spec_within_any(price.units(), pre.selling_price@)
            &&& exists|cq: Quantity, of: OrderFill, tq: int, tc: int|
                #![auto]
                {
                    &&& cq.units() == base_quantity::correct_units(norms, pre.base_quantity)
                    &&& mul_ok(price, cq)
                    &&& base_quantity::base_filter_error(norms, price, cq) is None
                    &&& call_ensures(place, (TradeSide::Sell, cq), Some(of))
                    &&& sell_fold(of.fills@, 0, 0) == Some((tq, tc))
                    &&& sell_trades_match(of.fills@, o.trades@)
                    &&& o.order_id == of.order_id
                    &&& o.symbol == of.symbol
                    &&& o.side == of.side
                    &&& o.timestamp == of.transact_time
                    &&& post.quote_quantity.units() == pre.quote_quantity.units() + (tq - tc)
                    &&& post.base_quantity.units() == pre.base_quantity.units() - cq.units()
                }
            &&& post.buying_price == pre.buying_price
            &&& post.selling_price == pre.selling_price
        },
        None => true,
    }
}

/// What one buy-leg attempt guarantees; the mirror of `sell_leg_rel` for the
/// buy bands and the quote balance.
pub open spec fn buy_leg_rel<P: Fn(TradeSide, Quantity) -> Option<OrderFill>>(
    place: P,
    price: Price,
    norms: SymbolNorms,
    pre: Position,
    post: Position,
    r: Option<Order>,
) -> bool {
    &&& (!spec_within_any(price.units(), pre.buying_price@) ==> r is None)
    &&& (r is None ==> post == pre)
    &&& match r {
        Some(o) => {
            &&& spec_within_any(price.units(), pre.buying_price@)
            &&& exists|cq: Quantity, of: OrderFill, tb: int, tc: int|
                #![auto]
                {
                    &&& cq.units() == quote_quantity::quote_correct_units(
                        norms,
                        pre.quote_quantity,
                    )
                    &&& quote_quantity::quote_filter_error(norms, cq) is None
                    &&& call_ensures(place, (TradeSide::Buy, cq), Some(of))
                    &&& buy_fold(of.fills@, 0, 0) == Some((tb, tc))
                    &&& buy_trades_match(of.fills@, o.trades@)
                    &&& o.order_id == of.order_id
                    &&& o.symbol == of.symbol
                    &&& o.side == of.side
                    &&& o.timestamp == of.transact_time
                    &&& post.quote_quantity.units() == pre.quote_quantity.units() - cq.units()
                    &&& post.base_quantity.units() == pre.base_quantity.units() + (tb - tc)
                }
            &&& post.buying_price == pre.buying_price
            &&& post.selling_price == pre.selling_price
        },
        None => true,
    }
}

/// Attempts the sell leg of one position: when the price lies strictly
/// inside a sell band, sells the whole corrected base balance through
/// `place`, folds the fills into trades, adds the quote income to the quote
/// balance and subtracts the sold base.  Any failure - gate, filter, range,
/// placement or aggregation - skips the leg and leaves the position as it
/// was.
pub fn sell<P>(price: &Price, norms: &SymbolNorms, position: &mut Position, place: &P) -> (r:
    Option<Order>)
    where P: Fn(TradeSide, Quantity) -> Option<OrderFill>,
    requires
        forall|s: TradeSide, q: Quantity| #[trigger] call_requires(*place, (s, q)),
    ensures
        sell_leg_rel(*place, *price, *norms, *old(position), *final(position), r),
{
    if !is_within_ranges(price, &position.selling_price) {
        return None;
    }
    let base_quantity = match base_quantity::correct(norms, price, &position.base_quantity) {
        Ok(v) => v,
        Err(_) => {
            return None;
        },
    };
    if !mul_in_range(price, &base_quantity) {
        return None;
    }
    if let Err(_) = base_quantity::filter(norms, price, &base_quantity) {
        return None;
    }
    let order = match place(TradeSide::Sell, base_quantity) {
        Some(v) => v,
        None => {
            return None;
        },
    };
    let (trades, income_quote_quantity) = match to_sell_trades(&order.fills) {
        Some(v) => v,
        None => {
            return None;
        },
    };
    let new_quote = match position.quote_quantity.checked_add(&income_quote_quantity) {
        Some(v) => v,
        None => {
            return None;
        },
    };
    let new_base = match position.base_quantity.checked_sub(&base_quantity) {
        Some(v) => v,
        None => {
            return None;
        },
    };
    position.quote_quantity = new_quote;
    position.base_quantity = new_base;
    Some(
        Order {
            order_id: order.order_id,
            symbol: order.symbol,
            side: order.side,
            timestamp: order.transact_time,
            trades,
        },
    )
}

/// Attempts the buy leg of one position: when the price lies strictly inside
/// a buy band, spends the whole corrected quote balance through `place`,
/// folds the fills into trades, adds the base income to the base balance and
/// subtracts the spent quote.  Any failure - gate, filter, range, placement
/// or aggregation - skips the leg and leaves the position as it was.
pub fn buy<P>(price: &Price, norms: &SymbolNorms, position: &mut Position, place: &P) -> (r: Option<
    Order,
>)
    where P: Fn(TradeSide, Quantity) -> Option<OrderFill>,
    requires
        forall|s: TradeSide, q: Quantity| #[trigger] call_requires(*place, (s, q)),
    ensures
        buy_leg_rel(*place, *price, *norms, *old(position), *final(position), r),
{
    if !is_within_ranges(price, &position.buying_price) {
        return None;
    }
    let quote_quantity = match quote_quantity::correct(norms, price, &position.quote_quantity) {
        Ok(v) => v,
        Err(_) => {
            return None;
        },
    };
    if let Err(_) = quote_quantity::filter(norms, price, &quote_quantity) {
        return None;
    }
    let order = match place(TradeSide::Buy, quote_quantity) {
        Some(v) => v,
        None => {
            return None;
        },
    };
    let (trades, income_base_quantity) = match to_buy_trades(&order.fills) {
        Some(v) => v,
        None => {
            return None;
        },
    };
    let new_quote = match position.quote_quantity.checked_sub(&quote_quantity) {
        Some(v) => v,
        None => {
            return None;
        },
    };
    let new_base = match position.base_quantity.checked_add(&income_base_quantity) {
        Some(v) => v,
        None => {
            return None;
        },
    };
    position.quote_quantity = new_quote;
    position.base_quantity = new_base;
    Some(
        Order {
            order_id: order.order_id,
            symbol: order.symbol,
            side: order.side,
            timestamp: order.transact_time,
            trades,
        },
    )
}

/// The orders one position's pass contributed: the sell leg's, then the buy
/// leg's, where each executed.
pub open spec fn leg_orders(so: Option<Order>, bo: Option<Order>) -> Seq<Order> {
    (match so {
        Some(o) => seq![o],
        None => seq![],
    }) + (match bo {
        Some(o) => seq![o],
        None => seq![],
    })
}

/// The orders of a whole pass: each position's leg orders, in position order.
pub open spec fn pass_orders(w: Seq<(Position, Option<Order>, Option<Order>)>) -> Seq<Order>
    decreases w.len(),
{
    if w.len() == 0 {
        seq![]
    } else {
        leg_orders(w[0].1, w[0].2) + pass_orders(w.skip(1))
    }
}

/// Appending one position's legs appends its orders.
proof fn lemma_pass_orders_push(
    w: Seq<(Position, Option<Order>, Option<Order>)>,
    t: (Position, Option<Order>, Option<Order>),
)
    ensures
        pass_orders(w.push(t)) == pass_orders(w) + leg_orders(t.1, t.2),
    decreases w.len(),
{
    assert(w.push(t)[0] == if w.len() == 0 {
        t
    } else {
        w[0]
    });
    if w.len() == 0 {
        assert(w.push(t).skip(1) =~= Seq::<(Position, Option<Order>, Option<Order>)>::empty());
        assert(pass_orders(w.push(t)) == leg_orders(t.1, t.2) + pass_orders(
            Seq::<(Position, Option<Order>, Option<Order>)>::empty(),
        ));
        assert(pass_orders(w.push(t)) =~= leg_orders(t.1, t.2));
        assert(pass_orders(w) + leg_orders(t.1, t.2) =~= leg_orders(t.1, t.2));
    } else {
        assert(w.push(t).skip(1) =~= w.skip(1).push(t));
        lemma_pass_orders_push(w.skip(1), t);
        assert(pass_orders(w.push(t)) == leg_orders(w[0].1, w[0].2) + (pass_orders(w.skip(1))
            + leg_orders(t.1, t.2)));
        assert(pass_orders(w.push(t)) =~= pass_orders(w) + leg_orders(t.1, t.2));
    }
}

/// One execution pass over a batch of positions at the current price: each
/// position attempts its sell leg and then its buy leg, in order, so the buy
/// may spend quote freed by the sell of the same pass.  Every returned
/// position arose from its input by the sell-leg relation into an
/// intermediate state and the buy-leg relation out of it, and the returned
/// orders are exactly those the legs produced, in position order; a position
/// whose price sits in neither band comes back unchanged.
pub fn execute<P>(
    price: &Price,
    norms: &SymbolNorms,
    positions: Vec<Position>,
    place: &P,
) -> (r: (Vec<Position>, Vec<Order>))
    where P: Fn(TradeSide, Quantity) -> Option<OrderFill>,
    requires
        forall|s: TradeSide, q: Quantity| #[trigger] call_requires(*place, (s, q)),
    ensures
        r.0@.len() == positions@.len(),
        exists|w: Seq<(Position, Option<Order>, Option<Order>)>|
            #![auto]
            {
                &&& w.len() == positions@.len()
                &&& forall|j: int|
                    0 <= j < w.len() ==> sell_leg_rel(
                        *place,
                        *price,
                        *norms,
                        positions@[j],
                        (#[trigger] w[j]).0,
                        w[j].1,
                    ) && buy_leg_rel(*place, *price, *norms, w[j].0, r.0@[j], w[j].2)
                &&& r.1@ == pass_orders(w)
            },
        forall|j: int|
            0 <= j < positions@.len() && !spec_within_any(
                price.units(),
                (#[trigger] positions@[j]).selling_price@,
            ) && !spec_within_any(price.units(), positions@[j].buying_price@) ==> r.0@[j]
                == positions@[j],
{
    let mut remaining = positions;
    let mut done: Vec<Position> = Vec::new();
    let mut orders: Vec<Order> = Vec::new();
    let ghost all: Seq<Position> = remaining@;
    let ghost mut w: Seq<(Position, Option<Order>, Option<Order>)> = Seq::empty();
    loop
        invariant
            done@.len() + remaining@.len() == all.len(),
            all.skip(done@.len() as int) == remaining@,
            forall|s: TradeSide, q: Quantity| #[trigger] call_requires(*place, (s, q)),
            w.len() == done@.len(),
            forall|j: int|
                0 <= j < w.len() ==> sell_leg_rel(
                    *place,
                    *price,
                    *norms,
                    all[j],
                    (#[trigger] w[j]).0,
                    w[j].1,
                ) && buy_leg_rel(*place, *price, *norms, w[j].0, done@[j], w[j].2),
            orders@ == pass_orders(w),
            forall|j: int|
                0 <= j < done@.len() && !spec_within_any(
                    price.units(),
                    (#[trigger] all[j]).selling_price@,
                ) && !spec_within_any(price.units(), all[j].buying_price@) ==> done@[j] == all[j],
        ensures
            remaining@.len() == 0,
            done@.len() == all.len(),
            w.len() == all.len(),
            forall|j: int|
                0 <= j < w.len() ==> sell_leg_rel(
                    *place,
                    *price,
                    *norms,
                    all[j],
                    (#[trigger] w[j]).0,
                    w[j].1,
                ) && buy_leg_rel(*place, *price, *norms, w[j].0, done@[j], w[j].2),
            orders@ == pass_orders(w),
            forall|j: int|
                0 <= j < done@.len() && !spec_within_any(
                    price.units(),
                    (#[trigger] all[j]).selling_price@,
                ) && !spec_within_any(price.units(), all[j].buying_price@) ==> done@[j] == all[j],
        decreases remaining@.len(),
    {
        if remaining.is_empty() {
            break;
        }
        let ghost k: int = done@.len() as int;
        proof {
            assert(all.skip(k)[0] == all[k]);
            assert(all.skip(k).skip(1) =~= all.skip(k + 1));
        }
        let mut position = remaining.remove(0);
        let so = sell(price, norms, &mut position, place);
        let ghost mid: Position = position;
        let ghost so_g: Option<Order> = so;
        if let Some(order) = so {
            orders.push(order);
        }
        let bo = buy(price, norms, &mut position, place);
        let ghost bo_g: Option<Order> = bo;
        if let Some(order) = bo {
            orders.push(order);
        }
        done.push(position);
        proof {
            lemma_pass_orders_push(w, (mid, so_g, bo_g));
            w = w.push((mid, so_g, bo_g));
            assert(orders@ =~= pass_orders(w));
        }
    }
    (done, orders)
}

} // verus!
