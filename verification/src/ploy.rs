//! Positions and the min-profit planner: given a worst-case buying price and
//! a worst-case selling price, the planner lays out the trades of one
//! sell-buy-sell rebalancing pass and their commission costs.

use crate::decimal::{
    div_succeeds, div_units, iabs, lemma_mul_fits, mul_succeeds, mul_units, pow10, tdiv, Decimal,
    MAX_SCALE, UNITS_LIMIT,
};
use crate::math::Range;
use crate::time::timestamp_millis;
use crate::types::{BaseQuantity, Price, Quantity, QuoteQuantity};
use vstd::prelude::*;

verus! {

/// A trading intent: buy-price bands, sell-price bands and running balances.
#[derive(Clone, Debug)]
pub struct Position {
    pub buying_prices: Vec<Range<Price>>,
    pub selling_prices: Vec<Range<Price>>,
    pub base_quantity: Quantity,
    pub quote_quantity: Quantity,
}

/// The direction of one executed leg.
#[derive(Clone, Copy, Debug, PartialEq, Eq, Structural)]
pub enum TradeSide {
    Buy,
    Sell,
}

/// One planned or executed leg: direction, price, base quantity moved and
/// the commission cost expressed in quote currency.
#[derive(Clone, Copy, Debug)]
pub struct Trade {
    pub side: TradeSide,
    pub price: Price,
    pub base_quantity: Quantity,
    pub quote_quantity_commission: Quantity,
    pub timestamp: u128,
}

impl Trade {
    /// A trade with every field given.
    pub fn new(
        side: TradeSide,
        price: Price,
        base_quantity: Quantity,
        quote_quantity_commission: Quantity,
        timestamp: u128,
    ) -> (r: Self)
        ensures
            r.side == side,
            r.price == price,
            r.base_quantity == base_quantity,
            r.quote_quantity_commission == quote_quantity_commission,
            r.timestamp == timestamp,
    {
        Self { side, price, base_quantity, quote_quantity_commission, timestamp }
    }

    /// A buy leg stamped with the current wall-clock time.
    pub fn with_buy(price: Price, base_quantity: Quantity, quote_quantity_commission: Quantity) -> (r:
        Self)
        ensures
            r.side == TradeSide::Buy,
            r.price == price,
            r.base_quantity == base_quantity,
            r.quote_quantity_commission == quote_quantity_commission,
    {
        Self::new(TradeSide::Buy, price, base_quantity, quote_quantity_commission, timestamp_millis())
    }

    /// A sell leg stamped with the current wall-clock time.
    pub fn with_sell(price: Price, base_quantity: Quantity, quote_quantity_commission: Quantity) -> (r:
        Self)
        ensures
            r.side == TradeSide::Sell,
            r.price == price,
            r.base_quantity == base_quantity,
            r.quote_quantity_commission == quote_quantity_commission,
    {
        Self::new(TradeSide::Sell, price, base_quantity, quote_quantity_commission, timestamp_millis())
    }
}

impl PartialEq for Trade {
    /// Trades compare by direction, price, quantity and commission; the
    /// timestamp records when the leg was planned and does not distinguish
    /// trades.
    fn eq(&self, other: &Trade) -> bool {
        self.side == other.side && self.price == other.price && self.base_quantity
            == other.base_quantity && self.quote_quantity_commission
            == other.quote_quantity_commission
    }
}

impl vstd::std_specs::cmp::PartialEqSpecImpl for Trade {
    open spec fn obeys_eq_spec() -> bool {
        true
    }

    open spec fn eq_spec(&self, other: &Trade) -> bool {
        &&& self.side == other.side
        &&& self.price.units() == other.price.units()
        &&& self.base_quantity.units() == other.base_quantity.units()
        &&& self.quote_quantity_commission.units() == other.quote_quantity_commission.units()
    }
}

/// A strategy that lays positions out of its parameters.
pub trait Ploy {
    type Params;

    fn trap<FQ>(params: Self::Params) -> Vec<Position>;
}

/// The highest range bound among the ranges, folded left to right from the
/// starting value.
pub open spec fn fold_max_buy(rs: Seq<Range<Price>>, cur: Price) -> Price
    decreases rs.len(),
{
    if rs.len() == 0 {
        cur
    } else {
        let m = rs[0].spec_max_bound();
        let next = if m.units() > cur.units() {
            m
        } else {
            cur
        };
        fold_max_buy(rs.skip(1), next)
    }
}

/// The lowest range bound among the ranges, folded left to right from the
/// starting value.
pub open spec fn fold_min_sell(rs: Seq<Range<Price>>, cur: Price) -> Price
    decreases rs.len(),
{
    if rs.len() == 0 {
        cur
    } else {
        let m = rs[0].spec_min_bound();
        let next = if m.units() < cur.units() {
            m
        } else {
            cur
        };
        fold_min_sell(rs.skip(1), next)
    }
}

/// One sell leg: the executor accepted `(price, qty)` and returned the quote
/// proceeds `act`; the trade records the commission as the expected proceeds
/// `price * qty` minus the actual ones.
pub open spec fn sell_leg<S: Fn(Price, BaseQuantity) -> Option<QuoteQuantity>>(
    t: Trade,
    sell: S,
    price: Price,
    qty: BaseQuantity,
    act: QuoteQuantity,
) -> bool {
    &&& call_ensures(sell, (price, qty), Some(act))
    &&& t.side == TradeSide::Sell
    &&& t.price == price
    &&& t.base_quantity == qty
    &&& t.quote_quantity_commission.units() == mul_units(price, qty) - act.units()
}

/// One buy leg: the executor accepted `(price, quote)` and returned the base
/// proceeds `act`; the trade records the commission as the shortfall against
/// the expected `quote / price`, valued at the buying price.
pub open spec fn buy_leg<B: Fn(Price, QuoteQuantity) -> Option<BaseQuantity>>(
    t: Trade,
    buy: B,
    price: Price,
    quote: QuoteQuantity,
    act: BaseQuantity,
) -> bool {
    &&& call_ensures(buy, (price, quote), Some(act))
    &&& t.side == TradeSide::Buy
    &&& t.price == price
    &&& t.base_quantity == act
    &&& t.quote_quantity_commission.units() == tdiv(
        (div_units(quote, price) - act.units()) * price.units(),
        pow10(MAX_SCALE as nat),
    )
}

/// A short position's pass: one buy leg spending the whole quote balance at
/// the buying price, then one sell leg of the proceeds at the selling price.
pub open spec fn short_plan<B: Fn(Price, QuoteQuantity) -> Option<BaseQuantity>, S: Fn(
    Price,
    BaseQuantity,
) -> Option<QuoteQuantity>>(
    ts: Seq<Trade>,
    buy: B,
    sell: S,
    bp: Price,
    sp: Price,
    quote: QuoteQuantity,
) -> bool {
    &&& ts.len() == 2
    &&& exists|a2: BaseQuantity, a3: QuoteQuantity|
        #![auto]
        {
            &&& buy_leg(ts[0], buy, bp, quote, a2)
            &&& sell_leg(ts[1], sell, sp, a2, a3)
        }
}

/// A funded position's pass: sell the whole base balance, buy with the
/// proceeds plus the quote balance, and sell what was bought.
pub open spec fn full_plan<B: Fn(Price, QuoteQuantity) -> Option<BaseQuantity>, S: Fn(
    Price,
    BaseQuantity,
) -> Option<QuoteQuantity>>(
    ts: Seq<Trade>,
    buy: B,
    sell: S,
    bp: Price,
    sp: Price,
    base: BaseQuantity,
    quote: QuoteQuantity,
) -> bool {
    &&& ts.len() == 3
    &&& exists|a1: QuoteQuantity, q1: QuoteQuantity, a2: BaseQuantity, a3: QuoteQuantity|
        #![auto]
        {
            &&& sell_leg(ts[0], sell, sp, base, a1)
            &&& q1.units() == a1.units() + quote.units()
            &&& buy_leg(ts[1], buy, bp, q1, a2)
            &&& sell_leg(ts[2], sell, sp, a2, a3)
        }
}

impl Position {
    /// The highest buying price among the position's buy bands, or zero when
    /// there is none.
    pub open spec fn spec_max_buying_price(self) -> Price {
        fold_max_buy(self.buying_prices@, Decimal::spec_zero())
    }

    /// The lowest selling price among the position's sell bands, or the
    /// greatest representable value when there is none.
    pub open spec fn spec_min_selling_price(self) -> Price {
        fold_min_sell(self.selling_prices@, Decimal::spec_max_value())
    }

    /// A pass is worth planning: both worst-case prices are positive and the
    /// balances are not negative.
    pub open spec fn tradable(self) -> bool {
        &&& self.spec_max_buying_price().units() > 0
        &&& self.spec_min_selling_price().units() > 0
        &&& self.base_quantity.units() >= 0
        &&& self.quote_quantity.units() >= 0
    }

    /// The position holds no base currency.
    pub fn is_short(&self) -> (r: bool)
        ensures
            r == (self.base_quantity.units() == 0),
    {
        self.base_quantity.is_zero()
    }

    /// The highest buying price among the buy bands, or zero when there is
    /// none.
    pub fn max_buying_price(&self) -> (r: Price)
        ensures
            r == self.spec_max_buying_price(),
    {
        let mut max_buy_price = Decimal::zero();
        let len = self.buying_prices.len();
        let mut i: usize = 0;
        proof {
            assert(self.buying_prices@.skip(0) =~= self.buying_prices@);
        }
        while i < len
            invariant
                i <= len,
                len == self.buying_prices@.len(),
                fold_max_buy(self.buying_prices@.skip(i as int), max_buy_price)
                    == self.spec_max_buying_price(),
            ensures
                i == len,
                fold_max_buy(self.buying_prices@.skip(i as int), max_buy_price)
                    == self.spec_max_buying_price(),
            decreases len - i,
        {
            proof {
                assert(self.buying_prices@.skip(i as int)[0] == self.buying_prices@[i as int]);
                assert(self.buying_prices@.skip(i as int).skip(1) =~= self.buying_prices@.skip(
                    i as int + 1,
                ));
            }
            let m = self.buying_prices[i].max();
            if m.gt(&max_buy_price) {
                max_buy_price = m;
            }
            i = i + 1;
        }
        proof {
            assert(self.buying_prices@.skip(len as int) =~= Seq::<Range<Price>>::empty());
        }
        max_buy_price
    }

    /// The lowest selling price among the sell bands, or the greatest
    /// representable value when there is none.
    pub fn min_selling_price(&self) -> (r: Price)
        ensures
            r == self.spec_min_selling_price(),
    {
        let mut min_sell_price = Decimal::max_value();
        let len = self.selling_prices.len();
        let mut i: usize = 0;
        proof {
            assert(self.selling_prices@.skip(0) =~= self.selling_prices@);
        }
        while i < len
            invariant
                i <= len,
                len == self.selling_prices@.len(),
                fold_min_sell(self.selling_prices@.skip(i as int), min_sell_price)
                    == self.spec_min_selling_price(),
            ensures
                i == len,
                fold_min_sell(self.selling_prices@.skip(i as int), min_sell_price)
                    == self.spec_min_selling_price(),
            decreases len - i,
        {
            proof {
                assert(self.selling_prices@.skip(i as int)[0] == self.selling_prices@[i as int]);
                assert(self.selling_prices@.skip(i as int).skip(1) =~= self.selling_prices@.skip(
                    i as int + 1,
                ));
            }
            let m = self.selling_prices[i].min();
            if m.lt(&min_sell_price) {
                min_sell_price = m;
            }
            i = i + 1;
        }
        proof {
            assert(self.selling_prices@.skip(len as int) =~= Seq::<Range<Price>>::empty());
        }
        min_sell_price
    }

    /// Plans one rebalancing pass against the worst acceptable prices: sell
    /// the whole base balance at the lowest selling price (skipped when the
    /// position is short), buy base with the whole quote balance at the
    /// highest buying price, and sell the proceeds again.  `None` when the
    /// position is not tradable, when an executor declines a leg, or when a
    /// value leaves the representable range.
    #[verifier::rlimit(50)]
    pub fn min_profit_trades<B, S>(&self, buy: &B, sell: &S) -> (r: Option<Vec<Trade>>)
        where
            B: Fn(Price, QuoteQuantity) -> Option<BaseQuantity>,
            S: Fn(Price, BaseQuantity) -> Option<QuoteQuantity>,
        requires
            forall|p: Price, q: QuoteQuantity| #[trigger] call_requires(*buy, (p, q)),
            forall|p: Price, q: BaseQuantity| #[trigger] call_requires(*sell, (p, q)),
        ensures
            !self.tradable() ==> r is None,
            r is Some && self.base_quantity.units() != 0 ==> mul_succeeds(
                self.spec_min_selling_price(),
                self.base_quantity,
            ),
            r is Some && self.base_quantity.units() == 0 ==> div_succeeds(
                self.quote_quantity,
                self.spec_max_buying_price(),
            ),
            match r {
                Some(ts) => self.tradable() && ({
                    let bp = self.spec_max_buying_price();
                    let sp = self.spec_min_selling_price();
                    if self.base_quantity.units() == 0 {
                        short_plan(ts@, *buy, *sell, bp, sp, self.quote_quantity)
                    } else {
                        full_plan(ts@, *buy, *sell, bp, sp, self.base_quantity, self.quote_quantity)
                    }
                }),
                None => true,
            },
    {
        let mut result: Vec<Trade> = Vec::new();
        let buying_price = self.max_buying_price();
        let selling_price = self.min_selling_price();
        let zero = Decimal::zero();
        if buying_price.le(&zero) || selling_price.le(&zero) || self.base_quantity.lt(&zero)
            || self.quote_quantity.lt(&zero) {
            return None;
        }
        let short = self.is_short();
        let ghost mut first_act: QuoteQuantity = self.quote_quantity;
        let quote_quantity = if short {
            self.quote_quantity
        } else {
            let exp_selling_quote_quantity = match selling_price.checked_mul(&self.base_quantity) {
                Some(v) => v,
                None => {
                    return None;
                },
            };
            proof {
                use_type_invariant(&selling_price);
                use_type_invariant(&self.base_quantity);
                use_type_invariant(&exp_selling_quote_quantity);
                lemma_mul_fits(selling_price, self.base_quantity);
            }
            let act_selling_quote_quantity = match sell(selling_price, self.base_quantity) {
                Some(v) => v,
                None => {
                    return None;
                },
            };
            let quote_quantity_commission = match exp_selling_quote_quantity.checked_sub(
                &act_selling_quote_quantity,
            ) {
                Some(v) => v,
                None => {
                    return None;
                },
            };
            result.push(
                Trade::with_sell(
                    selling_price.clone(),
                    self.base_quantity,
                    quote_quantity_commission,
                ),
            );
            proof {
                first_act = act_selling_quote_quantity;
            }
            match act_selling_quote_quantity.checked_add(&self.quote_quantity) {
                Some(v) => v,
                None => {
                    return None;
                },
            }
        };
        let base_quantity = {
            let exp_buying_base_quantity = match quote_quantity.checked_div(&buying_price) {
                Some(v) => v,
                None => {
                    return None;
                },
            };
            proof {
                use_type_invariant(&exp_buying_base_quantity);
            }
            let act_buying_base_quantity = match buy(buying_price, quote_quantity) {
                Some(v) => v,
                None => {
                    return None;
                },
            };
            let diff = match exp_buying_base_quantity.checked_sub(&act_buying_base_quantity) {
                Some(v) => v,
                None => {
                    return None;
                },
            };
            let quote_quantity_commission = match diff.checked_mul(&buying_price) {
                Some(v) => v,
                None => {
                    return None;
                },
            };
            result.push(
                Trade::with_buy(
                    buying_price.clone(),
                    act_buying_base_quantity,
                    quote_quantity_commission,
                ),
            );
            act_buying_base_quantity
        };
        let exp_selling_quote_quantity = match selling_price.checked_mul(&base_quantity) {
            Some(v) => v,
            None => {
                return None;
            },
        };
        let act_selling_quote_quantity = match sell(selling_price, base_quantity) {
            Some(v) => v,
            None => {
                return None;
            },
        };
        let quote_quantity_commission = match exp_selling_quote_quantity.checked_sub(
            &act_selling_quote_quantity,
        ) {
            Some(v) => v,
            None => {
                return None;
            },
        };
        result.push(
            Trade::with_sell(selling_price.clone(), base_quantity, quote_quantity_commission),
        );
        proof {
            if self.base_quantity.units() == 0 {
                assert(buy_leg(
                    result@[0],
                    *buy,
                    self.spec_max_buying_price(),
                    self.quote_quantity,
                    base_quantity,
                ));
                assert(sell_leg(
                    result@[1],
                    *sell,
                    self.spec_min_selling_price(),
                    base_quantity,
                    act_selling_quote_quantity,
                ));
                assert(short_plan(
                    result@,
                    *buy,
                    *sell,
                    self.spec_max_buying_price(),
                    self.spec_min_selling_price(),
                    self.quote_quantity,
                ));
            } else {
                assert(sell_leg(
                    result@[0],
                    *sell,
                    self.spec_min_selling_price(),
                    self.base_quantity,
                    first_act,
                ));
                assert(quote_quantity.units() == first_act.units()
                    + self.quote_quantity.units());
                assert(buy_leg(
                    result@[1],
                    *buy,
                    self.spec_max_buying_price(),
                    quote_quantity,
                    base_quantity,
                ));
                assert(sell_leg(
                    result@[2],
                    *sell,
                    self.spec_min_selling_price(),
                    base_quantity,
                    act_selling_quote_quantity,
                ));
                assert(full_plan(
                    result@,
                    *buy,
                    *sell,
                    self.spec_max_buying_price(),
                    self.spec_min_selling_price(),
                    self.base_quantity,
                    self.quote_quantity,
                ));
            }
        }
        Some(result)
    }
}

/// The flow of one trade, in quote units: a sell brings in its notional less
/// the commission; a buy pays out its notional plus the commission.  `None`
/// when a value leaves the representable range.
pub open spec fn eval_step(acc: int, t: Trade) -> Option<int> {
    let pm = t.price.spec_mantissa() * t.base_quantity.spec_mantissa();
    let n = mul_units(t.price, t.base_quantity);
    let c = t.quote_quantity_commission.units();
    if pm > i128::MAX || pm < i128::MIN || iabs(n) > UNITS_LIMIT as int {
        None
    } else if t.side == TradeSide::Sell {
        if iabs(n - c) > UNITS_LIMIT as int || iabs(acc + n - c) > UNITS_LIMIT as int {
            None
        } else {
            Some(acc + n - c)
        }
    } else {
        if iabs(n + c) > UNITS_LIMIT as int || iabs(acc - n - c) > UNITS_LIMIT as int {
            None
        } else {
            Some(acc - n - c)
        }
    }
}

/// The net quote flow of the trades, folded in order from the accumulator.
pub open spec fn eval_fold(ts: Seq<Trade>, acc: int) -> Option<int>
    decreases ts.len(),
{
    if ts.len() == 0 {
        Some(acc)
    } else {
        match eval_step(acc, ts[0]) {
            Some(acc2) => eval_fold(ts.skip(1), acc2),
            None => None,
        }
    }
}

/// Sums the trades into a net profit figure, in quote currency: sell legs
/// contribute their proceeds after commission, buy legs subtract their cost
/// including commission.  `None` when a value leaves the representable range.
pub fn evaluate(trades: &Vec<Trade>) -> (r: Option<Decimal>)
    ensures
        match r {
            Some(d) => eval_fold(trades@, 0) == Some(d.units()),
            None => eval_fold(trades@, 0) is None,
        },
{
    let mut acc = Decimal::zero();
    let len = trades.len();
    let mut i: usize = 0;
    proof {
        assert(trades@.skip(0) =~= trades@);
    }
    while i < len
        invariant
            i <= len,
            len == trades@.len(),
            eval_fold(trades@.skip(i as int), acc.units()) == eval_fold(trades@, 0),
        ensures
            i == len,
            eval_fold(trades@.skip(i as int), acc.units()) == eval_fold(trades@, 0),
        decreases len - i,
    {
        proof {
            assert(trades@.skip(i as int)[0] == trades@[i as int]);
            assert(trades@.skip(i as int).skip(1) =~= trades@.skip(i as int + 1));
        }
        let t = &trades[i];
        let notional = match t.price.checked_mul(&t.base_quantity) {
            Some(v) => v,
            None => {
                return None;
            },
        };
        match t.side {
            TradeSide::Sell => {
                let net = match notional.checked_sub(&t.quote_quantity_commission) {
                    Some(v) => v,
                    None => {
                        return None;
                    },
                };
                acc = match acc.checked_add(&net) {
                    Some(v) => v,
                    None => {
                        return None;
                    },
                };
            },
            TradeSide::Buy => {
                let spent = match notional.checked_add(&t.quote_quantity_commission) {
                    Some(v) => v,
                    None => {
                        return None;
                    },
                };
                acc = match acc.checked_sub(&spent) {
                    Some(v) => v,
                    None => {
                        return None;
                    },
                };
            },
        }
        i = i + 1;
    }
    proof {
        assert(trades@.skip(len as int) =~= Seq::<Trade>::empty());
    }
    Some(acc)
}

} // verus!
