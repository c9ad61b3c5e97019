use harmony::decimal::Decimal;
use harmony::math::{to_decimal, Range};
use harmony::ploy::{evaluate, Position, Trade, TradeSide};
use harmony::types::{BaseQuantity, Price, QuoteQuantity};

fn dec(value: &str) -> Decimal {
    to_decimal(value).unwrap()
}

fn buy(commission: Decimal) -> impl Fn(Price, QuoteQuantity) -> Option<BaseQuantity> {
    move |price: Price, quantity: QuoteQuantity| {
        if price.gt(&Decimal::zero()) {
            let expected = quantity.checked_div(&price)?;
            let keep = Decimal::one().checked_sub(&commission)?;
            return expected.checked_mul(&keep);
        }

        None
    }
}

fn sell(commission: Decimal) -> impl Fn(Price, BaseQuantity) -> Option<QuoteQuantity> {
    move |price: Price, quantity: BaseQuantity| {
        if price.gt(&Decimal::zero()) {
            let expected = quantity.checked_mul(&price)?;
            let keep = Decimal::one().checked_sub(&commission)?;
            return expected.checked_mul(&keep);
        }

        None
    }
}

#[test]
fn test_min_profit_trades_with_short() {
    let position = Position {
        buying_prices: vec![Range(dec("30"), dec("50"))],
        selling_prices: vec![Range(dec("200"), dec("250"))],
        base_quantity: dec("0.0"),
        quote_quantity: dec("20.0"),
    };

    let trades = position
        .min_profit_trades(&buy(dec("0")), &sell(dec("0")))
        .unwrap();
    assert_eq!(
        trades,
        vec![
            Trade::with_buy(dec("50"), dec("0.4"), dec("0")),
            Trade::with_sell(dec("200"), dec("0.4"), dec("0"))
        ]
    );

    let trades = position
        .min_profit_trades(&buy(dec("0.001")), &sell(dec("0.001")))
        .unwrap();
    assert_eq!(
        trades,
        vec![
            Trade::with_buy(dec("50"), dec("0.3996"), dec("0.02")),
            Trade::with_sell(dec("200"), dec("0.3996"), dec("0.0799200"))
        ]
    );
}

#[test]
fn test_min_profit_trades() {
    let position = Position {
        buying_prices: vec![Range(dec("30"), dec("80"))],
        selling_prices: vec![Range(dec("210"), dec("250"))],
        base_quantity: dec("5.0"),
        quote_quantity: dec("20.0"),
    };

    let trades = position
        .min_profit_trades(&buy(dec("0")), &sell(dec("0")))
        .unwrap();
    assert_eq!(
        trades,
        vec![
            Trade::with_sell(dec("210"), dec("5"), dec("0")),
            Trade::with_buy(dec("80"), dec("13.375"), dec("0")),
            Trade::with_sell(dec("210"), dec("13.375"), dec("0"))
        ]
    );
}

#[test]
fn test_min_profit_trades_with_mulit_prices() {
    let position = Position {
        buying_prices: vec![Range(dec("30"), dec("80")), Range(dec("90"), dec("100"))],
        selling_prices: vec![Range(dec("210"), dec("250")), Range(dec("205"), dec("200"))],
        base_quantity: dec("5.0"),
        quote_quantity: dec("20.0"),
    };

    let trades = position
        .min_profit_trades(&buy(dec("0")), &sell(dec("0")))
        .unwrap();
    assert_eq!(
        trades,
        vec![
            Trade::with_sell(dec("200"), dec("5"), dec("0")),
            Trade::with_buy(dec("100"), dec("10.2"), dec("0")),
            Trade::with_sell(dec("200"), dec("10.2"), dec("0"))
        ]
    );
}

#[test]
fn test_min_profit_trades_not_tradable() {
    // no buy band means a zero worst-case buying price: nothing is planned
    let position = Position {
        buying_prices: vec![],
        selling_prices: vec![Range(dec("200"), dec("250"))],
        base_quantity: dec("1"),
        quote_quantity: dec("20"),
    };
    assert!(position
        .min_profit_trades(&buy(dec("0")), &sell(dec("0")))
        .is_none());

    // a negative balance is not tradable either
    let position = Position {
        buying_prices: vec![Range(dec("30"), dec("50"))],
        selling_prices: vec![Range(dec("200"), dec("250"))],
        base_quantity: dec("-1"),
        quote_quantity: dec("20"),
    };
    assert!(position
        .min_profit_trades(&buy(dec("0")), &sell(dec("0")))
        .is_none());
}

#[test]
fn test_max_buying_and_min_selling_price() {
    let position = Position {
        buying_prices: vec![Range(dec("30"), dec("80")), Range(dec("100"), dec("90"))],
        selling_prices: vec![Range(dec("210"), dec("250")), Range(dec("205"), dec("200"))],
        base_quantity: dec("0"),
        quote_quantity: dec("0"),
    };
    assert_eq!(position.max_buying_price(), dec("100"));
    assert_eq!(position.min_selling_price(), dec("200"));
    assert!(position.is_short());
}

#[test]
fn test_evaluate_profit() {
    // buy 0.4 base at 50 for 20 quote, sell it at 200 for 80 quote
    let trades = vec![
        Trade::with_buy(dec("50"), dec("0.4"), dec("0")),
        Trade::with_sell(dec("200"), dec("0.4"), dec("0")),
    ];
    let profit = evaluate(&trades).unwrap();
    assert_eq!(profit, dec("60"));

    // commissions reduce the net flow on both sides
    let trades = vec![
        Trade::with_buy(dec("50"), dec("0.3996"), dec("0.02")),
        Trade::with_sell(dec("200"), dec("0.3996"), dec("0.0799200")),
    ];
    let profit = evaluate(&trades).unwrap();
    // -(19.98 + 0.02) + (79.92 - 0.07992)
    assert_eq!(profit, dec("59.84008"));

    let no_trades: Vec<Trade> = vec![];
    assert_eq!(evaluate(&no_trades).unwrap(), dec("0"));
}

#[test]
fn test_trade_sides() {
    let t = Trade::with_buy(dec("50"), dec("1"), dec("0"));
    assert!(matches!(t.side, TradeSide::Buy));
    let t = Trade::with_sell(dec("50"), dec("1"), dec("0"));
    assert!(matches!(t.side, TradeSide::Sell));
    let t = Trade::new(TradeSide::Buy, dec("50"), dec("1"), dec("0"), 7);
    assert_eq!(t.timestamp, 7);
}
