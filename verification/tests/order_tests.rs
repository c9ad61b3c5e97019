use harmony::api::{reply, Payload};
use harmony::decimal::Decimal;
use harmony::filter::error::SymbolFilterError;
use harmony::math::{to_decimal, Range};
use harmony::norms::{SymbolFilter, SymbolLotSizeFilter, SymbolNorms};
use harmony::order::{buy, execute, sell, to_buy_trades, to_sell_trades, Fill, OrderFill, Position};
use harmony::ploy::TradeSide;
use harmony::spot::{BinanceSpotTest, ConvertFilter, ConvertTrades};
use harmony::types::Quantity;

fn dec(value: &str) -> Decimal {
    to_decimal(value).unwrap()
}

fn open_norms() -> SymbolNorms {
    SymbolNorms {
        symbol: String::from("ETHUSDT"),
        base_asset_precision: 8,
        quote_asset_precision: 8,
        filters: vec![],
    }
}

// A placement capability that fills the whole quantity at one price with a
// fixed commission, like an exchange with infinite liquidity.
fn fill_all(
    price: Decimal,
    commission: Decimal,
) -> impl Fn(TradeSide, Quantity) -> Option<OrderFill> {
    move |side: TradeSide, quantity: Quantity| {
        let qty = match side {
            TradeSide::Buy => quantity.checked_div(&price)?,
            TradeSide::Sell => quantity,
        };
        Some(OrderFill {
            order_id: 1,
            symbol: String::from("ETHUSDT"),
            side,
            transact_time: 1,
            fills: vec![Fill { price, qty, commission }],
        })
    }
}

#[test]
fn test_commission_asymmetry_round_trip() {
    // a buy fill at price 100 for 10 base with 0.01 base commission
    let fills = vec![Fill {
        price: dec("100"),
        qty: dec("10"),
        commission: dec("0.01"),
    }];
    let (trades, income) = to_buy_trades(&fills).unwrap();
    assert_eq!(trades.len(), 1);
    assert_eq!(trades[0].base_quantity, dec("10"));
    // the commission is valued in quote at the fill price: 100 * 0.01 = 1
    assert_eq!(trades[0].quote_quantity_commission, dec("1"));
    // the base received nets the base commission: 10 - 0.01
    assert_eq!(income, dec("9.99"));

    // the same numbers on a sell leg keep the commission as it came
    let (trades, income) = to_sell_trades(&fills).unwrap();
    assert_eq!(trades[0].quote_quantity_commission, dec("0.01"));
    assert_eq!(income, dec("999.99"));
}

#[test]
fn test_buy_leg_balances() {
    let norms = open_norms();
    let price = dec("100");
    let mut position = Position {
        buying_price: vec![Range(dec("90"), dec("110"))],
        selling_price: vec![],
        base_quantity: dec("0"),
        quote_quantity: dec("1000"),
    };
    let place = move |side: TradeSide, _quantity: Quantity| {
        Some(OrderFill {
            order_id: 9,
            symbol: String::from("ETHUSDT"),
            side,
            transact_time: 5,
            fills: vec![Fill {
                price: dec("100"),
                qty: dec("10"),
                commission: dec("0.01"),
            }],
        })
    };
    let order = buy(&price, &norms, &mut position, &place).unwrap();
    assert_eq!(order.order_id, 9);
    assert!(matches!(order.side, TradeSide::Buy));
    // the quote balance drops by the pre-commission corrected quantity
    assert_eq!(position.quote_quantity, dec("0"));
    // the base balance rises by the net base received
    assert_eq!(position.base_quantity, dec("9.99"));
}

#[test]
fn test_end_to_end_buy_pass() {
    // price 40 sits inside the buy band only; with zero commission the whole
    // quote balance becomes 20 / 40 = 0.5 base
    let norms = open_norms();
    let price = dec("40");
    let positions = vec![Position {
        buying_price: vec![Range(dec("30"), dec("50"))],
        selling_price: vec![Range(dec("200"), dec("250"))],
        base_quantity: dec("0"),
        quote_quantity: dec("20"),
    }];
    let place = fill_all(dec("40"), dec("0"));
    let (positions, orders) = execute(&price, &norms, positions, &place);
    assert_eq!(orders.len(), 1);
    assert!(matches!(orders[0].side, TradeSide::Buy));
    assert_eq!(positions[0].quote_quantity, dec("0"));
    assert_eq!(positions[0].base_quantity, dec("0.5"));
}

#[test]
fn test_multi_range_selling() {
    // price 202 sits in the second selling band; the whole base balance is
    // sold
    let norms = open_norms();
    let price = dec("202");
    let mut position = Position {
        buying_price: vec![],
        selling_price: vec![Range(dec("210"), dec("250")), Range(dec("200"), dec("205"))],
        base_quantity: dec("5"),
        quote_quantity: dec("20"),
    };
    let place = fill_all(dec("202"), dec("0"));
    let order = sell(&price, &norms, &mut position, &place).unwrap();
    assert!(matches!(order.side, TradeSide::Sell));
    assert_eq!(order.trades.len(), 1);
    assert_eq!(order.trades[0].base_quantity, dec("5"));
    assert_eq!(position.base_quantity, dec("0"));
    assert_eq!(position.quote_quantity, dec("1030"));

    // just outside the band nothing happens
    let mut untouched = Position {
        buying_price: vec![],
        selling_price: vec![Range(dec("210"), dec("250")), Range(dec("200"), dec("205"))],
        base_quantity: dec("5"),
        quote_quantity: dec("20"),
    };
    assert!(sell(&dec("205"), &norms, &mut untouched, &place).is_none());
    assert_eq!(untouched.base_quantity, dec("5"));
    assert_eq!(untouched.quote_quantity, dec("20"));
}

#[test]
fn test_sell_then_buy_in_one_pass() {
    // the price sits in both bands: the sell leg runs first and the buy leg
    // spends the quote it freed
    let norms = open_norms();
    let price = dec("100");
    let positions = vec![Position {
        buying_price: vec![Range(dec("95"), dec("105"))],
        selling_price: vec![Range(dec("90"), dec("110"))],
        base_quantity: dec("2"),
        quote_quantity: dec("0"),
    }];
    let place = fill_all(dec("100"), dec("0"));
    let (positions, orders) = execute(&price, &norms, positions, &place);
    assert_eq!(orders.len(), 2);
    assert!(matches!(orders[0].side, TradeSide::Sell));
    assert!(matches!(orders[1].side, TradeSide::Buy));
    // 2 base sold for 200 quote, then 200 quote buys 2 base back
    assert_eq!(positions[0].base_quantity, dec("2"));
    assert_eq!(positions[0].quote_quantity, dec("0"));
}

#[test]
fn test_filter_skips_leg() {
    // the corrected quantity falls below the minimum lot: the leg is skipped
    // and the balances stay untouched
    let norms = SymbolNorms {
        symbol: String::from("ETHUSDT"),
        base_asset_precision: 8,
        quote_asset_precision: 8,
        filters: vec![SymbolFilter::LotSize(SymbolLotSizeFilter {
            min_qty: dec("0.01"),
            max_qty: dec("100"),
            step_size: dec("0.001"),
        })],
    };
    let price = dec("202");
    let mut position = Position {
        buying_price: vec![],
        selling_price: vec![Range(dec("200"), dec("205"))],
        base_quantity: dec("0.0005"),
        quote_quantity: dec("20"),
    };
    let place = fill_all(dec("202"), dec("0"));
    assert!(sell(&price, &norms, &mut position, &place).is_none());
    assert_eq!(position.base_quantity, dec("0.0005"));
    assert_eq!(position.quote_quantity, dec("20"));
}

#[test]
fn test_simulated_executor() {
    let agent = BinanceSpotTest::new(open_norms(), dec("0.001"));

    let trades = agent.buy(&dec("50"), &dec("20")).unwrap();
    assert_eq!(trades.len(), 1);
    assert!(matches!(trades[0].side, TradeSide::Buy));
    // 20 / 50 = 0.4 base, less the 0.001 rate: 0.3996
    assert_eq!(trades[0].base_quantity, dec("0.3996"));
    assert_eq!(trades[0].quote_quantity_commission, dec("20"));

    let trades = agent.sell(&dec("200"), &dec("0.4")).unwrap();
    assert_eq!(trades.len(), 1);
    assert!(matches!(trades[0].side, TradeSide::Sell));
    assert_eq!(trades[0].base_quantity, dec("0.4"));
    // 0.4 * 200 = 80, less the 0.001 rate: 79.92
    assert_eq!(trades[0].quote_quantity_commission, dec("79.92"));

    // the simulated executor declines a zero price
    assert!(agent.buy(&dec("0"), &dec("20")).is_err());
}

#[test]
fn test_reply_pass() {
    let norms = open_norms();
    let price = dec("40");
    let payload = Payload {
        api_key: String::from("k"),
        secret_key: String::from("s"),
        symbol: String::from("ETHUSDT"),
        positions: vec![Position {
            buying_price: vec![Range(dec("30"), dec("50"))],
            selling_price: vec![Range(dec("200"), dec("250"))],
            base_quantity: dec("0"),
            quote_quantity: dec("20"),
        }],
    };
    let place = fill_all(dec("40"), dec("0"));
    let out = reply(payload, &price, &norms, &place);
    assert_eq!(out.positions.len(), 1);
    assert_eq!(out.order.len(), 1);
    assert_eq!(out.positions[0].base_quantity, dec("0.5"));
}

#[test]
fn test_convert_filter_methods() {
    let norms = SymbolNorms {
        symbol: String::from("ETHUSDT"),
        base_asset_precision: 8,
        quote_asset_precision: 8,
        filters: vec![SymbolFilter::LotSize(SymbolLotSizeFilter {
            min_qty: dec("0.01"),
            max_qty: dec("100"),
            step_size: dec("0.001"),
        })],
    };
    let price = dec("100");
    assert!(norms.filter_base_quantity(&price, &dec("0.5")).is_ok());
    assert_eq!(
        norms.filter_base_quantity(&price, &dec("0.0005")),
        Err(SymbolFilterError::LotSize)
    );
    assert!(norms.filter_quote_quantity(&price, &dec("20")).is_ok());
    let corrected = norms.correct_base_quantity(&price, &dec("0.5015")).unwrap();
    assert_eq!(corrected, dec("0.501"));
    let corrected = norms
        .correct_quote_quantity(&price, &dec("1.0123456789"))
        .unwrap();
    assert_eq!(corrected, dec("1.01234567"));
}

#[test]
fn test_convert_trades() {
    let of = OrderFill {
        order_id: 3,
        symbol: String::from("ETHUSDT"),
        side: TradeSide::Sell,
        transact_time: 2,
        fills: vec![
            Fill { price: dec("100"), qty: dec("1"), commission: dec("0.1") },
            Fill { price: dec("101"), qty: dec("2"), commission: dec("0.2") },
        ],
    };
    let (trades, income) = of.to_trades().unwrap();
    assert_eq!(trades.len(), 2);
    assert_eq!(trades[1].quote_quantity_commission, dec("0.2"));
    // 100 + 202 proceeds, less 0.3 commission
    assert_eq!(income, dec("301.7"));
}
