use harmony::decimal::Decimal;
use harmony::filter::error::SymbolFilterError;
use harmony::filter::filter_precision;
use harmony::filter::spot_market::base_quantity;
use harmony::filter::spot_market::quote_quantity;
use harmony::math::to_decimal;
use harmony::norms::{
    SymbolFilter, SymbolLotSizeFilter, SymbolMarketLotSizeFilter, SymbolMinNotionalFilter,
    SymbolNotionalFilter, SymbolNorms,
};

fn decimal(value: &str) -> Decimal {
    to_decimal(value).unwrap()
}

fn symbol_norms() -> SymbolNorms {
    SymbolNorms {
        symbol: String::from("ETHUSDT"),
        base_asset_precision: 8,
        quote_asset_precision: 8,
        filters: vec![
            SymbolFilter::LotSize(SymbolLotSizeFilter {
                min_qty: decimal("0.00010000"),
                max_qty: decimal("9000.00000000"),
                step_size: decimal("0.00010000"),
            }),
            SymbolFilter::MarketLotSize(SymbolMarketLotSizeFilter {
                min_qty: decimal("0.00000000"),
                max_qty: decimal("1701.08445000"),
                step_size: decimal("0.00000000"),
            }),
            SymbolFilter::Notional(SymbolNotionalFilter {
                min_notional: decimal("5.00000000"),
                max_notional: decimal("9000000.00000000"),
                apply_min_to_market: true,
                apply_max_to_market: false,
            }),
        ],
    }
}

fn symbol_price() -> Decimal {
    decimal("3685.96000000")
}

#[test]
pub fn test_filter_lot_size() {
    for i in symbol_norms().filters.iter() {
        if let SymbolFilter::LotSize(filter) = i {
            let quantity = &decimal("0.0001");
            let correct = base_quantity::filter_lot_size(quantity, filter).unwrap();
            assert_eq!(correct, quantity);

            let quantity = &decimal("0.0001000");
            let correct = base_quantity::filter_lot_size(quantity, filter).unwrap();
            assert_eq!(correct, quantity);

            let quantity = &decimal("7.50100000");
            let correct = base_quantity::filter_lot_size(quantity, filter).unwrap();
            assert_eq!(correct, quantity);

            let quantity = &decimal("0.0001500");
            let correct = base_quantity::filter_lot_size(quantity, filter);
            assert!(correct.is_err());

            let quantity = &decimal("0.0001500");
            let correct = base_quantity::filter_lot_size(quantity, filter);
            assert!(correct.is_err());

            let quantity = &decimal("9001.0001500");
            let correct = base_quantity::filter_lot_size(quantity, filter);
            assert!(correct.is_err());

            break;
        }
    }
}

#[test]
fn test_filter_market_lot_size() {
    for i in symbol_norms().filters.iter() {
        if let SymbolFilter::MarketLotSize(filter) = i {
            let quantity = &decimal("0.00001");
            let correct = base_quantity::filter_market_lot_size(quantity, filter).unwrap();
            assert_eq!(correct, quantity);

            let quantity = &decimal("0.00001000");
            let correct = base_quantity::filter_market_lot_size(quantity, filter).unwrap();
            assert_eq!(correct, quantity);

            let quantity = &decimal("7.510100000");
            let correct = base_quantity::filter_market_lot_size(quantity, filter).unwrap();
            assert_eq!(correct, quantity);

            let quantity = &decimal("0.00001500");
            let correct = base_quantity::filter_market_lot_size(quantity, filter).unwrap();
            assert_eq!(correct, quantity);

            let quantity = &decimal("1800.00000");
            let correct = base_quantity::filter_market_lot_size(quantity, filter);
            assert!(correct.is_err());

            let quantity = &decimal("9001.00001500");
            let correct = base_quantity::filter_market_lot_size(quantity, filter);
            assert!(correct.is_err());

            break;
        }
    }
}

#[test]
fn test_filter_notional() {
    let price = &symbol_price();

    for i in symbol_norms().filters.iter() {
        if let SymbolFilter::Notional(filter) = i {
            let quantity = &decimal("0.0015");
            let correct = base_quantity::filter_notional(price, quantity, filter).unwrap();
            assert_eq!(correct, quantity);

            let quantity = &decimal("0.0005");
            let correct = base_quantity::filter_notional(price, quantity, filter);
            assert!(correct.is_err());

            let quantity = &decimal("0.00000001");
            let correct = base_quantity::filter_notional(price, quantity, filter);
            assert!(correct.is_err());

            break;
        }
    }
}

// The step size here is the one the expected values pin: rounding down to a
// multiple of 0.00001 keeps 0.00001, trims 0.00001500 to 0.00001000 and
// leaves zero at zero.
#[test]
fn test_correct_lot_size() {
    let filter = SymbolLotSizeFilter {
        min_qty: decimal("0.00010000"),
        max_qty: decimal("9000.00000000"),
        step_size: decimal("0.00001000"),
    };

    let quantity = &decimal("0.00001");
    let correct = &base_quantity::correct_lot_size(quantity, &filter).unwrap();
    assert_eq!(correct, quantity);

    let quantity = &decimal("0.00001500");
    let correct = &base_quantity::correct_lot_size(quantity, &filter).unwrap();
    assert_eq!(correct, &decimal("0.00001000"));

    let quantity = &decimal("0.000000");
    let correct = &base_quantity::correct_lot_size(quantity, &filter).unwrap();
    assert_eq!(correct, &decimal("0.000000"));
}

fn rejection_norms() -> SymbolNorms {
    SymbolNorms {
        symbol: String::from("ETHUSDT"),
        base_asset_precision: 8,
        quote_asset_precision: 8,
        filters: vec![SymbolFilter::LotSize(SymbolLotSizeFilter {
            min_qty: decimal("0.01"),
            max_qty: decimal("100"),
            step_size: decimal("0.001"),
        })],
    }
}

#[test]
fn test_lot_size_rejection() {
    let norms = rejection_norms();
    let price = decimal("100");

    // a raw quantity off the step and below the minimum is a hard reject
    let result = base_quantity::filter(&norms, &price, &decimal("0.0005"));
    assert_eq!(result, Err(SymbolFilterError::LotSize));

    // correction rounds 0.0015 down onto the 0.001 step
    let corrected = base_quantity::correct(&norms, &price, &decimal("0.0015")).unwrap();
    assert_eq!(corrected, decimal("0.001"));

    // a corrected quantity within bounds passes the filter
    let corrected = base_quantity::correct(&norms, &price, &decimal("10.0015")).unwrap();
    assert_eq!(corrected, decimal("10.001"));
    assert!(base_quantity::filter(&norms, &price, &corrected).is_ok());
}

#[test]
fn test_correct_idempotence() {
    let norms = rejection_norms();
    let price = decimal("100");
    for raw in ["0.0015", "10.0015", "99.99999999", "0", "3.14159", "0.0005"] {
        let once = base_quantity::correct(&norms, &price, &decimal(raw)).unwrap();
        let twice = base_quantity::correct(&norms, &price, &once).unwrap();
        assert_eq!(once, twice);
    }
}

#[test]
fn test_notional_boundary() {
    let price = decimal("100");
    let quantity = decimal("0.05");

    let applied = SymbolNotionalFilter {
        min_notional: decimal("10"),
        max_notional: decimal("9000000"),
        apply_min_to_market: true,
        apply_max_to_market: false,
    };
    let result = base_quantity::filter_notional(&price, &quantity, &applied);
    assert_eq!(result, Err(SymbolFilterError::Notional));

    let not_applied = SymbolNotionalFilter {
        min_notional: decimal("10"),
        max_notional: decimal("9000000"),
        apply_min_to_market: false,
        apply_max_to_market: false,
    };
    assert!(base_quantity::filter_notional(&price, &quantity, &not_applied).is_ok());

    // a quote quantity is compared against the bound directly
    let quote = decimal("5");
    let min_notional = SymbolMinNotionalFilter {
        min_notional: decimal("10"),
        apply_to_market: true,
    };
    let result = quote_quantity::filter_min_notional(&quote, &min_notional);
    assert_eq!(result, Err(SymbolFilterError::MinNotional));
    let relaxed = SymbolMinNotionalFilter {
        min_notional: decimal("10"),
        apply_to_market: false,
    };
    assert!(quote_quantity::filter_min_notional(&quote, &relaxed).is_ok());
}

#[test]
fn test_filter_precision_scale() {
    let quantity = decimal("0.123456789");
    assert_eq!(
        filter_precision(&quantity, 8),
        Err(SymbolFilterError::Precision)
    );
    assert!(filter_precision(&quantity, 9).is_ok());

    // a representation with trailing zeros carries its written scale
    let padded = decimal("0.10000000000");
    assert_eq!(
        filter_precision(&padded, 8),
        Err(SymbolFilterError::Precision)
    );
}

#[test]
fn test_error_kinds() {
    let norms = symbol_norms();
    let price = symbol_price();
    // above the market lot-size ceiling
    let result = base_quantity::filter(&norms, &price, &decimal("1800"));
    assert_eq!(result, Err(SymbolFilterError::MarketLotSize));
    // off the lot-size step
    let result = base_quantity::filter(&norms, &price, &decimal("0.00015"));
    assert_eq!(result, Err(SymbolFilterError::LotSize));
    // too many fractional digits for the quote asset
    let result = quote_quantity::filter(&norms, &price, &decimal("1.000000001"));
    assert_eq!(result, Err(SymbolFilterError::Precision));
    // a malformed numeric string
    assert_eq!(to_decimal("not a number"), Err(SymbolFilterError::Decimal));
}

#[test]
fn test_correct_quote_precision() {
    let norms = symbol_norms();
    let price = decimal("100");
    let corrected = quote_quantity::correct(&norms, &price, &decimal("1.0123456789")).unwrap();
    assert_eq!(corrected, decimal("1.01234567"));
    assert_eq!(corrected.scale(), 8);
}
