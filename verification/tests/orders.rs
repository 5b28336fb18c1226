use tradebook::{AvgPrice, BasketOrder, BasketOrderType, Depth, DepthOrder, Error, Order};
use tradebook::{OrderType, Scrip, StockScrip, Ticker};

/// The standard five-level book used throughout: prices are fixed-point
/// with four decimal places, so 400.15 is 4_001_500.
fn test_depth() -> Depth {
    Depth {
        depth: 5,
        total_bid: 30000,
        total_ask: 50000,
        bid: vec![
            DepthOrder { price: 4_001_500, quantity: 5 },
            DepthOrder { price: 4_001_300, quantity: 4 },
            DepthOrder { price: 4_000_000, quantity: 2 },
            DepthOrder { price: 3_991_500, quantity: 2 },
            DepthOrder { price: 3_981_500, quantity: 1 },
        ],
        ask: vec![
            DepthOrder { price: 4_011_500, quantity: 5 },
            DepthOrder { price: 4_021_300, quantity: 4 },
            DepthOrder { price: 4_030_000, quantity: 2 },
            DepthOrder { price: 4_031_500, quantity: 2 },
            DepthOrder { price: 4_041_500, quantity: 1 },
        ],
    }
}

fn test_scrip() -> Scrip {
    Scrip::Stock(StockScrip::new("TEST", "NSE", "C"))
}

#[test]
fn limited_marketorder_buy() {
    let scrip = StockScrip::new("TEST", "NSE", "C");
    let buy_5 = Order {
        scrip: Scrip::Stock(scrip.clone()),
        quantity: 8,
        order_type: OrderType::MarketOrder,
    };
    let depth = test_depth();
    assert!(depth.is_well_formed());
    // (5 * 401.15 + 3 * 402.13) / 8 == 401.5175
    let avg = buy_5.avg_price(&depth);
    assert_eq!(avg, Ok(AvgPrice { cost: 32_121_400, quantity: 8 }));
    assert!(avg.unwrap().is_exactly(4_015_175));
}

#[test]
fn limited_marketorder_sell() {
    let scrip = StockScrip::new("TEST", "NSE", "C");
    let sell_5 = Order {
        scrip: Scrip::Stock(scrip.clone()),
        quantity: -8,
        order_type: OrderType::MarketOrder,
    };
    let depth = test_depth();
    // (5 * 400.15 + 3 * 400.13) / 8 == 400.1425
    let avg = sell_5.avg_price(&depth);
    assert_eq!(avg, Ok(AvgPrice { cost: 32_011_400, quantity: 8 }));
    assert!(avg.unwrap().is_exactly(4_001_425));
}

#[test]
fn unlimited_marketorder_buy() {
    let scrip = StockScrip::new("TEST", "NSE", "C");
    let buy_all = Order {
        scrip: Scrip::Stock(scrip.clone()),
        quantity: 20,
        order_type: OrderType::MarketOrder,
    };
    assert_eq!(buy_all.avg_price(&test_depth()), Err(Error::InsufficientDepth(6)));
}

#[test]
fn unlimited_marketorder_sell() {
    let scrip = StockScrip::new("TEST", "NSE", "C");
    let sell_all = Order {
        scrip: Scrip::Stock(scrip.clone()),
        quantity: -20,
        order_type: OrderType::MarketOrder,
    };
    assert_eq!(sell_all.avg_price(&test_depth()), Err(Error::InsufficientDepth(6)));
}

#[test]
fn empty_side_fails_regardless_of_quantity() {
    let mut depth = test_depth();
    depth.ask = vec![];
    let buy = Order::new(test_scrip(), 1, OrderType::MarketOrder);
    assert_eq!(buy.avg_price(&depth), Err(Error::EmptyDepth));
    let buy_big = Order::new(test_scrip(), 1_000_000, OrderType::MarketOrder);
    assert_eq!(buy_big.avg_price(&depth), Err(Error::EmptyDepth));
    // The other side still has levels, so a sell is unaffected.
    let sell = Order::new(test_scrip(), -8, OrderType::MarketOrder);
    assert!(sell.avg_price(&depth).is_ok());
}

#[test]
fn full_fill_stays_within_consumed_price_range() {
    let depth = test_depth();
    let buy = Order::new(test_scrip(), 8, OrderType::MarketOrder);
    let avg = buy.avg_price(&depth).unwrap();
    // Consumed levels span 401.15 to 402.13 per unit.
    assert!(4_011_500u64 * 8 <= avg.cost && avg.cost <= 4_021_300u64 * 8);
}

#[test]
fn available_quantity_sums_one_side() {
    let order = Order::new(test_scrip(), 3, OrderType::MarketOrder);
    let ticker = Ticker { ltp: 4_002_300, ohlc: Default::default(), depth: test_depth() };
    assert_eq!(order.available_quantity(ticker.clone(), true), 14);
    assert_eq!(order.available_quantity(ticker, false), 14);
}

#[test]
fn limit_order_executes_blindly_at_its_price() {
    let depth = test_depth();
    let order = Order::new(test_scrip(), 3, OrderType::LimitOrder(4_010_000));
    let tx = order.to_transaction(&depth).unwrap();
    assert_eq!(tx.quantity, 3);
    assert_eq!(tx.avg_price, AvgPrice { cost: 12_030_000, quantity: 3 });
    assert!(tx.avg_price.is_exactly(4_010_000));
    // Even an empty book does not stop a limit order.
    let empty = Depth { depth: 0, total_bid: 0, total_ask: 0, bid: vec![], ask: vec![] };
    assert!(order.execute(&empty).is_ok());
}

#[test]
fn limit_order_cost_overflow_is_reported() {
    let depth = test_depth();
    let order = Order::new(test_scrip(), 2, OrderType::LimitOrder(u64::MAX));
    assert_eq!(order.to_transaction(&depth).unwrap_err(), Error::Overflow);
}

#[test]
fn average_price_exactness_is_not_approximate() {
    let avg = AvgPrice { cost: 5, quantity: 2 };
    // 5/2 units is neither 2 nor 3 units exactly.
    assert!(!avg.is_exactly(2));
    assert!(!avg.is_exactly(3));
    assert!(AvgPrice { cost: 6, quantity: 2 }.is_exactly(3));
}

#[test]
fn order_margin_is_the_per_unit_price() {
    let depth = test_depth();
    let market = Order::new(test_scrip(), 8, OrderType::MarketOrder);
    assert_eq!(market.margin(&depth), Ok(AvgPrice { cost: 32_121_400, quantity: 8 }));
    let limit = Order::new(test_scrip(), 8, OrderType::LimitOrder(4_010_000));
    assert_eq!(limit.margin(&depth), Ok(AvgPrice { cost: 4_010_000, quantity: 1 }));
}

#[test]
fn basket_executes_into_one_position() {
    let depths = vec![test_depth(), test_depth()];
    let basket = BasketOrder {
        basket_order_type: BasketOrderType::AllOrNone,
        orders: vec![
            Order::new(test_scrip(), 8, OrderType::MarketOrder),
            Order::new(test_scrip(), -8, OrderType::MarketOrder),
        ],
    };
    let position = basket.execute(&depths).unwrap();
    assert_eq!(position.history.len(), 2);
    assert_eq!(position.holding.len(), 1);
    // Buying and selling the same quantity flattens the holding; the cost
    // difference is what the round trip lost.
    assert_eq!(position.holding[0].1.quantity, 0);
    assert_eq!(position.holding[0].1.cost, 32_121_400i128 - 32_011_400i128);
}

#[test]
fn basket_stops_at_the_first_failing_order() {
    let depths = vec![test_depth(), test_depth(), test_depth()];
    let basket = BasketOrder {
        basket_order_type: BasketOrderType::AllOrNone,
        orders: vec![
            Order::new(test_scrip(), 8, OrderType::MarketOrder),
            Order::new(test_scrip(), 20, OrderType::MarketOrder),
            Order::new(test_scrip(), -40, OrderType::MarketOrder),
        ],
    };
    assert_eq!(basket.to_position(&depths).unwrap_err(), Error::InsufficientDepth(6));
}

#[test]
fn basket_margin_is_the_exact_rational_sum() {
    let depths = vec![test_depth(), test_depth()];
    let basket = BasketOrder {
        basket_order_type: BasketOrderType::AllOrNone,
        orders: vec![
            Order::new(test_scrip(), 8, OrderType::MarketOrder),
            Order::new(test_scrip(), 1, OrderType::LimitOrder(1_000_000)),
        ],
    };
    let total = basket.margin(&depths).unwrap();
    // 32_121_400/8 + 1_000_000/1 == (32_121_400 + 8_000_000) / 8.
    assert_eq!(total.num, 40_121_400);
    assert_eq!(total.den, 8);
}

#[test]
fn basket_extend_concatenates_orders() {
    let mut basket = BasketOrder {
        basket_order_type: BasketOrderType::AllOrNone,
        orders: vec![Order::new(test_scrip(), 1, OrderType::MarketOrder)],
    };
    basket.add_order(Order::new(test_scrip(), 2, OrderType::MarketOrder));
    let other = BasketOrder {
        basket_order_type: BasketOrderType::AllOrNone,
        orders: vec![Order::new(test_scrip(), 3, OrderType::MarketOrder)],
    };
    basket.extend(other, Some(BasketOrderType::AllOrNone));
    assert_eq!(basket.orders.len(), 3);
    assert_eq!(basket.orders[2].quantity, 3);
}
