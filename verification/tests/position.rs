use tradebook::{AvgPrice, Error, Position, Scrip, StockScrip, Transaction};

fn scrip(name: &str) -> Scrip {
    Scrip::Stock(StockScrip::new(name, "NSE", "C"))
}

fn tx(name: &str, quantity: i32, cost: u64, exec_time: i64) -> Transaction {
    Transaction {
        scrip: scrip(name),
        quantity,
        avg_price: AvgPrice { cost, quantity: quantity.unsigned_abs() },
        exec_time,
    }
}

#[test]
fn weighted_average_of_same_direction_fills() {
    let mut position: Position = Default::default();
    // Buy 5 at 100 units each, then 15 at 200 units each.
    position.add_transaction(tx("A", 5, 500, 1)).unwrap();
    position.add_transaction(tx("A", 15, 3000, 2)).unwrap();
    assert_eq!(position.holding.len(), 1);
    let holding = position.holding[0].1;
    assert_eq!(holding.quantity, 20);
    assert_eq!(holding.cost, 3500);
    // The average price is 3500/20 == 175, the quantity-weighted mean of
    // 100 and 200 with weights 5 and 15.
    assert_eq!(holding.average_price(), Some((3500, 20)));
    assert_eq!(3500 % 20, 0);
    assert_eq!(3500 / 20, 175);
}

#[test]
fn flat_position_keeps_entry_without_average() {
    let mut position: Position = Default::default();
    position.add_transaction(tx("A", 10, 1000, 1)).unwrap();
    position.add_transaction(tx("A", -10, 900, 2)).unwrap();
    assert_eq!(position.holding.len(), 1);
    let holding = position.holding[0].1;
    assert_eq!(holding.quantity, 0);
    assert_eq!(holding.cost, 100);
    // A flat position has no defined average price.
    assert_eq!(holding.average_price(), None);
}

#[test]
fn holdings_are_keyed_by_instrument_identity() {
    let mut position: Position = Default::default();
    position.add_transaction(tx("A", 1, 10, 1)).unwrap();
    position.add_transaction(tx("B", 2, 20, 2)).unwrap();
    position.add_transaction(tx("A", 3, 30, 3)).unwrap();
    assert_eq!(position.history.len(), 3);
    assert_eq!(position.holding.len(), 2);
    assert!(position.holding[0].0 == scrip("A"));
    assert_eq!(position.holding[0].1.quantity, 4);
    assert_eq!(position.holding[0].1.cost, 40);
    assert!(position.holding[1].0 == scrip("B"));
    assert_eq!(position.holding[1].1.quantity, 2);
}

#[test]
fn three_records_in_any_insertion_order_agree() {
    let records = [tx("A", 5, 500, 3), tx("A", -2, 250, 1), tx("A", 7, 2100, 2)];
    let orders: [[usize; 3]; 3] = [[0, 1, 2], [2, 0, 1], [1, 2, 0]];
    for order in orders.iter() {
        let mut position: Position = Default::default();
        for &i in order.iter() {
            let t = &records[i];
            position
                .add_transaction(Transaction {
                    scrip: t.scrip.clone(),
                    quantity: t.quantity,
                    avg_price: t.avg_price,
                    exec_time: t.exec_time,
                })
                .unwrap();
        }
        assert_eq!(position.holding.len(), 1);
        assert_eq!(position.holding[0].1.quantity, 10);
        assert_eq!(position.holding[0].1.cost, 500 - 250 + 2100);
    }
}

fn holding_of(position: &Position, key: &Scrip) -> Option<(i64, i128)> {
    position
        .holding
        .iter()
        .find(|h| h.0 == *key)
        .map(|h| (h.1.quantity, h.1.cost))
}

#[test]
fn weighted_average_over_generated_sequences() {
    // A fixed linear congruential generator stands in for randomness, so
    // the sequences vary but the test stays reproducible.
    let mut state: u64 = 0x2545_F491_4F6C_DD1D;
    let mut draw = move || {
        state = state.wrapping_mul(6364136223846793005).wrapping_add(1442695040888963407);
        state >> 33
    };
    for round in 0..20 {
        let mut position: Position = Default::default();
        let mut total_quantity: i64 = 0;
        let mut total_cost: i128 = 0;
        let sell = round % 2 == 1;
        let n = 1 + (draw() % 9) as usize;
        for k in 0..n {
            let quantity = 1 + (draw() % 50) as i32;
            let price_units = 1 + (draw() % 10_000) as u64;
            let cost = price_units * quantity as u64;
            let signed_quantity = if sell { -quantity } else { quantity };
            position.add_transaction(tx("R", signed_quantity, cost, k as i64)).unwrap();
            total_quantity += signed_quantity as i64;
            total_cost += if sell { -(cost as i128) } else { cost as i128 };
        }
        // The holding is exactly (sum of quantities, sum of costs), so its
        // average price is the quantity-weighted mean of the fill prices.
        assert_eq!(holding_of(&position, &scrip("R")), Some((total_quantity, total_cost)));
    }
}

#[test]
fn permuted_generated_histories_yield_identical_holdings() {
    let mut state: u64 = 0x9E37_79B9_7F4A_7C15;
    let mut draw = move || {
        state = state.wrapping_mul(6364136223846793005).wrapping_add(1442695040888963407);
        state >> 33
    };
    let names = ["A", "B", "C"];
    for _round in 0..10 {
        let n = 2 + (draw() % 8) as usize;
        let mut records: Vec<Transaction> = Vec::new();
        for k in 0..n {
            let name = names[(draw() % 3) as usize];
            let quantity = if draw() % 2 == 0 { 1 } else { -1 } * (1 + (draw() % 40) as i32);
            let cost = (1 + draw() % 5_000) * quantity.unsigned_abs() as u64;
            records.push(tx(name, quantity, cost, k as i64));
        }
        let mut forward: Position = Default::default();
        for t in records.iter() {
            forward
                .add_transaction(Transaction {
                    scrip: t.scrip.clone(),
                    quantity: t.quantity,
                    avg_price: t.avg_price,
                    exec_time: t.exec_time,
                })
                .unwrap();
        }
        let mut backward: Position = Default::default();
        for t in records.iter().rev() {
            backward
                .add_transaction(Transaction {
                    scrip: t.scrip.clone(),
                    quantity: t.quantity,
                    avg_price: t.avg_price,
                    exec_time: t.exec_time,
                })
                .unwrap();
        }
        for name in names.iter() {
            assert_eq!(holding_of(&forward, &scrip(name)), holding_of(&backward, &scrip(name)));
        }
    }
}

#[test]
fn sort_history_orders_by_time_and_keeps_holdings() {
    let mut position: Position = Default::default();
    position.add_transaction(tx("A", 1, 10, 30)).unwrap();
    position.add_transaction(tx("B", 2, 20, 10)).unwrap();
    position.add_transaction(tx("A", 3, 30, 20)).unwrap();
    let holding_before: Vec<(i64, i128)> =
        position.holding.iter().map(|h| (h.1.quantity, h.1.cost)).collect();
    position.sort_history();
    assert_eq!(position.history.len(), 3);
    assert!(position.history[0].exec_time <= position.history[1].exec_time);
    assert!(position.history[1].exec_time <= position.history[2].exec_time);
    assert_eq!(position.history[0].exec_time, 10);
    let holding_after: Vec<(i64, i128)> =
        position.holding.iter().map(|h| (h.1.quantity, h.1.cost)).collect();
    assert_eq!(holding_before, holding_after);
}

#[test]
fn extend_merges_history_and_holdings() {
    let mut left: Position = Default::default();
    left.add_transaction(tx("A", 5, 500, 1)).unwrap();
    left.add_transaction(tx("B", 1, 100, 2)).unwrap();
    let mut right: Position = Default::default();
    right.add_transaction(tx("A", 15, 3000, 3)).unwrap();
    right.add_transaction(tx("C", 2, 40, 4)).unwrap();
    left.extend(right).unwrap();
    assert_eq!(left.history.len(), 4);
    assert_eq!(left.holding.len(), 3);
    assert!(left.holding[0].0 == scrip("A"));
    assert_eq!(left.holding[0].1.quantity, 20);
    assert_eq!(left.holding[0].1.cost, 3500);
    assert!(left.holding[2].0 == scrip("C"));
    assert_eq!(left.holding[2].1.quantity, 2);
}

#[test]
fn update_holding_folds_a_delta_without_history() {
    let mut position: Position = Default::default();
    position.update_holding(scrip("A"), 5, AvgPrice { cost: 500, quantity: 5 }).unwrap();
    position.update_holding(scrip("A"), -2, AvgPrice { cost: 250, quantity: 2 }).unwrap();
    assert_eq!(position.history.len(), 0);
    assert_eq!(position.holding[0].1.quantity, 3);
    assert_eq!(position.holding[0].1.cost, 250);
}

#[test]
fn pnl_is_market_value_minus_cost_basis() {
    let mut position: Position = Default::default();
    position.add_transaction(tx("A", 20, 3500, 1)).unwrap();
    position.add_transaction(tx("B", -4, 1000, 2)).unwrap();
    // A trades at 180 units now, B at 260 units.
    let prices = vec![180u64, 260u64];
    // 20 * 180 - 3500 == 100; -4 * 260 - (-1000) == -40.
    assert_eq!(position.get_pnl(&prices), Ok(60));
}

#[test]
fn pnl_of_a_flat_holding_is_its_residual_cost() {
    let mut position: Position = Default::default();
    position.add_transaction(tx("A", 10, 1000, 1)).unwrap();
    position.add_transaction(tx("A", -10, 900, 2)).unwrap();
    let prices = vec![777u64];
    assert_eq!(position.get_pnl(&prices), Ok(-100));
}

#[test]
fn stock_and_index_with_one_key_are_one_instrument() {
    // Equality is by canonical key, not by variant.
    let stock = Scrip::Stock(StockScrip::new("SBIN", "NSE", "C"));
    let also_stock = Scrip::Index(StockScrip::new("SBIN", "NSE", "C"));
    let index = Scrip::Index(StockScrip::new("SBIN", "NSE", "I"));
    assert!(stock == also_stock);
    assert!(stock != index);

    let mut position: Position = Default::default();
    position
        .add_transaction(Transaction {
            scrip: stock,
            quantity: 1,
            avg_price: AvgPrice { cost: 10, quantity: 1 },
            exec_time: 1,
        })
        .unwrap();
    position
        .add_transaction(Transaction {
            scrip: also_stock,
            quantity: 2,
            avg_price: AvgPrice { cost: 20, quantity: 2 },
            exec_time: 2,
        })
        .unwrap();
    assert_eq!(position.holding.len(), 1);
    assert_eq!(position.holding[0].1.quantity, 3);
}
