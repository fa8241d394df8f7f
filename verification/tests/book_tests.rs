use dex_mirror::book::OrderBook;
use dex_mirror::types::{OrderStatus, OrderType, SpotOrder, StoreError, TradeEvent};

fn order(id: u64, side: OrderType, price: u64, amount: u64) -> SpotOrder {
    SpotOrder {
        id,
        user: 1,
        asset: 2,
        amount,
        price,
        timestamp: 1_700_000_000,
        order_type: side,
        status: OrderStatus::Active,
        block_number: 100,
    }
}

#[test]
fn new_store_is_empty() {
    let book = OrderBook::new();
    assert!(book.get_orders_in_range(0, u64::MAX, OrderType::Buy).is_empty());
    assert!(book.get_orders_in_range(0, u64::MAX, OrderType::Sell).is_empty());
    assert!(book.get_trade_events().is_empty());
}

#[test]
fn upsert_inserts_and_range_returns() {
    let mut book = OrderBook::new();
    assert_eq!(book.upsert(order(1, OrderType::Buy, 50, 10)), Ok(()));
    let bids = book.get_orders_in_range(0, u64::MAX, OrderType::Buy);
    assert_eq!(bids.len(), 1);
    assert_eq!(bids[0].id, 1);
    assert_eq!(bids[0].price, 50);
    assert!(book.get_orders_in_range(0, u64::MAX, OrderType::Sell).is_empty());
}

#[test]
fn upsert_updates_amount_and_status_only() {
    let mut book = OrderBook::new();
    assert_eq!(book.upsert(order(1, OrderType::Buy, 50, 10)), Ok(()));
    let mut changed = order(1, OrderType::Buy, 60, 4);
    changed.status = OrderStatus::PartiallyFilled;
    assert_eq!(book.upsert(changed), Ok(()));
    let got = book.get_order(1).unwrap();
    assert_eq!(got.amount, 4);
    assert_eq!(got.status, OrderStatus::PartiallyFilled);
    // The resting price is kept: only amount and status change for a known id.
    assert_eq!(got.price, 50);
}

#[test]
fn upsert_rejects_side_change() {
    let mut book = OrderBook::new();
    assert_eq!(book.upsert(order(1, OrderType::Buy, 50, 10)), Ok(()));
    let flipped = order(1, OrderType::Sell, 50, 10);
    assert_eq!(book.upsert(flipped), Err(StoreError::SideMismatch));
    // The order is untouched and still a bid.
    let got = book.get_order(1).unwrap();
    assert_eq!(got.order_type, OrderType::Buy);
    assert_eq!(got.amount, 10);
}

#[test]
fn close_unknown_id_is_reported() {
    let mut book = OrderBook::new();
    assert_eq!(book.close(42, OrderStatus::Cancelled), Err(StoreError::UnknownId));
}

#[test]
fn close_retains_order_with_status() {
    let mut book = OrderBook::new();
    assert_eq!(book.upsert(order(1, OrderType::Buy, 50, 10)), Ok(()));
    assert_eq!(book.close(1, OrderStatus::Cancelled), Ok(()));
    // No longer active, so range queries skip it.
    assert!(book.get_orders_in_range(0, u64::MAX, OrderType::Buy).is_empty());
    // But its status stays queryable.
    let got = book.get_order(1).unwrap();
    assert_eq!(got.status, OrderStatus::Cancelled);
}

#[test]
fn close_already_closed_is_noop() {
    let mut book = OrderBook::new();
    assert_eq!(book.upsert(order(1, OrderType::Buy, 50, 10)), Ok(()));
    assert_eq!(book.close(1, OrderStatus::Filled), Ok(()));
    assert_eq!(book.close(1, OrderStatus::Cancelled), Ok(()));
    assert_eq!(book.get_order(1).unwrap().status, OrderStatus::Filled);
}

#[test]
fn range_bounds_are_inclusive() {
    let mut book = OrderBook::new();
    assert_eq!(book.upsert(order(1, OrderType::Buy, 10, 1)), Ok(()));
    assert_eq!(book.upsert(order(2, OrderType::Buy, 20, 1)), Ok(()));
    assert_eq!(book.upsert(order(3, OrderType::Buy, 30, 1)), Ok(()));
    let mid = book.get_orders_in_range(10, 20, OrderType::Buy);
    assert_eq!(mid.iter().map(|o| o.id).collect::<Vec<_>>(), vec![1, 2]);
    let point = book.get_orders_in_range(20, 20, OrderType::Buy);
    assert_eq!(point.len(), 1);
    assert_eq!(point[0].id, 2);
    let empty = book.get_orders_in_range(21, 29, OrderType::Buy);
    assert!(empty.is_empty());
}

#[test]
fn range_is_price_ascending() {
    let mut book = OrderBook::new();
    assert_eq!(book.upsert(order(5, OrderType::Sell, 90, 1)), Ok(()));
    assert_eq!(book.upsert(order(6, OrderType::Sell, 30, 1)), Ok(()));
    assert_eq!(book.upsert(order(7, OrderType::Sell, 60, 1)), Ok(()));
    let asks = book.get_orders_in_range(0, u64::MAX, OrderType::Sell);
    let prices: Vec<u64> = asks.iter().map(|o| o.price).collect();
    assert_eq!(prices, vec![30, 60, 90]);
}

#[test]
fn no_id_on_both_sides() {
    let mut book = OrderBook::new();
    assert_eq!(book.upsert(order(1, OrderType::Buy, 50, 10)), Ok(()));
    assert_eq!(book.upsert(order(2, OrderType::Sell, 60, 10)), Ok(()));
    // Try to drag id 1 to the ask side; it must stay a bid alone.
    assert_eq!(book.upsert(order(1, OrderType::Sell, 55, 3)), Err(StoreError::SideMismatch));
    let bid_ids: Vec<u64> =
        book.get_orders_in_range(0, u64::MAX, OrderType::Buy).iter().map(|o| o.id).collect();
    let ask_ids: Vec<u64> =
        book.get_orders_in_range(0, u64::MAX, OrderType::Sell).iter().map(|o| o.id).collect();
    for id in &bid_ids {
        assert!(!ask_ids.contains(id));
    }
    assert_eq!(bid_ids, vec![1]);
    assert_eq!(ask_ids, vec![2]);
}

#[test]
fn trade_log_appends_in_order_and_dedups() {
    let mut book = OrderBook::new();
    let t1 = TradeEvent { id: 1, trade_price: 50, trade_size: 10, timestamp: 5, block_number: 103 };
    let t2 = TradeEvent { id: 2, trade_price: 51, trade_size: 4, timestamp: 6, block_number: 104 };
    book.append_trade(t1);
    book.append_trade(t2);
    assert_eq!(book.get_trade_events(), vec![t1, t2]);
    // A re-delivered trade is not appended again.
    book.append_trade(t1);
    assert_eq!(book.get_trade_events(), vec![t1, t2]);
}

#[test]
fn equal_prices_keep_both_orders() {
    let mut book = OrderBook::new();
    assert_eq!(book.upsert(order(2, OrderType::Buy, 50, 1)), Ok(()));
    assert_eq!(book.upsert(order(1, OrderType::Buy, 50, 1)), Ok(()));
    let bids = book.get_orders_in_range(50, 50, OrderType::Buy);
    assert_eq!(bids.iter().map(|o| o.id).collect::<Vec<_>>(), vec![1, 2]);
}
