use dex_mirror::book::OrderBook;
use dex_mirror::query::{u64_to_dec, Query, Subscription};
use dex_mirror::types::{OrderStatus, OrderType, SpotOrder, TradeEvent};

fn order(id: u64, side: OrderType, price: u64, amount: u64) -> SpotOrder {
    SpotOrder {
        id,
        user: 8,
        asset: 9,
        amount,
        price,
        timestamp: 1_700_000_000,
        order_type: side,
        status: OrderStatus::Active,
        block_number: 100,
    }
}

fn sample_book() -> OrderBook {
    let mut book = OrderBook::new();
    assert_eq!(book.upsert(order(1, OrderType::Buy, 50, 10)), Ok(()));
    assert_eq!(book.upsert(order(2, OrderType::Buy, 40, 3)), Ok(()));
    assert_eq!(book.upsert(order(3, OrderType::Sell, 60, 7)), Ok(()));
    assert_eq!(book.upsert(order(4, OrderType::Sell, 65, 2)), Ok(()));
    book
}

#[test]
fn decimal_rendering_is_exact() {
    assert_eq!(u64_to_dec(0), "0");
    assert_eq!(u64_to_dec(7), "7");
    assert_eq!(u64_to_dec(42), "42");
    assert_eq!(u64_to_dec(1000), "1000");
    assert_eq!(u64_to_dec(u64::MAX), "18446744073709551615");
}

#[test]
fn buy_orders_render_fields() {
    let book = sample_book();
    let q = Query;
    let buys = q.buy_orders(&book);
    assert_eq!(buys.len(), 2);
    // Price-ascending: id 2 at 40 before id 1 at 50.
    assert_eq!(buys[0].id, "2");
    assert_eq!(buys[0].price, "40");
    assert_eq!(buys[0].amount, "3");
    assert_eq!(buys[0].order_type, "Buy");
    assert_eq!(buys[0].status.as_deref(), Some("Active"));
    assert_eq!(buys[1].id, "1");
}

#[test]
fn sell_orders_render_fields() {
    let book = sample_book();
    let q = Query;
    let sells = q.sell_orders(&book);
    assert_eq!(sells.len(), 2);
    assert_eq!(sells[0].id, "3");
    assert_eq!(sells[0].order_type, "Sell");
    assert_eq!(sells[1].id, "4");
}

#[test]
fn spread_is_min_ask_minus_max_bid() {
    let book = sample_book();
    let q = Query;
    // Lowest ask 60, highest bid 50.
    assert_eq!(q.spread(&book).as_deref(), Some("10"));
}

#[test]
fn spread_can_be_negative() {
    let mut book = OrderBook::new();
    assert_eq!(book.upsert(order(1, OrderType::Buy, 70, 1)), Ok(()));
    assert_eq!(book.upsert(order(2, OrderType::Sell, 60, 1)), Ok(()));
    let q = Query;
    assert_eq!(q.spread(&book).as_deref(), Some("-10"));
}

#[test]
fn spread_absent_when_a_side_is_empty() {
    let mut book = OrderBook::new();
    assert_eq!(book.upsert(order(1, OrderType::Buy, 50, 1)), Ok(()));
    let q = Query;
    assert_eq!(q.spread(&book), None);
    assert_eq!(q.spread(&OrderBook::new()), None);
}

#[test]
fn all_orders_concatenates_buys_then_sells() {
    let book = sample_book();
    let q = Query;
    let all = q.all_orders(&book, None, None);
    let ids: Vec<&str> = all.iter().map(|o| o.id.as_str()).collect();
    assert_eq!(ids, vec!["2", "1", "3", "4"]);
}

#[test]
fn all_orders_pagination() {
    let book = sample_book();
    let q = Query;
    let page = q.all_orders(&book, Some(2), Some(1));
    let ids: Vec<&str> = page.iter().map(|o| o.id.as_str()).collect();
    assert_eq!(ids, vec!["1", "3"]);
    // An offset past the end yields nothing; a large limit is clipped.
    assert!(q.all_orders(&book, None, Some(10)).is_empty());
    assert_eq!(q.all_orders(&book, Some(100), Some(3)).len(), 1);
}

#[test]
fn trade_events_pagination() {
    let mut book = OrderBook::new();
    for k in 0..5u64 {
        book.append_trade(TradeEvent {
            id: k,
            trade_price: 50 + k,
            trade_size: 1,
            timestamp: k,
            block_number: 100 + k,
        });
    }
    let q = Query;
    let all = q.trade_events(&book, None, None);
    assert_eq!(all.len(), 5);
    assert_eq!(all[0].id, "0");
    assert_eq!(all[0].trade_price, "50");
    let page = q.trade_events(&book, Some(2), Some(3));
    assert_eq!(page.len(), 2);
    assert_eq!(page[0].id, "3");
    assert_eq!(page[1].id, "4");
}

#[test]
fn subscription_snapshots() {
    let book = sample_book();
    let s = Subscription;
    let buys = s.active_orders_snapshot(&book, &String::from("Buy"));
    assert_eq!(buys.len(), 2);
    assert_eq!(buys[0].order_type, "Buy");
    let sells = s.active_orders_snapshot(&book, &String::from("Sell"));
    assert_eq!(sells.len(), 2);
    let unknown = s.active_orders_snapshot(&book, &String::from("Sideways"));
    assert!(unknown.is_empty());
}

#[test]
fn subscription_trade_snapshot() {
    let mut book = OrderBook::new();
    book.append_trade(TradeEvent { id: 1, trade_price: 50, trade_size: 2, timestamp: 9, block_number: 103 });
    let s = Subscription;
    let snap = s.trade_events_snapshot(&book);
    assert_eq!(snap.len(), 1);
    assert_eq!(snap[0].id, "1");
    assert_eq!(snap[0].trade_price, "50");
    assert_eq!(snap[0].trade_size, "2");
    assert_eq!(snap[0].timestamp, 9);
}

#[test]
fn closed_orders_leave_snapshots() {
    let mut book = sample_book();
    assert_eq!(book.close(1, OrderStatus::Cancelled), Ok(()));
    let q = Query;
    let buys = q.buy_orders(&book);
    assert_eq!(buys.len(), 1);
    assert_eq!(buys[0].id, "2");
}
