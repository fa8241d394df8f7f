use dex_mirror::book::OrderBook;
use dex_mirror::codec::{encode, DecodeError, EventBody, RawEvent};
use dex_mirror::pipeline::{IngestOutcome, Pipeline, PipelineAction, PipelineState, StreamEvent};
use dex_mirror::types::{OrderStatus, OrderType, StoreError};

const MARKET: u64 = 7;

fn open_record(block: u64, id: u64, side: OrderType, amount: u64, price: u64) -> Vec<u8> {
    encode(&RawEvent {
        block_number: block,
        market_id: MARKET,
        order_id: id,
        body: EventBody::Open {
            order_type: side,
            user: 1,
            asset: 2,
            amount,
            price,
            timestamp: 1_700_000_000,
        },
    })
}

fn fill_record(block: u64, id: u64, side: OrderType, trade_price: u64, trade_size: u64) -> Vec<u8> {
    encode(&RawEvent {
        block_number: block,
        market_id: MARKET,
        order_id: id,
        body: EventBody::Fill {
            order_type: side,
            user: 1,
            asset: 2,
            amount: 0,
            price: trade_price,
            timestamp: 1_700_000_001,
            trade_price,
            trade_size,
        },
    })
}

#[test]
fn backfill_scenario() {
    // Start block 100; historical events at 101 (order A opens), 103 (A
    // fills, trade recorded), 105 (order B opens).
    let mut p = Pipeline::new(MARKET, 100, 1000);
    let mut book = OrderBook::new();
    let a = p.step(StreamEvent::Connected);
    assert_eq!(a, PipelineAction::RequestHistorical { market_id: MARKET, from_block: 100 });
    assert_eq!(p.state, PipelineState::Backfilling);

    assert_eq!(p.handle_record(&mut book, &open_record(101, 1, OrderType::Buy, 10, 50)), IngestOutcome::Applied);
    assert_eq!(p.cursor, 101);
    assert_eq!(p.handle_record(&mut book, &fill_record(103, 1, OrderType::Buy, 50, 10)), IngestOutcome::Applied);
    assert_eq!(p.cursor, 103);
    assert_eq!(p.handle_record(&mut book, &open_record(105, 2, OrderType::Sell, 5, 60)), IngestOutcome::Applied);
    assert_eq!(p.cursor, 105);

    // After backfill: A is Filled, B is Active, one trade from block 103.
    assert_eq!(book.get_order(1).unwrap().status, OrderStatus::Filled);
    assert_eq!(book.get_order(2).unwrap().status, OrderStatus::Active);
    let trades = book.get_trade_events();
    assert_eq!(trades.len(), 1);
    assert_eq!(trades[0].block_number, 103);

    // The follow request resumes right past the cursor.
    let a = p.step(StreamEvent::StreamEnd);
    assert_eq!(a, PipelineAction::RequestLive { market_id: MARKET, from_block: 106 });
    assert_eq!(p.state, PipelineState::Following);
}

#[test]
fn empty_backfill_follows_from_start_block() {
    let mut p = Pipeline::new(MARKET, 100, 1000);
    p.step(StreamEvent::Connected);
    // No record was ever seen: the cursor is still zero, so follow resumes
    // at the configured start block itself.
    let a = p.step(StreamEvent::StreamEnd);
    assert_eq!(a, PipelineAction::RequestLive { market_id: MARKET, from_block: 100 });
}

#[test]
fn backfill_error_keeps_partial_progress() {
    let mut p = Pipeline::new(MARKET, 100, 1000);
    let mut book = OrderBook::new();
    p.step(StreamEvent::Connected);
    p.handle_record(&mut book, &open_record(101, 1, OrderType::Buy, 10, 50));
    // A stream error mid-backfill keeps the cursor that was reached.
    let a = p.step(StreamEvent::StreamError);
    assert_eq!(a, PipelineAction::RequestLive { market_id: MARKET, from_block: 102 });
    assert_eq!(p.state, PipelineState::Following);
}

#[test]
fn reconnect_resumes_at_cursor_plus_one() {
    // Live stream disconnects after block 106; the pipeline backs off and
    // reconnects requesting from block 107: nothing at or before 106 is
    // re-requested and nothing is skipped.
    let mut p = Pipeline::new(MARKET, 100, 250);
    let mut book = OrderBook::new();
    p.step(StreamEvent::Connected);
    p.handle_record(&mut book, &open_record(101, 1, OrderType::Buy, 10, 50));
    p.step(StreamEvent::StreamEnd);
    p.handle_record(&mut book, &open_record(106, 3, OrderType::Sell, 2, 70));
    assert_eq!(p.cursor, 106);

    let a = p.step(StreamEvent::StreamError);
    assert_eq!(a, PipelineAction::Backoff { millis: 250 });
    assert_eq!(p.state, PipelineState::Reconnecting);

    let a = p.step(StreamEvent::BackoffElapsed);
    assert_eq!(a, PipelineAction::RequestLive { market_id: MARKET, from_block: 107 });
    assert_eq!(p.state, PipelineState::Following);
}

#[test]
fn malformed_record_does_not_stop_the_stream() {
    let mut p = Pipeline::new(MARKET, 100, 1000);
    let mut book = OrderBook::new();
    p.step(StreamEvent::Connected);
    p.handle_record(&mut book, &open_record(101, 1, OrderType::Buy, 10, 50));

    // A malformed record arrives mid-stream: dropped whole, cursor untouched.
    let garbage: Vec<u8> = vec![0xAB, 0xCD];
    assert_eq!(
        p.handle_record(&mut book, &garbage),
        IngestOutcome::Malformed { decode_error: DecodeError::TooShort }
    );
    assert_eq!(p.cursor, 101);
    assert_eq!(p.state, PipelineState::Backfilling);

    // Subsequent valid records still apply.
    assert_eq!(p.handle_record(&mut book, &open_record(102, 2, OrderType::Sell, 5, 60)), IngestOutcome::Applied);
    assert_eq!(p.cursor, 102);
    assert!(book.get_order(2).is_some());
}

#[test]
fn rejected_mutation_is_skipped_not_fatal() {
    let mut p = Pipeline::new(MARKET, 100, 1000);
    let mut book = OrderBook::new();
    p.step(StreamEvent::Connected);
    p.handle_record(&mut book, &open_record(101, 1, OrderType::Buy, 10, 50));
    // An upsert that would flip the side is reported and skipped; the cursor
    // still advances past the offending record.
    assert_eq!(
        p.handle_record(&mut book, &open_record(102, 1, OrderType::Sell, 10, 50)),
        IngestOutcome::Rejected { store_error: StoreError::SideMismatch }
    );
    assert_eq!(p.cursor, 102);
    assert_eq!(book.get_order(1).unwrap().order_type, OrderType::Buy);
}

#[test]
fn reapplied_event_is_idempotent() {
    // A reconnect overlap delivers the same records again: the store ends in
    // the same state as after a single application.
    let mut p = Pipeline::new(MARKET, 100, 1000);
    let mut book = OrderBook::new();
    p.step(StreamEvent::Connected);
    let records = [
        open_record(101, 1, OrderType::Buy, 10, 50),
        fill_record(103, 1, OrderType::Buy, 50, 10),
        open_record(105, 2, OrderType::Sell, 5, 60),
    ];
    for r in &records {
        p.handle_record(&mut book, r);
    }
    let bids_once = book.get_orders_in_range(0, u64::MAX, OrderType::Buy);
    let asks_once = book.get_orders_in_range(0, u64::MAX, OrderType::Sell);
    let trades_once = book.get_trade_events();
    let a_once = book.get_order(1);
    for r in &records {
        p.handle_record(&mut book, r);
    }
    assert_eq!(book.get_orders_in_range(0, u64::MAX, OrderType::Buy), bids_once);
    assert_eq!(book.get_orders_in_range(0, u64::MAX, OrderType::Sell), asks_once);
    assert_eq!(book.get_trade_events(), trades_once);
    assert_eq!(book.get_order(1), a_once);
}

#[test]
fn cursor_is_monotonic() {
    let mut p = Pipeline::new(MARKET, 100, 1000);
    let mut book = OrderBook::new();
    p.step(StreamEvent::Connected);
    p.handle_record(&mut book, &open_record(110, 1, OrderType::Buy, 10, 50));
    assert_eq!(p.cursor, 110);
    // An overlapping older record never moves the watermark backwards.
    p.handle_record(&mut book, &open_record(105, 2, OrderType::Sell, 5, 60));
    assert_eq!(p.cursor, 110);
}

#[test]
fn ignored_events_leave_state_alone() {
    let mut p = Pipeline::new(MARKET, 100, 1000);
    assert_eq!(p.step(StreamEvent::BackoffElapsed), PipelineAction::Idle);
    assert_eq!(p.state, PipelineState::Connecting);
    assert_eq!(p.step(StreamEvent::StreamEnd), PipelineAction::Idle);
    assert_eq!(p.state, PipelineState::Connecting);
}
