//! The event applier: one decoded event becomes store mutations, preserving
//! arrival order. Rejected mutations are reported to the caller and skipped;
//! they never stop ingestion.

use vstd::prelude::*;
use crate::types::{OrderType, OrderStatus, SpotOrder, TradeEvent, StoreError, is_terminal};
use crate::book::{OrderBook, BookModel, spec_upsert, spec_close, spec_append_trade, upsert_rejected};
use crate::codec::{RawEvent, EventBody};

verus! {

/// Whether the event carries an order mutation through upsert.
pub open spec fn is_upsert_event(e: RawEvent) -> bool {
    match e.body {
        EventBody::Open { .. } => true,
        EventBody::Fill { .. } => true,
        EventBody::PartialFill { .. } => true,
        EventBody::Cancel => false,
    }
}

/// Whether the event realizes a trade.
pub open spec fn is_trade_event(e: RawEvent) -> bool {
    match e.body {
        EventBody::Fill { .. } => true,
        EventBody::PartialFill { .. } => true,
        _ => false,
    }
}

/// The order an open, fill or partial-fill event upserts: an open order is
/// Active; a fill leaves it Filled, a partial fill PartiallyFilled.
pub open spec fn order_from_event(e: RawEvent) -> SpotOrder
    recommends
        is_upsert_event(e),
{
    match e.body {
        EventBody::Open { order_type, user, asset, amount, price, timestamp } => SpotOrder {
            id: e.order_id,
            user,
            asset,
            amount,
            price,
            timestamp,
            order_type,
            status: OrderStatus::Active,
            block_number: e.block_number,
        },
        EventBody::Fill { order_type, user, asset, amount, price, timestamp, .. } => SpotOrder {
            id: e.order_id,
            user,
            asset,
            amount,
            price,
            timestamp,
            order_type,
            status: OrderStatus::Filled,
            block_number: e.block_number,
        },
        EventBody::PartialFill { order_type, user, asset, amount, price, timestamp, .. } => SpotOrder {
            id: e.order_id,
            user,
            asset,
            amount,
            price,
            timestamp,
            order_type,
            status: OrderStatus::PartiallyFilled,
            block_number: e.block_number,
        },
        EventBody::Cancel => SpotOrder {
            id: e.order_id,
            user: 0,
            asset: 0,
            amount: 0,
            price: 0,
            timestamp: 0,
            order_type: OrderType::Buy,
            status: OrderStatus::Cancelled,
            block_number: e.block_number,
        },
    }
}

/// The trade a fill or partial fill appends: the realized price and size.
pub open spec fn trade_from_event(e: RawEvent) -> TradeEvent
    recommends
        is_trade_event(e),
{
    match e.body {
        EventBody::Fill { trade_price, trade_size, timestamp, .. } => TradeEvent {
            id: e.order_id,
            trade_price,
            trade_size,
            timestamp,
            block_number: e.block_number,
        },
        EventBody::PartialFill { trade_price, trade_size, timestamp, .. } => TradeEvent {
            id: e.order_id,
            trade_price,
            trade_size,
            timestamp,
            block_number: e.block_number,
        },
        _ => TradeEvent { id: 0, trade_price: 0, trade_size: 0, timestamp: 0, block_number: 0 },
    }
}

/// What one event does to the store's model. The trade append of a fill is
/// independent of its order mutation: it happens even when the upsert is
/// rejected.
pub open spec fn spec_apply(m: BookModel, e: RawEvent) -> BookModel {
    match e.body {
        EventBody::Open { .. } => spec_upsert(m, order_from_event(e)),
        EventBody::Fill { .. } => spec_append_trade(
            spec_upsert(m, order_from_event(e)),
            trade_from_event(e),
        ),
        EventBody::PartialFill { .. } => spec_append_trade(
            spec_upsert(m, order_from_event(e)),
            trade_from_event(e),
        ),
        EventBody::Cancel => spec_close(m, e.order_id, OrderStatus::Cancelled),
    }
}

/// What the applier reports for one event: the store error it skipped, if any.
pub open spec fn spec_apply_result(m: BookModel, e: RawEvent) -> Result<(), StoreError> {
    match e.body {
        EventBody::Cancel => if m.orders.contains_key(e.order_id) {
            Ok(())
        } else {
            Err(StoreError::UnknownId)
        },
        _ => if upsert_rejected(m, order_from_event(e)) {
            Err(StoreError::SideMismatch)
        } else {
            Ok(())
        },
    }
}

/// Apply one event to the store: exactly `spec_apply` on the model, with the
/// store-reported error (if any) handed back for the caller to log and skip.
pub fn apply(book: &mut OrderBook, e: &RawEvent) -> (r: Result<(), StoreError>)
    requires
        old(book).wf(),
    ensures
        final(book).wf(),
        final(book).model() == spec_apply(old(book).model(), *e),
        r == spec_apply_result(old(book).model(), *e),
{
    match &e.body {
        EventBody::Cancel => book.close(e.order_id, OrderStatus::Cancelled),
        EventBody::Open { .. } => {
            let order = order_from_exec(e);
            book.upsert(order)
        },
        EventBody::Fill { .. } => {
            let order = order_from_exec(e);
            let r = book.upsert(order);
            let trade = trade_from_exec(e);
            book.append_trade(trade);
            r
        },
        EventBody::PartialFill { .. } => {
            let order = order_from_exec(e);
            let r = book.upsert(order);
            let trade = trade_from_exec(e);
            book.append_trade(trade);
            r
        },
    }
}

/// Build the upserted order at run time.
fn order_from_exec(e: &RawEvent) -> (r: SpotOrder)
    requires
        is_upsert_event(*e),
    ensures
        r == order_from_event(*e),
{
    match &e.body {
        EventBody::Open { order_type, user, asset, amount, price, timestamp } => SpotOrder {
            id: e.order_id,
            user: *user,
            asset: *asset,
            amount: *amount,
            price: *price,
            timestamp: *timestamp,
            order_type: *order_type,
            status: OrderStatus::Active,
            block_number: e.block_number,
        },
        EventBody::Fill { order_type, user, asset, amount, price, timestamp, .. } => SpotOrder {
            id: e.order_id,
            user: *user,
            asset: *asset,
            amount: *amount,
            price: *price,
            timestamp: *timestamp,
            order_type: *order_type,
            status: OrderStatus::Filled,
            block_number: e.block_number,
        },
        EventBody::PartialFill { order_type, user, asset, amount, price, timestamp, .. } => SpotOrder {
            id: e.order_id,
            user: *user,
            asset: *asset,
            amount: *amount,
            price: *price,
            timestamp: *timestamp,
            order_type: *order_type,
            status: OrderStatus::PartiallyFilled,
            block_number: e.block_number,
        },
        EventBody::Cancel => SpotOrder {
            id: e.order_id,
            user: 0,
            asset: 0,
            amount: 0,
            price: 0,
            timestamp: 0,
            order_type: OrderType::Buy,
            status: OrderStatus::Cancelled,
            block_number: e.block_number,
        },
    }
}

/// Build the realized trade at run time.
fn trade_from_exec(e: &RawEvent) -> (r: TradeEvent)
    requires
        is_trade_event(*e),
    ensures
        r == trade_from_event(*e),
{
    match &e.body {
        EventBody::Fill { trade_price, trade_size, timestamp, .. } => TradeEvent {
            id: e.order_id,
            trade_price: *trade_price,
            trade_size: *trade_size,
            timestamp: *timestamp,
            block_number: e.block_number,
        },
        EventBody::PartialFill { trade_price, trade_size, timestamp, .. } => TradeEvent {
            id: e.order_id,
            trade_price: *trade_price,
            trade_size: *trade_size,
            timestamp: *timestamp,
            block_number: e.block_number,
        },
        _ => TradeEvent { id: 0, trade_price: 0, trade_size: 0, timestamp: 0, block_number: 0 },
    }
}

/// Applying a whole event sequence, in arrival order.
pub open spec fn spec_apply_seq(m: BookModel, es: Seq<RawEvent>) -> BookModel
    decreases es.len(),
{
    if es.len() == 0 {
        m
    } else {
        spec_apply(spec_apply_seq(m, es.drop_last()), es.last())
    }
}

// ---------------------------------------------------------------------------
// Laws of the applier
// ---------------------------------------------------------------------------

proof fn lemma_prefix_refl(s: Seq<TradeEvent>)
    ensures
        s.is_prefix_of(s),
{
    assert(s =~= s.subrange(0, s.len() as int));
}

proof fn lemma_prefix_push(s: Seq<TradeEvent>, t: TradeEvent)
    ensures
        s.is_prefix_of(s.push(t)),
{
    assert(s =~= s.push(t).subrange(0, s.len() as int));
}

proof fn lemma_prefix_trans(a: Seq<TradeEvent>, b: Seq<TradeEvent>, c: Seq<TradeEvent>)
    requires
        a.is_prefix_of(b),
        b.is_prefix_of(c),
    ensures
        a.is_prefix_of(c),
{
    assert forall|i: int| 0 <= i < a.len() implies a[i] == #[trigger] c.subrange(0, a.len() as int)[i] by {
        assert(a[i] == b.subrange(0, a.len() as int)[i]);
        assert(b[i] == c.subrange(0, b.len() as int)[i]);
    }
    assert(a =~= c.subrange(0, a.len() as int));
}

/// Idempotence: applying the same event a second time, as a reconnect overlap
/// would, changes nothing. A re-upsert rewrites the same amount and status, a
/// re-close finds a terminal order and is a no-op, and a re-delivered trade is
/// already in the log.
pub proof fn lemma_apply_idempotent(m: BookModel, e: RawEvent)
    ensures
        spec_apply(spec_apply(m, e), e) == spec_apply(m, e),
{
    let m1 = spec_apply(m, e);
    match e.body {
        EventBody::Cancel => {
            let m1c = spec_close(m, e.order_id, OrderStatus::Cancelled);
            if m.orders.contains_key(e.order_id) && !is_terminal(m.orders[e.order_id].status) {
                assert(is_terminal(m1c.orders[e.order_id].status));
            }
            assert(spec_close(m1c, e.order_id, OrderStatus::Cancelled) =~= m1c);
        },
        EventBody::Open { .. } => {
            lemma_upsert_idempotent(m, order_from_event(e));
        },
        EventBody::Fill { .. } | EventBody::PartialFill { .. } => {
            let o = order_from_event(e);
            let t = trade_from_event(e);
            let mu = spec_upsert(m, o);
            let ma = spec_append_trade(mu, t);
            lemma_upsert_idempotent(m, o);
            assert(ma.orders == mu.orders);
            assert(spec_upsert(ma, o) =~= BookModel { orders: spec_upsert(mu, o).orders, trades: ma.trades });
            assert(spec_upsert(ma, o).orders =~= ma.orders);
            assert(ma.trades.contains(t)) by {
                if !mu.trades.contains(t) {
                    assert(ma.trades == mu.trades.push(t));
                    assert(ma.trades[ma.trades.len() - 1] == t);
                }
            }
            assert(spec_apply(m1, e) =~= m1);
        },
    }
}

/// A second upsert of the same order changes nothing: the merged order it
/// writes is the one already there.
proof fn lemma_upsert_idempotent(m: BookModel, o: SpotOrder)
    ensures
        spec_upsert(spec_upsert(m, o), o) == spec_upsert(m, o),
{
    let m1 = spec_upsert(m, o);
    if upsert_rejected(m, o) {
        assert(spec_upsert(m1, o) == m1);
    } else {
        let merged = crate::book::spec_merge(m, o);
        assert(merged.order_type == o.order_type);
        assert(merged.amount == o.amount && merged.status == o.status);
        assert(m1.orders[o.id] == merged);
        assert(!upsert_rejected(m1, o));
        assert(crate::book::spec_merge(m1, o) == merged);
        assert(m1.orders.insert(o.id, merged) =~= m1.orders);
        assert(spec_upsert(m1, o) =~= m1);
    }
}

/// The trade log only grows: what one event leaves behind extends what was
/// there, entry for entry.
pub proof fn lemma_apply_trades_prefix(m: BookModel, e: RawEvent)
    ensures
        m.trades.is_prefix_of(spec_apply(m, e).trades),
{
    let m1 = spec_apply(m, e);
    if m1.trades == m.trades {
        lemma_prefix_refl(m.trades);
    } else {
        assert(m1.trades == m.trades.push(trade_from_event(e)));
        lemma_prefix_push(m.trades, trade_from_event(e));
    }
}

/// Trade-log monotonicity over a whole stream: the log after any prefix of
/// the events is a prefix of the log after all of them; prior entries are
/// never altered.
pub proof fn lemma_trade_log_monotone(m: BookModel, es: Seq<RawEvent>, k: int)
    requires
        0 <= k <= es.len(),
    ensures
        spec_apply_seq(m, es.take(k)).trades.is_prefix_of(spec_apply_seq(m, es).trades),
    decreases es.len(),
{
    if k == es.len() {
        assert(es.take(k) =~= es);
        lemma_prefix_refl(spec_apply_seq(m, es).trades);
    } else {
        let pre = es.drop_last();
        assert(pre.take(k) =~= es.take(k));
        lemma_trade_log_monotone(m, pre, k);
        lemma_apply_trades_prefix(spec_apply_seq(m, pre), es.last());
        lemma_prefix_trans(
            spec_apply_seq(m, es.take(k)).trades,
            spec_apply_seq(m, pre).trades,
            spec_apply_seq(m, es).trades,
        );
    }
}

/// An event leaves every other id's entry untouched.
pub proof fn lemma_apply_frame(m: BookModel, e: RawEvent, x: u64)
    requires
        e.order_id != x,
    ensures
        spec_apply(m, e).orders.contains_key(x) <==> m.orders.contains_key(x),
        m.orders.contains_key(x) ==> spec_apply(m, e).orders[x] == m.orders[x],
{
    assert(order_from_event(e).id == e.order_id);
}

/// Last write wins: after a stream applied in block order, the entry under an
/// id is what the last event naming that id left, as if nothing had followed.
pub proof fn lemma_last_write_wins(m: BookModel, es: Seq<RawEvent>, i: int)
    requires
        0 <= i < es.len(),
        forall|j: int| i < j < es.len() ==> (#[trigger] es[j]).order_id != es[i].order_id,
    ensures
        ({
            let id = es[i].order_id;
            let full = spec_apply_seq(m, es);
            let at = spec_apply(spec_apply_seq(m, es.take(i)), es[i]);
            &&& (full.orders.contains_key(id) <==> at.orders.contains_key(id))
            &&& (at.orders.contains_key(id) ==> full.orders[id] == at.orders[id])
        }),
    decreases es.len(),
{
    let id = es[i].order_id;
    if i == es.len() - 1 {
        assert(es.take(i) =~= es.drop_last());
    } else {
        let pre = es.drop_last();
        assert(pre.take(i) =~= es.take(i));
        assert(forall|j: int| i < j < pre.len() ==> (#[trigger] pre[j]).order_id != pre[i].order_id);
        lemma_last_write_wins(m, pre, i);
        assert(es.last().order_id != id) by {
            assert(es[es.len() - 1].order_id != es[i].order_id);
        }
        lemma_apply_frame(spec_apply_seq(m, pre), es.last(), id);
    }
}

} // verus!
