//! Core data model: orders, trades, and the store's error taxonomy.

use vstd::prelude::*;

verus! {

/// Which side of the book an order rests on: Buy is the bid side, Sell the ask side.
#[derive(Clone, Copy, Debug, PartialEq, Eq, Structural)]
pub enum OrderType {
    Buy,
    Sell,
}

/// The closed set of order statuses. Filled and Cancelled are terminal.
#[derive(Clone, Copy, Debug, PartialEq, Eq, Structural)]
pub enum OrderStatus {
    Active,
    PartiallyFilled,
    Filled,
    Cancelled,
}

/// A terminal status can never change again; closed orders are retained,
/// not purged, so their status stays queryable.
pub open spec fn is_terminal(s: OrderStatus) -> bool {
    s == OrderStatus::Filled || s == OrderStatus::Cancelled
}

/// An order still resting on the book: Active or PartiallyFilled.
pub open spec fn is_open_status(s: OrderStatus) -> bool {
    !is_terminal(s)
}

/// One resting order. Exclusively owned by the store; mutated only through
/// the store's operations.
#[derive(Clone, Copy, Debug, PartialEq, Eq, Structural)]
pub struct SpotOrder {
    pub id: u64,
    pub user: u64,
    pub asset: u64,
    pub amount: u64,
    pub price: u64,
    pub timestamp: u64,
    pub order_type: OrderType,
    pub status: OrderStatus,
    pub block_number: u64,
}

/// One realized trade. Immutable once appended to the trade log.
#[derive(Clone, Copy, Debug, PartialEq, Eq, Structural)]
pub struct TradeEvent {
    pub id: u64,
    pub trade_price: u64,
    pub trade_size: u64,
    pub timestamp: u64,
    pub block_number: u64,
}

/// A mutation the store reports back to the applier instead of applying.
/// Both are non-fatal: the offending record is skipped and ingestion goes on.
#[derive(Clone, Copy, Debug, PartialEq, Eq, Structural)]
pub enum StoreError {
    /// An upsert tried to change the side of an existing id; side is immutable.
    SideMismatch,
    /// A close named an id the store has never seen.
    UnknownId,
}

} // verus!
