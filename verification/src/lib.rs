//! An in-memory mirror of a decentralized exchange's on-chain order book.
//!
//! Events arrive as byte records from a blockchain-indexing stream; the
//! `codec` module parses them, the `apply` module maps them onto the
//! `book` store, and the `pipeline` module tracks the catch-up / follow /
//! reconnect state machine with its monotonic resume cursor. The `query`
//! module renders read-side snapshots.
//!
//! Mutations go through `&mut` and are therefore serialized: no reader can
//! observe a half-applied one. Every query returns an owned snapshot — a
//! state after some exact prefix of the applied events — so a slow consumer
//! holds no borrow into the store and never blocks the writer. The runtime
//! that shares the store between one writer task and many reader tasks
//! wraps it in its own lock outside this crate.

pub mod apply;
pub mod book;
pub mod codec;
pub mod pipeline;
pub mod query;
pub mod types;
