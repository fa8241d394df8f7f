//! The ingestion pipeline: connect, bounded historical backfill, open-ended
//! live follow, and reconnect-on-error, with a monotonic resume cursor.
//!
//! The decisions live here as a verified state machine over plain events; the
//! surrounding runtime performs the requested actions (connect, issue a range
//! request, sleep out a backoff) and hands the next stream event back.

use vstd::prelude::*;
use crate::book::OrderBook;
use crate::apply::{apply, spec_apply, spec_apply_result};
use crate::codec::{decode, spec_decode, DecodeError, event_wf, lemma_decode_wf};
use crate::types::StoreError;

verus! {

/// Where the pipeline stands. There is no terminal state: only external
/// shutdown ends the loop.
#[derive(Clone, Copy, Debug, PartialEq, Eq, Structural)]
pub enum PipelineState {
    Connecting,
    Backfilling,
    Following,
    Reconnecting,
}

/// What the stream reports to the pipeline.
#[derive(Clone, Copy, Debug, PartialEq, Eq, Structural)]
pub enum StreamEvent {
    /// The handshake with the record source succeeded.
    Connected,
    /// A bounded range was exhausted, or the live stream closed.
    StreamEnd,
    /// The connection or stream failed.
    StreamError,
    /// The fixed backoff interval has elapsed.
    BackoffElapsed,
}

/// What the pipeline asks the runtime to do next.
#[derive(Clone, Copy, Debug, PartialEq, Eq, Structural)]
pub enum PipelineAction {
    /// Request the bounded historical range for the market, from the given
    /// block through the current head.
    RequestHistorical { market_id: u64, from_block: u64 },
    /// Request the open-ended live range for the market from the given block.
    RequestLive { market_id: u64, from_block: u64 },
    /// Wait out the fixed backoff before reconnecting.
    Backoff { millis: u64 },
    /// Nothing to do for this event in this state.
    Idle,
}

/// What one record did.
#[derive(Clone, Copy, Debug, PartialEq, Eq, Structural)]
pub enum IngestOutcome {
    /// Decoded and applied.
    Applied,
    /// Decoded, but the store rejected the mutation; logged and skipped.
    Rejected { store_error: StoreError },
    /// The record did not decode; dropped, the stream goes on.
    Malformed { decode_error: DecodeError },
}

/// The ingestion cursor and state. The cursor is the last processed block
/// number, zero until a record is seen; it is rebuilt from configuration on
/// every start, never persisted.
pub struct Pipeline {
    pub state: PipelineState,
    pub cursor: u64,
    pub start_block: u64,
    pub market_id: u64,
    pub backoff_millis: u64,
}

impl Pipeline {
    /// Block numbers start at one, so a zero cursor means no record was ever
    /// seen; the cursor stays below the reserved block number, so the resume
    /// point after it always exists.
    pub open spec fn wf(self) -> bool {
        &&& 1 <= self.start_block < 0xFFFF_FFFF_FFFF_FFFF
        &&& self.cursor < 0xFFFF_FFFF_FFFF_FFFF
    }

    /// Where a follow request resumes: after the last processed block, or at
    /// the configured start block when no record was ever seen.
    pub open spec fn resume_from(self) -> u64 {
        if self.cursor == 0 {
            self.start_block
        } else {
            (self.cursor + 1) as u64
        }
    }

    /// A fresh pipeline for one market, ready to connect.
    pub fn new(market_id: u64, start_block: u64, backoff_millis: u64) -> (r: Pipeline)
        requires
            1 <= start_block < 0xFFFF_FFFF_FFFF_FFFF,
        ensures
            r.wf(),
            r.state == PipelineState::Connecting,
            r.cursor == 0,
            r.start_block == start_block,
            r.market_id == market_id,
            r.backoff_millis == backoff_millis,
    {
        Pipeline {
            state: PipelineState::Connecting,
            cursor: 0,
            start_block,
            market_id,
            backoff_millis,
        }
    }
}

/// The next state for a control event.
pub open spec fn spec_next_state(s: PipelineState, ev: StreamEvent) -> PipelineState {
    match (s, ev) {
        (PipelineState::Connecting, StreamEvent::Connected) => PipelineState::Backfilling,
        (PipelineState::Backfilling, StreamEvent::StreamEnd) => PipelineState::Following,
        (PipelineState::Backfilling, StreamEvent::StreamError) => PipelineState::Following,
        (PipelineState::Following, StreamEvent::StreamEnd) => PipelineState::Reconnecting,
        (PipelineState::Following, StreamEvent::StreamError) => PipelineState::Reconnecting,
        (PipelineState::Reconnecting, StreamEvent::BackoffElapsed) => PipelineState::Following,
        _ => s,
    }
}

/// The action a control event provokes. Backfill covers the configured start
/// block through the head; a stream error mid-backfill keeps whatever cursor
/// was reached and moves on to following. Every entry into Following requests
/// the open range from the resume point. Reconnecting waits the fixed backoff
/// and retries unconditionally, without growing the interval.
pub open spec fn spec_action(p: Pipeline, ev: StreamEvent) -> PipelineAction {
    match (p.state, ev) {
        (PipelineState::Connecting, StreamEvent::Connected) => PipelineAction::RequestHistorical {
            market_id: p.market_id,
            from_block: p.start_block,
        },
        (PipelineState::Backfilling, StreamEvent::StreamEnd) => PipelineAction::RequestLive {
            market_id: p.market_id,
            from_block: p.resume_from(),
        },
        (PipelineState::Backfilling, StreamEvent::StreamError) => PipelineAction::RequestLive {
            market_id: p.market_id,
            from_block: p.resume_from(),
        },
        (PipelineState::Following, StreamEvent::StreamEnd) => PipelineAction::Backoff {
            millis: p.backoff_millis,
        },
        (PipelineState::Following, StreamEvent::StreamError) => PipelineAction::Backoff {
            millis: p.backoff_millis,
        },
        (PipelineState::Reconnecting, StreamEvent::BackoffElapsed) => PipelineAction::RequestLive {
            market_id: p.market_id,
            from_block: p.resume_from(),
        },
        _ => PipelineAction::Idle,
    }
}

impl Pipeline {
    /// Take one control event: move to the next state and say what to do.
    /// The cursor and configuration never change here, so the cursor is
    /// trivially non-decreasing across control transitions.
    pub fn step(&mut self, ev: StreamEvent) -> (a: PipelineAction)
        requires
            old(self).wf(),
        ensures
            final(self).wf(),
            final(self).state == spec_next_state(old(self).state, ev),
            a == spec_action(*old(self), ev),
            final(self).cursor == old(self).cursor,
            final(self).start_block == old(self).start_block,
            final(self).market_id == old(self).market_id,
            final(self).backoff_millis == old(self).backoff_millis,
    {
        match (self.state, ev) {
            (PipelineState::Connecting, StreamEvent::Connected) => {
                self.state = PipelineState::Backfilling;
                PipelineAction::RequestHistorical {
                    market_id: self.market_id,
                    from_block: self.start_block,
                }
            },
            (PipelineState::Backfilling, StreamEvent::StreamEnd)
            | (PipelineState::Backfilling, StreamEvent::StreamError) => {
                self.state = PipelineState::Following;
                let from_block = if self.cursor == 0 {
                    self.start_block
                } else {
                    self.cursor + 1
                };
                PipelineAction::RequestLive { market_id: self.market_id, from_block }
            },
            (PipelineState::Following, StreamEvent::StreamEnd)
            | (PipelineState::Following, StreamEvent::StreamError) => {
                self.state = PipelineState::Reconnecting;
                PipelineAction::Backoff { millis: self.backoff_millis }
            },
            (PipelineState::Reconnecting, StreamEvent::BackoffElapsed) => {
                self.state = PipelineState::Following;
                let from_block = if self.cursor == 0 {
                    self.start_block
                } else {
                    self.cursor + 1
                };
                PipelineAction::RequestLive { market_id: self.market_id, from_block }
            },
            _ => PipelineAction::Idle,
        }
    }

    /// Take one byte record while backfilling or following: decode it, apply
    /// it to the store, and advance the cursor to its block number. A record
    /// that does not decode is dropped whole — store and cursor untouched —
    /// and a store-rejected mutation is skipped; neither stops the stream.
    pub fn handle_record(&mut self, book: &mut OrderBook, bytes: &Vec<u8>) -> (o: IngestOutcome)
        requires
            old(self).wf(),
            old(book).wf(),
        ensures
            final(self).wf(),
            final(book).wf(),
            final(self).state == old(self).state,
            final(self).start_block == old(self).start_block,
            final(self).market_id == old(self).market_id,
            final(self).backoff_millis == old(self).backoff_millis,
            final(self).cursor >= old(self).cursor,
            match spec_decode(bytes@) {
                Err(e) => {
                    &&& o == (IngestOutcome::Malformed { decode_error: e })
                    &&& *final(book) == *old(book)
                    &&& final(self).cursor == old(self).cursor
                },
                Ok(ev) => {
                    &&& final(book).model() == spec_apply(old(book).model(), ev)
                    &&& final(self).cursor == (if ev.block_number > old(self).cursor {
                        ev.block_number
                    } else {
                        old(self).cursor
                    })
                    &&& o == (match spec_apply_result(old(book).model(), ev) {
                        Ok(()) => IngestOutcome::Applied,
                        Err(e) => IngestOutcome::Rejected { store_error: e },
                    })
                },
            },
    {
        match decode(bytes) {
            Err(e) => IngestOutcome::Malformed { decode_error: e },
            Ok(ev) => {
                proof {
                    lemma_decode_wf(bytes@, ev);
                    assert(event_wf(ev));
                }
                let r = apply(book, &ev);
                if ev.block_number > self.cursor {
                    self.cursor = ev.block_number;
                }
                match r {
                    Ok(()) => IngestOutcome::Applied,
                    Err(e) => IngestOutcome::Rejected { store_error: e },
                }
            },
        }
    }
}

/// Continuity across the backfill-to-follow seam: once some record was seen,
/// every block at or past the configured start is covered exactly once —
/// inside the backfilled range up to the cursor, or by the follow request
/// resuming right after it; never both, never neither. With nothing seen, the
/// follow request covers the whole range from the start block itself.
pub proof fn lemma_stream_continuity(p: Pipeline, b: u64)
    requires
        p.wf(),
        p.cursor == 0 || p.cursor >= p.start_block,
    ensures
        p.start_block <= b ==> ((p.start_block <= b <= p.cursor) <==> !(p.resume_from() <= b)),
{
}

/// After a disconnect, the reconnect request never re-requests a processed
/// block and never skips one: it begins exactly one past the cursor, so a
/// block is requested again if and only if it lies past the cursor.
pub proof fn lemma_resume_exact(p: Pipeline, b: u64)
    requires
        p.wf(),
        p.cursor != 0,
    ensures
        p.resume_from() == p.cursor + 1,
        (p.resume_from() <= b) <==> b > p.cursor,
{
}

} // verus!
