//! A sink backed by a bounded channel: each completed batch is forwarded
//! to the single consumer as soon as it is flushed, so the channel's
//! capacity is the flow-control bound while a producer runs.
//!
//! Whether a send succeeds depends on the consumer's side of the
//! channel, so nothing is assumed of the outcome: the sink records what
//! it forwarded and what was refused, and a closed channel reads as
//! cooperative cancellation.

use vstd::prelude::*;

use crate::point::PointData;
use crate::stream::{BatchSink, QueryError};

verus! {

/// The sending half of std's bounded channel, opaque to the verifier.
#[verifier::external_type_specification]
#[verifier::external_body]
#[verifier::reject_recursive_types(T)]
pub struct ExSyncSender<T>(std::sync::mpsc::SyncSender<T>);

/// The error std's channel send returns, opaque to the verifier.
#[verifier::external_type_specification]
#[verifier::external_body]
#[verifier::reject_recursive_types(T)]
pub struct ExSendError<T>(std::sync::mpsc::SendError<T>);

/// Relies on std's `SyncSender::send`: blocks until the channel has room
/// and fails exactly when the receiving end has disconnected. Which
/// outcome occurs depends on the consumer, so no ensures is stated.
#[verifier::external_body]
fn send_batch(tx: &std::sync::mpsc::SyncSender<PointData>, batch: PointData) -> (r: Result<
    (),
    std::sync::mpsc::SendError<PointData>,
>) {
    tx.send(batch)
}

/// A sink that forwards each batch over a bounded channel the moment it
/// completes.
pub struct ChannelSink {
    tx: std::sync::mpsc::SyncSender<PointData>,
    forwarded: Ghost<Seq<PointData>>,
    refusals: Ghost<Seq<QueryError>>,
}

impl ChannelSink {
    /// Wrap one sending half; each producer takes a clone of the sender.
    pub fn new(tx: std::sync::mpsc::SyncSender<PointData>) -> (r: Self)
        ensures
            r.delivered() == Seq::<PointData>::empty(),
            r.refused() == Seq::<QueryError>::empty(),
    {
        ChannelSink { tx, forwarded: Ghost(Seq::empty()), refusals: Ghost(Seq::empty()) }
    }
}

impl BatchSink for ChannelSink {
    closed spec fn delivered(&self) -> Seq<PointData> {
        self.forwarded@
    }

    closed spec fn refused(&self) -> Seq<QueryError> {
        self.refusals@
    }

    /// A refused offer means the consumer is gone: the error is the
    /// channel failure, the cooperative cancellation signal.
    fn accept(&mut self, batch: PointData) -> (r: Result<(), QueryError>)
        ensures
            r is Err ==> r->Err_0 == QueryError::Channel,
    {
        let ghost offered = batch;
        match send_batch(&self.tx, batch) {
            Ok(()) => {
                proof {
                    self.forwarded@ = self.forwarded@.push(offered);
                }
                Ok(())
            },
            Err(_) => {
                proof {
                    self.refusals@ = self.refusals@.push(QueryError::Channel);
                }
                Err(QueryError::Channel)
            },
        }
    }
}

} // verus!
