//! The channel bridge: response records cross from the worker's blocking
//! execution context into the service's asynchronous context over a bounded,
//! ordered, single-producer/single-consumer queue.
//!
//! The producer side stands here: translating an event and sending the
//! record is one verified step, and a rejected send is the cancellation
//! signal — the consumer is gone, so the caller must halt the generation
//! run rather than keep producing discarded records. The consumer side is
//! an `await` on the queue and lives with the service's event loop, outside
//! this library.

use vstd::prelude::*;

use crate::common::TextGenResponse;
use crate::models::TextGenEvent;
use crate::translator::{step_record, step_state, Translator};

verus! {

#[verifier::external_type_specification]
#[verifier::external_body]
#[verifier::reject_recursive_types(T)]
pub struct ExSender<T>(tokio::sync::mpsc::Sender<T>);

/// Relies on tokio::sync::mpsc::Sender::blocking_send: it queues the record
/// in arrival order — blocking while the bounded channel is full, which is
/// backpressure, not failure — and returns `Ok`; once the receiver is gone
/// it returns the record back inside a `SendError`. Must be called from a
/// blocking context, never from inside the async runtime.
#[verifier::external_body]
fn send_record(
    tx: &tokio::sync::mpsc::Sender<TextGenResponse>,
    record: TextGenResponse,
) -> (r: Result<(), TextGenResponse>)
    ensures
        r matches Err(back) ==> back@ == record@,
{
    match tx.blocking_send(record) {
        Ok(()) => Ok(()),
        Err(e) => Err(e.0),
    }
}

/// The worker-side event sink: translate one event observed at clock reading
/// `now` into a record and hand it to the bridge. `Err` carries the record
/// the bridge refused: the consumer has gone away, and the caller must stop
/// the generation run.
pub fn emit_event(
    tr: &mut Translator,
    tx: &tokio::sync::mpsc::Sender<TextGenResponse>,
    event: TextGenEvent,
    now: u64,
) -> (r: Result<(), TextGenResponse>)
    requires
        old(tr)@.phase_start <= now,
    ensures
        final(tr)@ == step_state(old(tr)@, event@, now),
        r matches Err(back) ==> back@ == step_record(old(tr)@, event@, now),
{
    let record = tr.handle(event, now);
    send_record(tx, record)
}

} // verus!
