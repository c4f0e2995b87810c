//! The channel between the recording threads and the collector of a trace.

use crate::span::SpanSet;
use crossbeam::channel::Receiver;
use crossbeam::channel::Sender;
use std::sync::Arc;
use vstd::prelude::*;

verus! {

/// The sending end of a `crossbeam` channel, held as an opaque value.
#[verifier::external_type_specification]
#[verifier::external_body]
#[verifier::reject_recursive_types(T)]
pub struct ExSender<T>(Sender<T>);

/// The receiving end of a `crossbeam` channel, held as an opaque value.
#[verifier::external_type_specification]
#[verifier::external_body]
#[verifier::reject_recursive_types(T)]
pub struct ExReceiver<T>(Receiver<T>);

/// Opens a channel that holds any number of batches.
///
/// Trusted: calls `crossbeam::channel::unbounded`. Nothing is claimed of the
/// two ends.
#[verifier::external_body]
pub(crate) fn unbounded() -> (ends: (Sender<SpanSet>, Receiver<SpanSet>)) {
    crossbeam::channel::unbounded()
}

/// Hands a batch to the channel; `false` when the receiving end is gone
/// and the batch is lost. Every sender that this crate holds is one end of
/// a channel that [`unbounded`] opened, on which a send never waits.
///
/// Trusted: calls `crossbeam::channel::Sender::send`. Nothing is claimed of
/// the answer, which depends on what other threads did.
#[verifier::external_body]
pub(crate) fn send(sender: &Sender<SpanSet>, batch: SpanSet) -> (delivered: bool) {
    sender.send(batch).is_ok()
}

/// Takes one batch out of the channel if one is waiting; never blocks.
///
/// Trusted: calls `crossbeam::channel::Receiver::try_recv`. Nothing is
/// claimed of the answer, which depends on what other threads sent.
#[verifier::external_body]
pub(crate) fn try_recv(receiver: &Receiver<SpanSet>) -> (batch: Option<SpanSet>) {
    receiver.try_recv().ok()
}

/// Another pointer to the same sending end.
///
/// Trusted: calls `Arc::clone`, which returns a pointer to the same
/// allocation, so the two are equal as values.
#[verifier::external_body]
pub(crate) fn share(sender: &Arc<Sender<SpanSet>>) -> (shared: Arc<Sender<SpanSet>>)
    ensures
        shared == *sender,
{
    Arc::clone(sender)
}

} // verus!
