//! Trusted boundary to the outside channel crate.
//!
//! The blocking bounded channel is the queue backend preferred for the
//! pipeline itself: a full queue slows producers down instead of dropping
//! lines. Its two handles are declared opaque, and the two calls the logic
//! needs are wrapped here. What a send or a receive yields depends on the
//! other side of the channel — on threads running concurrently — so the
//! contracts state only what holds of every outcome.

use vstd::prelude::*;

verus! {

/// The producer-side handle of a crossbeam_channel channel, opaque here.
#[verifier::external_type_specification]
#[verifier::external_body]
#[verifier::reject_recursive_types(T)]
pub struct ExSender<T>(crossbeam_channel::Sender<T>);

/// The consumer-side handle of a crossbeam_channel channel, opaque here.
#[verifier::external_type_specification]
#[verifier::external_body]
#[verifier::reject_recursive_types(T)]
pub struct ExReceiver<T>(crossbeam_channel::Receiver<T>);

/// Relies on crossbeam_channel::Sender::send: blocks while the channel is
/// full, fails only when every receiver is gone, and then hands the original
/// message back inside the error.
#[verifier::external_body]
pub(crate) fn channel_send<T>(sender: &crossbeam_channel::Sender<T>, value: T) -> (r: Result<
    (),
    T,
>)
    ensures
        r is Err ==> r->Err_0 == value,
{
    sender.send(value).map_err(|e| e.into_inner())
}

/// Relies on crossbeam_channel::Receiver::recv: blocks until a message
/// arrives, and yields `None` only when the channel is empty and every
/// sender is gone. Which message arrives depends on the sending threads, so
/// nothing more can be pinned down here.
#[verifier::external_body]
pub(crate) fn channel_recv<T>(receiver: &crossbeam_channel::Receiver<T>) -> (r: Option<T>) {
    receiver.recv().ok()
}

} // verus!
