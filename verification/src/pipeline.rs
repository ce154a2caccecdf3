//! Producer-facing operations of the pipeline, and the worker's half of the
//! flush round-trip.
//!
//! Every operation rides on the one first-in-first-out queue, so ordering
//! needs no further enforcement: a flush marker reaches the worker strictly
//! after every message enqueued before it, and the terminal marker is the
//! last message the worker ever consumes — provided the caller enqueues
//! nothing after it, which the queue itself cannot enforce.

use vstd::prelude::*;
use crate::channel::{channel_recv, channel_send};
use crate::protocol::{LoggerInput, LoggerOutput};

verus! {

/// Why a pipeline operation failed.
#[derive(Clone, Copy, Debug, PartialEq, Eq, Structural)]
pub enum LogError {
    /// The queue's consumer side is gone: the worker has terminated.
    QueueClosed,
    /// The notification channel is gone: the worker terminated between
    /// accepting a flush marker and acknowledging it.
    NotificationClosed,
}

/// Classifies the queue's answer to a send: success stays success, and a
/// rejected message — handed back because the worker side is gone — becomes
/// `QueueClosed`.
pub fn send_outcome(sent: Result<(), LoggerInput>) -> (r: Result<(), LogError>)
    ensures
        r is Ok <==> sent is Ok,
        r is Err ==> r->Err_0 is QueueClosed,
{
    match sent {
        Ok(()) => Ok(()),
        Err(_) => Err(LogError::QueueClosed),
    }
}

/// Classifies what the notification channel yields while waiting for a flush
/// acknowledgment: an acknowledgment means the flush round-trip is complete,
/// and a closed channel becomes `NotificationClosed`.
pub fn ack_outcome(received: Option<LoggerOutput>) -> (r: Result<(), LogError>)
    ensures
        r is Ok <==> received is Some,
        r is Err ==> r->Err_0 is NotificationClosed,
{
    match received {
        Some(_) => Ok(()),
        None => Err(LogError::NotificationClosed),
    }
}

/// Hands one already-formatted line to the queue, blocking while the queue
/// is full. Fails, with the only error being `QueueClosed`, exactly when the
/// worker side of the queue is gone.
pub fn enqueue(queue: &crossbeam_channel::Sender<LoggerInput>, text: String) -> (r: Result<
    (),
    LogError,
>)
    ensures
        r is Err ==> r->Err_0 is QueueClosed,
{
    send_outcome(channel_send(queue, LoggerInput::LogMsg(text)))
}

/// Sends a flush marker and blocks until the worker acknowledges it. The
/// marker travels the same queue as the payloads, so the acknowledgment
/// arrives only once every line enqueued before the marker has been written
/// (see `lemma_flush_observes_prior_writes`). Fails exactly when the worker
/// has terminated: either the queue or the notification channel is closed.
pub fn flush(
    queue: &crossbeam_channel::Sender<LoggerInput>,
    notification: &crossbeam_channel::Receiver<LoggerOutput>,
) -> (r: Result<(), LogError>)
    ensures
        r is Err ==> r->Err_0 is QueueClosed || r->Err_0 is NotificationClosed,
{
    match send_outcome(channel_send(queue, LoggerInput::Flush)) {
        Ok(()) => ack_outcome(channel_recv(notification)),
        Err(e) => Err(e),
    }
}

/// Sends the terminal marker, blocking while the queue is full so that
/// shutdown is never starved. The caller must enqueue nothing afterwards;
/// after the worker consumes the marker it consumes no further message.
/// Fails, with the only error being `QueueClosed`, exactly when the worker
/// is already gone.
pub fn send_quit(queue: &crossbeam_channel::Sender<LoggerInput>) -> (r: Result<(), LogError>)
    ensures
        r is Err ==> r->Err_0 is QueueClosed,
{
    send_outcome(channel_send(queue, LoggerInput::Quit))
}

/// The worker's half of a flush round-trip: sends the acknowledgment to the
/// single producer blocked in `flush`. Fails, with the only error being
/// `NotificationClosed`, exactly when that producer is gone.
pub fn acknowledge_flush(notification: &crossbeam_channel::Sender<LoggerOutput>) -> (r: Result<
    (),
    LogError,
>)
    ensures
        r is Err ==> r->Err_0 is NotificationClosed,
{
    match channel_send(notification, LoggerOutput::Flushed) {
        Ok(()) => Ok(()),
        Err(_) => Err(LogError::NotificationClosed),
    }
}

} // verus!
