//! An asynchronous log-delivery pipeline: producer threads hand formatted
//! lines to a bounded queue, and a single drain worker serializes them to a
//! sink. This crate verifies the hand-off core: the bounded ring-buffer
//! queue, the control-message protocol (payload / flush / quit), the drain
//! worker's state machine, and the producer-facing operations that ride on
//! the blocking channel backend.

pub mod channel;
pub mod config;
pub mod pipeline;
pub mod protocol;
pub mod queue;
