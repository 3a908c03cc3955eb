//! A message-queue broker engine: named queues, publish / consume / ack with a
//! visibility-timeout delivery model, and replay of append-only logs for
//! crash recovery.
//!
//! The engine is pure: every operation that depends on the clock takes the
//! current time as an argument, and the durable log records that an operation
//! produces or consumes are plain values, so the caller owns all file I/O.

pub mod app_types;
pub mod exchange_api;
pub mod message_api;
pub mod queue_api;
pub mod rqs;
pub mod rqs_queue;
pub mod rqs_types;
pub mod rqs_utils;
