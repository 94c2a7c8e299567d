//! Streaming text-generation bridge: the verified core of a service that
//! drives a blocking generation loop, stamps its lifecycle events with
//! latency telemetry, carries the resulting records over a bounded channel
//! into an asynchronous response stream, and folds them back into text and
//! throughput figures on the client side.

pub mod bridge;
pub mod client;
pub mod codec;
pub mod common;
pub mod models;
pub mod translator;
