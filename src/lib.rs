//! Link-layer throughput and loss measurement engine: the sequence header
//! codec, the sender's pacing decision, the per-stream statistics tracker,
//! and the sender and receiver control steps.

pub mod codec;
pub mod limiter;
pub mod tracker;
pub mod rx;
pub mod tx;
