//! The core of an HTTP probe agent. Probe requests come from a message queue;
//! a single control loop hands them to a bounded pool of workers, turns each
//! probe result into time-series points, and acknowledges a message only
//! after its points were written (or at once, when its payload cannot be
//! decoded). An optional buffer writes the points of a whole time window in
//! one batch. Queue, probe, sink and clock I/O stay with the caller: the loop
//! returns the actions to perform and takes their outcomes back as events.

pub mod batch;
pub mod clock;
pub mod config;
pub mod control;
pub mod counters;
pub mod model;
pub mod points;
pub mod pool;
pub mod probe;
pub mod request;
pub mod offsets;
pub mod retry;
