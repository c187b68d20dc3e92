//! Relay engine for a single ordered changefeed fanned out to many
//! subscribers: newline-delimited row parsing, snapshot/incremental
//! classification, a snapshot store for late joiners, a subscriber registry
//! with bounded per-subscriber delivery queues, and the per-subscriber
//! session state machine.

pub mod classify;
pub mod laws;
pub mod registry;
pub mod rowline;
pub mod session;
pub mod rows;
pub mod store;
