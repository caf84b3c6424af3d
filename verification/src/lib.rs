//! Append-only logs which are ingested, ordered, acknowledged and synchronised between nodes.
//!
//! This crate holds the decisions: what happens to an operation which arrives out of order, when a
//! store write is retried, which sync session is replaced. Network, database and timers are driven
//! from outside; they hand events in and perform the actions they get back.

pub mod buffer;
pub mod collections;
pub mod endpoint;
pub mod ingest;
pub mod ordered;
pub mod retry;
pub mod shared;
pub mod store;
pub mod streams;
pub mod sync;
pub mod text;
pub mod time;
pub mod types;
