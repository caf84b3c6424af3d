//! Streams of operations which applications read from.

pub mod acked;
pub mod laws;
