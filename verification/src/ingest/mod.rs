//! Ingestion of operations into append-only logs.

pub mod args;
pub mod buffer_laws;
pub mod ooo;
pub mod operation;
pub mod operation_laws;
pub mod processor;
pub mod processor_laws;
pub mod ring;
