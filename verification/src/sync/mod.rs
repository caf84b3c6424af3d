//! Synchronisation of topics with other nodes.

pub mod handle;
pub mod laws;
pub mod logs;
pub mod topic_manager;
