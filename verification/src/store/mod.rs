//! Persistence.

pub mod laws;
pub mod sqlite;
pub mod transaction;
