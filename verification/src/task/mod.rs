//! Scheduling.
pub mod manager;
