//! Synchronisation bookkeeping.
pub mod deadlock;
pub mod safety;
