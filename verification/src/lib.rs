//! Task lifecycle and index-allocation engine for a local task tracker.
//!
//! One named environment holds an active, a completed and a deleted record
//! set plus a bounded transaction log. This crate is the engine that decides
//! how integer indices are handed out and recycled, how a record moves
//! between the three sets while keeping its identity, and how the log is
//! pushed and popped. Opening the persistent store and shipping records in
//! and out of it is the surrounding program's business: the engine works on
//! an in-memory image of one environment's store.

pub mod allocator;
pub mod codec;
pub mod mutations;
pub mod record;
pub mod store;
pub mod tags;
pub mod task;
