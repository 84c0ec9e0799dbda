//! A single-node command queue: named shell commands are stored in an
//! ordered store, executed one at a time with bounded retry, and snapshotted.

pub mod record;
pub mod store;
pub mod runner;
