//! Analysis of execution-event logs from a parallel dataflow engine.
//!
//! The crate reconstructs operator activity intervals ("spans") from paired
//! start/stop events and maintains incrementally recomputed size and merge
//! statistics for each arrangement an operator keeps.

pub mod event;
mod keyed;
pub mod timeline;
pub mod stats;
