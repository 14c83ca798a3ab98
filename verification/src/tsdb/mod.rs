//! An append-oriented, time-series-shaped load for a database.
//!
//! A single writer appends samples into a time bucket that advances, readers scan one metric of one
//! recent sealed bucket at a time, and the effect on compaction and latency is measured window by
//! window. This module holds the rules of that load; running it against a database is left to the
//! caller.
pub mod frontier;
pub mod keys;
pub mod latency;
pub mod load;
pub mod metrics;
