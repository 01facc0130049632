//! Per-station occupancy logs for a railway-simulation dashboard.
//!
//! `history` holds the occupancy-log aggregator, `clock` the timestamps and
//! their wall-clock labels, and `dashboard` the state of the whole view and
//! the decisions that drive polling.
pub mod clock;
pub mod dashboard;
pub mod history;
