//! Consolidates tracked work intervals into a timesheet and renders it as CSV.
//!
//! The library is the pure core of a time-sheet tool: it receives raw tracked
//! intervals (newest first) from an API client, merges adjacent same-activity
//! intervals into timesheet rows with break accounting, and renders the rows
//! as CSV text with minute-rounded times and date deduplication.

pub mod clockify;
pub mod decimal;
pub mod timestamp;
pub mod transform;
pub mod writer;
