//! Batch renaming of files: how the inputs are chosen, how each destination
//! is settled, and what a run reports.

pub mod collector;
pub mod context;
pub mod executor;
pub mod formatter;
pub mod source;
