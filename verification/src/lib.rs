//! Comparing the performance of two compiler artifacts, benchmark by benchmark.
//!
//! Everything here is a decision or a text computed from plain values. Reading
//! the database, asking for pull requests and the arithmetic on measurements
//! belong to the caller.

pub mod api;
pub mod benchmark;
pub mod cases;
pub mod commits;
pub mod compare;
pub mod comparison;
pub mod date;
pub mod double;
pub mod report;
pub mod series;
pub mod statistics;
pub mod summary;
pub mod table;
pub mod text;
pub mod triage;
pub mod variance;
pub mod views;
