//! Project-level quality indices from class-level metric records.
//!
//! The records are the text lines that a static analyser prints for each class
//! of a project. This crate reads them, counts the dependencies that reach a
//! class by injection, aggregates each metric over the project, and computes a
//! maintainability index, its injection-weighted variant and a reusability
//! score.

pub mod fixed;
pub mod numeral;
pub mod written;
pub mod names;
pub mod schema;
pub mod metrics;
pub mod maintainability;
pub mod reusability;
pub mod ingest;
pub mod pipeline;
pub mod report;
