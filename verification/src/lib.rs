//! Compilation and ingestion core of a change-data-capture pipeline engine.
//!
//! Independently built pipelines are merged with a table of source mappings
//! into one namespaced execution graph, and connectors hand captured change
//! events to a shared ingestor.

pub mod admin;
pub mod app;
pub mod appsource;
pub mod compile;
pub mod connectors;
pub mod dag;
pub mod errors;
pub mod filter;
pub mod flags;
pub mod ingestion;
pub mod node;
