//! Inspection of Delta Lake transaction logs: commit parsing, table health,
//! version diffs, writer lineage and schema evolution.
pub mod cli;
pub mod engine;
pub mod error;
pub mod render;
pub mod text;
