//! The transaction-log model and its analyses.
pub mod analyzer;
pub mod fold;
pub mod json;
pub mod metrics;
pub mod model;
pub mod parser;
pub mod reader;
pub mod sort;
pub mod storage;
pub mod strtable;
pub mod time;
