//! The subcommands, each from a log (and its options) to its outcome.
pub mod audit;
pub mod config;
pub mod diff;
pub mod filters;
pub mod inspect;
pub mod lineage;
pub mod schema;
