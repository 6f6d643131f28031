//! The data of a commit log and of the reports drawn from it.
pub mod action;
pub mod lineage;
pub mod schema;
pub mod stats;
