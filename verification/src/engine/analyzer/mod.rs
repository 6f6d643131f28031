//! Analyses of a commit log: table health, version diffs, writer lineage,
//! schema evolution, and partition keys.
pub mod diff;
pub mod health;
pub mod lineage;
pub mod partition;
pub mod schema;
