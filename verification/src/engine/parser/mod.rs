//! Reading commit files.
pub mod commit;
