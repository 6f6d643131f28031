//! The text of the terminal reports.
pub mod table;
pub mod report;
