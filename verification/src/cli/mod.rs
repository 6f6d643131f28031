//! The command line and what each command answers on a log.
pub mod args;
pub mod commands;
pub mod output_opts;
