//! The command line of the `deltalens` program.
use vstd::prelude::*;

verus! {

/// The parsed command line.
#[derive(Debug)]
pub struct Cli {
    pub command: Commands,
    /// Output as JSON (machine-readable, for piping)
    pub json: bool,
    /// No ANSI colors (for CI/CD logs)
    pub plain: bool,
    /// Skip table headers
    pub no_header: bool,
    /// Show debug info
    pub verbose: bool,
}

/// The subcommands.
#[derive(Debug)]
pub enum Commands {
    /// Table health report
    Inspect { path: String, version: Option<u64> },
    /// Version diff
    Diff { path: String, v1: u64, v2: u64, schema_only: bool, files_only: bool },
    /// Operation lineage
    Lineage {
        path: String,
        last: Option<usize>,
        since: Option<String>,
        op: Option<String>,
        user: Option<String>,
    },
    /// Filtered audit trail
    Audit {
        path: String,
        since: Option<String>,
        until: Option<String>,
        op: Option<String>,
        user: Option<String>,
    },
    /// Schema evolution history
    Schema { path: String, history: bool, at: Option<u64> },
    /// Manage configuration and telemetry
    Config { action: ConfigAction },
}

/// The actions of the `config` subcommand.
#[derive(Debug)]
pub enum ConfigAction {
    /// Show current configuration
    Show,
    /// Show config file path
    Path,
    /// Show collected performance metrics
    Metrics,
    /// Set a config value (e.g., 'set telemetry true')
    Assign { key: String, value: String },
}

} // verus!
