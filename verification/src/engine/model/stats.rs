//! Health, maintenance and overall statistics of a table.
use vstd::prelude::*;

verus! {

/// Aggregated metrics of a table's current file set.
#[derive(Debug)]
pub struct TableHealth {
    pub total_files: usize,
    pub total_size: i64,
    pub avg_file_size: i64,
    pub min_file_size: i64,
    pub max_file_size: i64,
    /// Files smaller than 32 MiB.
    pub small_file_count: usize,
    /// The size of every current file, one entry per file; the spread of these
    /// sizes is the table's skew.
    pub file_sizes: Vec<i64>,
}

/// Maintenance state extracted from commit metadata.
#[derive(Debug)]
pub struct MaintenanceInfo {
    pub last_vacuum_version: Option<u64>,
    pub last_vacuum_timestamp: Option<i64>,
    pub last_optimize_version: Option<u64>,
    pub last_optimize_timestamp: Option<i64>,
    pub last_checkpoint_version: Option<u64>,
    pub z_order_columns: Vec<String>,
}

impl Default for MaintenanceInfo {
    /// No maintenance recorded.
    fn default() -> (m: Self)
        ensures
            m.last_vacuum_version is None,
            m.last_vacuum_timestamp is None,
            m.last_optimize_version is None,
            m.last_optimize_timestamp is None,
            m.last_checkpoint_version is None,
            m.z_order_columns@.len() == 0,
    {
        MaintenanceInfo {
            last_vacuum_version: None,
            last_vacuum_timestamp: None,
            last_optimize_version: None,
            last_optimize_timestamp: None,
            last_checkpoint_version: None,
            z_order_columns: Vec::new(),
        }
    }
}

/// Full table inspection result combining all analyzers.
#[derive(Debug)]
pub struct TableStats {
    pub current_version: u64,
    pub created_timestamp: Option<i64>,
    pub last_modified_timestamp: Option<i64>,
    pub min_reader_version: i32,
    pub min_writer_version: i32,
    pub partition_columns: Vec<String>,
    pub partition_count: usize,
    pub empty_partition_count: usize,
    pub schema_column_count: usize,
    pub schema_change_count: usize,
    pub health: TableHealth,
    pub maintenance: MaintenanceInfo,
}

} // verus!
