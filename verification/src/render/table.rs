//! Terminal rendering settings, and the maintenance warnings of a health
//! report.
use crate::engine::model::stats::TableStats;
use vstd::prelude::*;

verus! {

/// Renders reports as terminal tables, with or without colors.
pub struct TableRenderer {
    pub plain: bool,
}

impl TableRenderer {
    /// A renderer; `plain` turns colors off.
    pub fn new(plain: bool) -> (r: Self)
        ensures
            r.plain == plain,
    {
        TableRenderer { plain }
    }
}

/// How many versions a table may reach before a missing maintenance
/// operation is reported.
pub open spec fn maintenance_grace() -> u64 {
    100
}

/// The maintenance issues of a health report: a table past 100 versions that
/// was never vacuumed, and one that was never optimized, count one each.
pub open spec fn maintenance_issues(stats: TableStats) -> int {
    (if stats.maintenance.last_vacuum_version is None && stats.current_version > maintenance_grace() {
        1int
    } else {
        0int
    }) + (if stats.maintenance.last_optimize_version is None && stats.current_version > maintenance_grace() {
        1int
    } else {
        0int
    })
}

/// The number of maintenance issues of a health report.
pub fn maintenance_issue_count(stats: &TableStats) -> (n: usize)
    ensures
        n == maintenance_issues(*stats),
{
    let mut n: usize = 0;
    if stats.maintenance.last_vacuum_version.is_none() && stats.current_version > 100 {
        n += 1;
    }
    if stats.maintenance.last_optimize_version.is_none() && stats.current_version > 100 {
        n += 1;
    }
    n
}

} // verus!
