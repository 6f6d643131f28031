//! `inspect`: the health report of a table.
use crate::engine::analyzer::health::{stats_of, HealthAnalyzer};
use crate::engine::model::stats::TableStats;
use crate::engine::reader::{count_upto, entries_upto, lemma_upto_prefix, sorted_versions, CommitEntry};
use vstd::prelude::*;
use vstd::slice::slice_subrange;

verus! {

/// The health report of the table whose commits, in ascending order of
/// version, are `entries`: at version `version`, or at the latest version.
pub fn execute(entries: &[CommitEntry], version: Option<u64>) -> (s: TableStats)
    requires
        sorted_versions(entries@),
    ensures
        stats_of(
            s,
            match version {
                Some(v) => entries_upto(entries@, v),
                None => entries@,
            },
        ),
{
    match version {
        Some(v) => {
            let c = count_upto(entries, v);
            proof {
                lemma_upto_prefix(entries@, v, c as int);
            }
            let upto = slice_subrange(entries, 0, c);
            assert(upto@ =~= entries@.take(c as int));
            HealthAnalyzer::analyze(upto)
        },
        None => HealthAnalyzer::analyze(entries),
    }
}

} // verus!
