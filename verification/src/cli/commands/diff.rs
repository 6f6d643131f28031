//! `diff`: what changed between two versions of a table.
use crate::engine::analyzer::diff::{is_version_diff, DiffAnalyzer, VersionDiff};
use crate::engine::reader::{
    count_upto, entries_between, entries_upto, lemma_between_range, lemma_upto_prefix,
    sorted_versions, CommitEntry,
};
use crate::error::DeltaLensError;
use vstd::prelude::*;
use vstd::slice::slice_subrange;

verus! {

/// What `diff` answers for versions `v1` and `v2` of the log `es`: the
/// table must have commits, both versions must exist, and `v1` must not come
/// after `v2`. The later commits are those from `v1 + 1` to `v2`; when `v1`
/// is the largest `u64`, `v1 + 1` wraps to 0 and they are the whole log.
pub open spec fn diff_outcome(r: Result<VersionDiff, DeltaLensError>, es: Seq<CommitEntry>, v1: u64, v2: u64) -> bool {
    if es.len() == 0 {
        r matches Err(e) && e is EmptyTable
    } else {
        let max = es.last().version;
        if v1 > max {
            r matches Err(DeltaLensError::VersionNotFound(x)) && x == v1
        } else if v2 > max {
            r matches Err(DeltaLensError::VersionNotFound(x)) && x == v2
        } else if v1 > v2 {
            r matches Err(DeltaLensError::InvalidVersionRange(a, b)) && a == v1 && b == v2
        } else if v1 == u64::MAX {
            r matches Ok(d) && is_version_diff(d, v1, es, es)
        } else {
            r matches Ok(d) && is_version_diff(d, v1, entries_upto(es, v1), entries_between(es, v1, v2))
        }
    }
}

/// Compares versions `v1` and `v2` of the table whose commits, in ascending
/// order of version, are `entries`.
pub fn execute(entries: &[CommitEntry], v1: u64, v2: u64) -> (r: Result<VersionDiff, DeltaLensError>)
    requires
        sorted_versions(entries@),
    ensures
        diff_outcome(r, entries@, v1, v2),
{
    if entries.len() == 0 {
        return Err(DeltaLensError::EmptyTable);
    }
    let max_v = entries[entries.len() - 1].version;
    if v1 > max_v {
        return Err(DeltaLensError::VersionNotFound(v1));
    }
    if v2 > max_v {
        return Err(DeltaLensError::VersionNotFound(v2));
    }
    if v1 > v2 {
        return Err(DeltaLensError::InvalidVersionRange(v1, v2));
    }
    if v1 == u64::MAX {
        return Ok(DiffAnalyzer::diff(v1, entries, entries));
    }
    let a = count_upto(entries, v1);
    let b = count_upto(entries, v2);
    proof {
        lemma_upto_prefix(entries@, v1, a as int);
        if b < a {
            assert(entries@[b as int].version > v2);
            assert(entries@[b as int].version <= v1);
        }
        lemma_between_range(entries@, v1, v2, a as int, b as int);
    }
    let before = slice_subrange(entries, 0, a);
    let after = slice_subrange(entries, a, b);
    assert(before@ =~= entries@.take(a as int));
    Ok(DiffAnalyzer::diff(v1, before, after))
}

} // verus!
