//! `schema`: the current schema, the schema at a version, or the history of
//! schema changes.
use crate::engine::analyzer::diff::changes_view;
use crate::engine::analyzer::schema::{
    changes_between, is_snapshot, latest_schema, schema_snapshots, SchemaTracker,
};
use crate::engine::model::schema::{SchemaChange, SchemaSnapshot};
use crate::engine::reader::{entries_upto, CommitEntry};
use crate::error::DeltaLensError;
use crate::text::{chars_of, decimal, string_from_chars, u64_to_decimal};
use vstd::prelude::*;

verus! {

/// What the `schema` command reports.
#[derive(Debug)]
pub enum SchemaReport {
    /// One schema.
    Snapshot(SchemaSnapshot),
    /// The schema changes over the table's life.
    History(Vec<SchemaChange>),
}

/// What `schema` answers for the log `es`: with `at`, the schema at that
/// version (which must exist); otherwise the history of changes or the
/// current schema.
pub open spec fn schema_outcome(r: Result<SchemaReport, DeltaLensError>, es: Seq<CommitEntry>, history: bool, at: Option<u64>) -> bool {
    if es.len() == 0 {
        r matches Err(e) && e is EmptyTable
    } else {
        match at {
            Some(v) => if v > es.last().version {
                (r matches Err(DeltaLensError::VersionNotFound(x)) && x == v)
            } else {
                match latest_schema(entries_upto(es, v)) {
                    Some(p) => (r matches Ok(SchemaReport::Snapshot(s)) && is_snapshot(s, p)),
                    None => (r matches Err(DeltaLensError::Storage(m)) && m@ == "No schema found at version "@ + decimal(v as nat)),
                }
            },
            None => if history {
                (r matches Ok(SchemaReport::History(h)) && changes_view(h@) == changes_between(schema_snapshots(es)))
            } else {
                match latest_schema(es) {
                    Some(p) => (r matches Ok(SchemaReport::Snapshot(s)) && is_snapshot(s, p)),
                    None => (r matches Err(DeltaLensError::Storage(m)) && m@ == "No schema found in table metadata"@),
                }
            },
        }
    }
}

/// The schema report of the table whose commits, in ascending order of
/// version, are `entries`.
pub fn execute(entries: &[CommitEntry], history: bool, at: Option<u64>) -> (r: Result<SchemaReport, DeltaLensError>)
    ensures
        schema_outcome(r, entries@, history, at),
{
    if entries.len() == 0 {
        return Err(DeltaLensError::EmptyTable);
    }
    let max_v = entries[entries.len() - 1].version;
    if let Some(version) = at {
        if version > max_v {
            return Err(DeltaLensError::VersionNotFound(version));
        }
        match SchemaTracker::at_version(entries, version) {
            Some(snapshot) => Ok(SchemaReport::Snapshot(snapshot)),
            None => {
                let mut msg = chars_of("No schema found at version ");
                let digits = u64_to_decimal(version);
                let ghost head = msg@;
                let mut i: usize = 0;
                while i < digits.len()
                    invariant
                        i <= digits@.len(),
                        msg@ == head + digits@.take(i as int),
                    decreases digits@.len() - i,
                {
                    msg.push(digits[i]);
                    assert(digits@.take(i + 1) =~= digits@.take(i as int).push(digits@[i as int]));
                    i += 1;
                }
                assert(digits@.take(i as int) =~= digits@);
                Err(DeltaLensError::Storage(string_from_chars(&msg)))
            },
        }
    } else if history {
        Ok(SchemaReport::History(SchemaTracker::history(entries)))
    } else {
        match SchemaTracker::current_schema(entries) {
            Some(snapshot) => Ok(SchemaReport::Snapshot(snapshot)),
            None => Err(DeltaLensError::Storage("No schema found in table metadata".to_owned())),
        }
    }
}

} // verus!
