//! Schema tracking: the current schema, the schema at a version, and the full
//! history of schema changes.
use crate::engine::analyzer::diff::{
    change_view, changes_view, is_nonempty_change, spec_schema_diff, ChangeView, DiffAnalyzer,
};
use crate::engine::analyzer::health::first_commit_ts;
use crate::engine::model::action::Action;
use crate::engine::model::schema::{schema_view, SchemaChange, SchemaSnapshot, StructType};
use crate::engine::reader::{entries_upto, CommitEntry};
use vstd::prelude::*;

verus! {

/// The creation time and schema of the last metadata among `acts` whose
/// schema is readable.
pub open spec fn last_schema_in(acts: Seq<Action>) -> Option<(Option<i64>, StructType)>
    decreases acts.len(),
{
    if acts.len() == 0 {
        None
    } else {
        match acts.last() {
            Action::MetaData(m) => match m.schema {
                Some(s) => Some((m.created_time, s)),
                None => last_schema_in(acts.drop_last()),
            },
            _ => last_schema_in(acts.drop_last()),
        }
    }
}

/// Version, creation time and schema of the last readable schema in `es`.
pub open spec fn latest_schema(es: Seq<CommitEntry>) -> Option<(u64, Option<i64>, StructType)>
    decreases es.len(),
{
    if es.len() == 0 {
        None
    } else {
        match last_schema_in(es.last().actions@) {
            Some(p) => Some((es.last().version, p.0, p.1)),
            None => latest_schema(es.drop_last()),
        }
    }
}

/// `snap` is the snapshot `p`.
pub open spec fn is_snapshot(snap: SchemaSnapshot, p: (u64, Option<i64>, StructType)) -> bool {
    snap.version == p.0 && snap.timestamp == p.1 && schema_view(snap.schema) == schema_view(p.2)
}

/// The readable schemas of the metadata among `acts`, each with version `v`
/// and time `ts`.
pub open spec fn schemas_in(v: u64, ts: Option<i64>, acts: Seq<Action>) -> Seq<(u64, Option<i64>, StructType)>
    decreases acts.len(),
{
    if acts.len() == 0 {
        seq![]
    } else {
        let r = schemas_in(v, ts, acts.drop_last());
        match acts.last() {
            Action::MetaData(m) => match m.schema {
                Some(s) => r.push((v, ts, s)),
                None => r,
            },
            _ => r,
        }
    }
}

/// Every readable schema of `es`, with its commit's version and the time of
/// the commit's first commit info.
pub open spec fn schema_snapshots(es: Seq<CommitEntry>) -> Seq<(u64, Option<i64>, StructType)>
    decreases es.len(),
{
    if es.len() == 0 {
        seq![]
    } else {
        schema_snapshots(es.drop_last()) + schemas_in(
            es.last().version,
            first_commit_ts(es.last().actions@),
            es.last().actions@,
        )
    }
}

/// The non-empty changes between consecutive snapshots.
pub open spec fn changes_between(s: Seq<(u64, Option<i64>, StructType)>) -> Seq<ChangeView>
    decreases s.len(),
{
    if s.len() < 2 {
        seq![]
    } else {
        let r = changes_between(s.drop_last());
        let c = spec_schema_diff(s[s.len() - 2].2, s.last().2, s.last().0, s.last().1);
        if is_nonempty_change(c) {
            r.push(c)
        } else {
            r
        }
    }
}

/// A snapshot whose schema is referenced, with the schema itself.
pub open spec fn deref_snap(p: (u64, Option<i64>, &StructType)) -> (u64, Option<i64>, StructType) {
    (p.0, p.1, *p.2)
}

/// Tracks the schema across versions.
pub struct SchemaTracker;

impl SchemaTracker {
    /// The last metadata schema among `acts`.
    fn last_schema_of(acts: &Vec<Action>) -> (r: Option<(Option<i64>, &StructType)>)
        ensures
            match r {
                Some(p) => last_schema_in(acts@) == Some((p.0, *p.1)),
                None => last_schema_in(acts@) is None,
            },
    {
        let mut k = acts.len();
        assert(acts@.take(k as int) =~= acts@);
        while k > 0
            invariant
                k <= acts@.len(),
                last_schema_in(acts@) == last_schema_in(acts@.take(k as int)),
            decreases k,
        {
            assert(acts@.take(k as int).last() == acts@[k - 1]);
            assert(acts@.take(k as int).drop_last() =~= acts@.take(k - 1));
            match &acts[k - 1] {
                Action::MetaData(m) => {
                    match &m.schema {
                        Some(s) => {
                            return Some((m.created_time, s));
                        },
                        None => {},
                    }
                },
                _ => {},
            }
            k -= 1;
        }
        None
    }

    /// The latest readable schema among the commits of `entries` whose
    /// version is at most `limit` (all of them for `None`).
    fn latest_upto(entries: &[CommitEntry], limit: Option<u64>) -> (r: Option<SchemaSnapshot>)
        ensures
            ({
                let es = match limit {
                    Some(v) => entries_upto(entries@, v),
                    None => entries@,
                };
                match r {
                    Some(snap) => latest_schema(es) matches Some(p) && is_snapshot(snap, p),
                    None => latest_schema(es) is None,
                }
            }),
    {
        let ghost es = match limit {
            Some(v) => entries_upto(entries@, v),
            None => entries@,
        };
        let mut k = entries.len();
        assert(entries@.take(k as int) =~= entries@);
        while k > 0
            invariant
                k <= entries@.len(),
                es == match limit {
                    Some(v) => entries_upto(entries@, v),
                    None => entries@,
                },
                latest_schema(es) == latest_schema(match limit {
                    Some(v) => entries_upto(entries@.take(k as int), v),
                    None => entries@.take(k as int),
                }),
            decreases k,
        {
            let e = &entries[k - 1];
            assert(entries@.take(k as int).last() == entries@[k - 1]);
            assert(entries@.take(k as int).drop_last() =~= entries@.take(k - 1));
            let inside = match limit {
                Some(v) => e.version <= v,
                None => true,
            };
            let ghost prefix = match limit {
                Some(v) => entries_upto(entries@.take(k - 1), v),
                None => entries@.take(k - 1),
            };
            proof {
                if inside {
                    assert(prefix.push(*e).drop_last() =~= prefix);
                    assert(match limit {
                        Some(v) => entries_upto(entries@.take(k as int), v),
                        None => entries@.take(k as int),
                    } =~= prefix.push(*e));
                } else {
                    assert(match limit {
                        Some(v) => entries_upto(entries@.take(k as int), v),
                        None => entries@.take(k as int),
                    } =~= prefix);
                }
            }
            if inside {
                match Self::last_schema_of(&e.actions) {
                    Some((ts, s)) => {
                        return Some(SchemaSnapshot { version: e.version, timestamp: ts, schema: s.duplicate() });
                    },
                    None => {},
                }
            }
            k -= 1;
        }
        None
    }

    /// The current schema: the latest readable schema of the log.
    pub fn current_schema(entries: &[CommitEntry]) -> (r: Option<SchemaSnapshot>)
        ensures
            match r {
                Some(snap) => latest_schema(entries@) matches Some(p) && is_snapshot(snap, p),
                None => latest_schema(entries@) is None,
            },
    {
        Self::latest_upto(entries, None)
    }

    /// The schema at version `version`: the latest readable schema among the
    /// commits up to that version.
    pub fn at_version(entries: &[CommitEntry], version: u64) -> (r: Option<SchemaSnapshot>)
        ensures
            match r {
                Some(snap) => latest_schema(entries_upto(entries@, version)) matches Some(p)
                    && is_snapshot(snap, p),
                None => latest_schema(entries_upto(entries@, version)) is None,
            },
    {
        Self::latest_upto(entries, Some(version))
    }

    /// The time of the first commit info among `acts`.
    fn commit_time(acts: &Vec<Action>) -> (r: Option<i64>)
        ensures
            r == first_commit_ts(acts@),
    {
        let mut j: usize = 0;
        assert(acts@.skip(0) =~= acts@);
        while j < acts.len()
            invariant
                j <= acts@.len(),
                first_commit_ts(acts@) == first_commit_ts(acts@.skip(j as int)),
            decreases acts@.len() - j,
        {
            assert(acts@.skip(j as int)[0] == acts@[j as int]);
            match &acts[j] {
                Action::CommitInfo(ci) => {
                    return Some(ci.timestamp);
                },
                _ => {},
            }
            assert(acts@.skip(j as int).drop_first() =~= acts@.skip(j + 1));
            j += 1;
        }
        None
    }

    /// Full schema evolution history: the change between every two
    /// consecutive readable schemas of the log, when they differ.
    pub fn history(entries: &[CommitEntry]) -> (r: Vec<SchemaChange>)
        ensures
            changes_view(r@) == changes_between(schema_snapshots(entries@)),
    {
        let mut snaps: Vec<(u64, Option<i64>, &StructType)> = Vec::new();
        let mut i: usize = 0;
        while i < entries.len()
            invariant
                i <= entries@.len(),
                snaps@.map_values(|p: (u64, Option<i64>, &StructType)| deref_snap(p)) == schema_snapshots(entries@.take(i as int)),
            decreases entries@.len() - i,
        {
            let e = &entries[i];
            let ts = Self::commit_time(&e.actions);
            let ghost base = snaps@.map_values(|p: (u64, Option<i64>, &StructType)| deref_snap(p));
            let mut j: usize = 0;
            while j < e.actions.len()
                invariant
                    j <= e.actions@.len(),
                    ts == first_commit_ts(e.actions@),
                    snaps@.map_values(|p: (u64, Option<i64>, &StructType)| deref_snap(p)) == base + schemas_in(e.version, ts, e.actions@.take(j as int)),
                decreases e.actions@.len() - j,
            {
                assert(e.actions@.take(j + 1).drop_last() =~= e.actions@.take(j as int));
                assert(e.actions@.take(j + 1).last() == e.actions@[j as int]);
                let ghost before = snaps@.map_values(|p: (u64, Option<i64>, &StructType)| deref_snap(p));
                match &e.actions[j] {
                    Action::MetaData(m) => {
                        match &m.schema {
                            Some(s) => {
                                snaps.push((e.version, ts, s));
                                assert(snaps@.map_values(|p: (u64, Option<i64>, &StructType)| deref_snap(p)) =~= before.push((e.version, ts, *s)));
                            },
                            None => {},
                        }
                    },
                    _ => {},
                }
                j += 1;
            }
            assert(e.actions@.take(j as int) =~= e.actions@);
            assert(entries@.take(i + 1).drop_last() =~= entries@.take(i as int));
            assert(entries@.take(i + 1).last() == entries@[i as int]);
            i += 1;
        }
        assert(entries@.take(i as int) =~= entries@);
        let ghost sv = snaps@.map_values(|p: (u64, Option<i64>, &StructType)| deref_snap(p));
        let mut changes: Vec<SchemaChange> = Vec::new();
        if snaps.len() < 2 {
            assert(changes_view(changes@) =~= changes_between(sv));
            return changes;
        }
        let mut k: usize = 1;
        assert(changes_view(changes@) =~= changes_between(sv.take(1)));
        while k < snaps.len()
            invariant
                1 <= k <= snaps@.len(),
                sv == snaps@.map_values(|p: (u64, Option<i64>, &StructType)| deref_snap(p)),
                changes_view(changes@) == changes_between(sv.take(k as int)),
            decreases snaps@.len() - k,
        {
            let (_, _, prev) = snaps[k - 1];
            let (version, ts, cur) = snaps[k];
            let c = DiffAnalyzer::schema_diff(prev, cur, version, ts);
            proof {
                let t = sv.take(k + 1);
                assert(t.drop_last() =~= sv.take(k as int));
                assert(t[t.len() - 2] == sv[k - 1]);
                assert(t.last() == sv[k as int]);
            }
            if c.added_columns.len() > 0 || c.removed_columns.len() > 0 || c.modified_columns.len() > 0 {
                let ghost before = changes_view(changes@);
                let ghost cv = change_view(c);
                changes.push(c);
                assert(changes_view(changes@) =~= before.push(cv));
            }
            k += 1;
        }
        assert(sv.take(k as int) =~= sv);
        changes
    }
}

/// Every change in a schema history records something.
pub proof fn lemma_history_changes_nonempty(s: Seq<(u64, Option<i64>, StructType)>)
    ensures
        forall|i: int| 0 <= i < changes_between(s).len() ==> is_nonempty_change(#[trigger] changes_between(s)[i]),
    decreases s.len(),
{
    if s.len() >= 2 {
        lemma_history_changes_nonempty(s.drop_last());
        let r = changes_between(s.drop_last());
        let c = spec_schema_diff(s[s.len() - 2].2, s.last().2, s.last().0, s.last().1);
        assert forall|i: int| 0 <= i < changes_between(s).len() implies is_nonempty_change(#[trigger] changes_between(s)[i]) by {
            if i < r.len() {
                assert(changes_between(s)[i] == r[i]);
            } else {
                assert(changes_between(s)[i] == c);
            }
        }
    }
}

} // verus!
