//! `lineage`: who wrote the latest commits, and what they did.
use crate::cli::commands::filters::{bad_date_message, date_bound, op_list, spec_date_bound, spec_op_list};
use crate::engine::analyzer::lineage::{
    filter_views, lineage_views, spec_lineage, traceable, LineageFilter, LineageTracer,
};
use crate::engine::model::lineage::LineageEntry;
use crate::engine::reader::CommitEntry;
use crate::error::DeltaLensError;
use crate::text::opt_view;
use vstd::prelude::*;
use vstd::slice::slice_subrange;

verus! {

/// How many of the latest commits `lineage` shows by default.
pub open spec fn default_last() -> int {
    20
}

/// The latest `last` commits of `es` (20 by default).
pub open spec fn recent(es: Seq<CommitEntry>, last: Option<usize>) -> Seq<CommitEntry> {
    let n = match last {
        Some(n) => n as int,
        None => default_last(),
    };
    es.skip(es.len() - if n < es.len() { n } else { es.len() as int })
}

/// The time bound of an optional date, as far as it parses.
pub open spec fn bound_of(s: Option<String>, end_of_day: bool) -> Option<i64> {
    match s {
        Some(t) => match spec_date_bound(t@, end_of_day) {
            Ok(b) => Some(b),
            Err(_) => None,
        },
        None => None,
    }
}

/// The date does not parse; its message.
pub open spec fn date_error(s: Option<String>) -> Option<Seq<char>> {
    match s {
        Some(t) => match spec_date_bound(t@, false) {
            Ok(_) => None,
            Err(m) => Some(m),
        },
        None => None,
    }
}

/// The operation names of an optional comma-separated list.
pub open spec fn ops_of(op: Option<String>) -> Option<Seq<Seq<char>>> {
    match op {
        Some(o) => Some(spec_op_list(o@)),
        None => None,
    }
}

/// What `lineage` answers: the lineage of the latest commits that the
/// filters accept, or the error of a `since` date that does not parse.
pub open spec fn lineage_outcome(
    r: Result<Vec<LineageEntry>, DeltaLensError>,
    es: Seq<CommitEntry>,
    last: Option<usize>,
    since: Option<String>,
    op: Option<String>,
    user: Option<String>,
) -> bool {
    match date_error(since) {
        Some(m) => (r matches Err(DeltaLensError::Storage(msg)) && msg@ == bad_date_message(m)),
        None => (r matches Ok(v) && lineage_views(v@) == filter_views(
            bound_of(since, false),
            None,
            ops_of(op),
            opt_view(user),
            spec_lineage(recent(es, last)),
        )),
    }
}

/// The latest `last` entries of a sorted log, as a slice.
fn recent_slice(entries: &[CommitEntry], last: Option<usize>) -> (s: &[CommitEntry])
    ensures
        s@ == recent(entries@, last),
{
    let limit = match last {
        Some(n) => n,
        None => 20,
    };
    let n = entries.len();
    let k = if limit < n {
        limit
    } else {
        n
    };
    slice_subrange(entries, n - k, n)
}

/// Whether the writers of the latest `last` commits can be named, so that
/// `execute` may be called.
pub fn can_execute(entries: &[CommitEntry], last: Option<usize>) -> (r: bool)
    ensures
        r == traceable(recent(entries@, last)),
{
    LineageTracer::can_trace(recent_slice(entries, last))
}

/// The lineage of the latest `last` commits (20 by default) of the log
/// `entries`, filtered by start date, operations and user.
pub fn execute(
    entries: &[CommitEntry],
    last: Option<usize>,
    since: Option<String>,
    op: Option<String>,
    user: Option<String>,
) -> (r: Result<Vec<LineageEntry>, DeltaLensError>)
    requires
        traceable(recent(entries@, last)),
    ensures
        lineage_outcome(r, entries@, last, since, op, user),
{
    let recent_entries = recent_slice(entries, last);
    let lineage_entries = LineageTracer::trace(recent_entries);
    let since_ts = match date_bound(&since, false) {
        Ok(t) => t,
        Err(e) => {
            return Err(e);
        },
    };
    let operations = op_list(&op);
    let filter = LineageFilter { since_timestamp: since_ts, until_timestamp: None, operations, user };
    let kept = filter.apply(&lineage_entries);
    let mut out: Vec<LineageEntry> = Vec::new();
    let mut i: usize = 0;
    while i < kept.len()
        invariant
            i <= kept@.len(),
            lineage_views(out@) == lineage_views(kept@.take(i as int).map_values(|x: &LineageEntry| *x)),
        decreases kept@.len() - i,
    {
        let ghost before = lineage_views(out@);
        out.push(kept[i].duplicate());
        assert(lineage_views(out@) =~= before.push(crate::engine::analyzer::lineage::lineage_view(*kept@[i as int])));
        assert(lineage_views(kept@.take(i + 1).map_values(|x: &LineageEntry| *x)) =~= lineage_views(
            kept@.take(i as int).map_values(|x: &LineageEntry| *x),
        ).push(crate::engine::analyzer::lineage::lineage_view(*kept@[i as int])));
        i += 1;
    }
    assert(kept@.take(i as int) =~= kept@);
    assert(crate::engine::analyzer::lineage::ops_view(filter.operations) == ops_of(op));
    Ok(out)
}

} // verus!
