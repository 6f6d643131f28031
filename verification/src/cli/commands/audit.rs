//! `audit`: the audit trail of a table, filtered by dates, operations and
//! user.
use crate::cli::commands::filters::{bad_date_message, date_bound, op_list};
use crate::cli::commands::lineage::{bound_of, ops_of};
use crate::engine::analyzer::lineage::{
    filter_views, lineage_view, lineage_views, ops_view, spec_lineage, traceable, LineageFilter,
    LineageTracer,
};
use crate::engine::model::lineage::LineageEntry;
use crate::engine::reader::CommitEntry;
use crate::error::DeltaLensError;
use crate::text::opt_view;
use vstd::prelude::*;
use crate::cli::commands::filters::spec_date_bound;

verus! {

/// The first date of `dates` that does not parse, and its message.
pub open spec fn first_date_error(since: Option<String>, until: Option<String>) -> Option<Seq<char>> {
    let s = match since {
        Some(t) => match spec_date_bound(t@, false) {
            Ok(_) => None,
            Err(m) => Some(m),
        },
        None => None,
    };
    match s {
        Some(m) => Some(m),
        None => match until {
            Some(t) => match spec_date_bound(t@, true) {
                Ok(_) => None,
                Err(m) => Some(m),
            },
            None => None,
        },
    }
}

/// What `audit` answers: the lineage of every commit that the filters accept
/// (from the start of the `since` day to the end of the `until` day), or the
/// error of the first date that does not parse.
pub open spec fn audit_outcome(
    r: Result<Vec<LineageEntry>, DeltaLensError>,
    es: Seq<CommitEntry>,
    since: Option<String>,
    until: Option<String>,
    op: Option<String>,
    user: Option<String>,
) -> bool {
    match first_date_error(since, until) {
        Some(m) => (r matches Err(DeltaLensError::Storage(msg)) && msg@ == bad_date_message(m)),
        None => (r matches Ok(v) && lineage_views(v@) == filter_views(
            bound_of(since, false),
            bound_of(until, true),
            ops_of(op),
            opt_view(user),
            spec_lineage(es),
        )),
    }
}

/// Whether the writers of all commits can be named, so that `execute` may be
/// called.
pub fn can_execute(entries: &[CommitEntry]) -> (r: bool)
    ensures
        r == traceable(entries@),
{
    LineageTracer::can_trace(entries)
}

/// The audit trail of the log `entries`, filtered by dates, operations and
/// user.
pub fn execute(
    entries: &[CommitEntry],
    since: Option<String>,
    until: Option<String>,
    op: Option<String>,
    user: Option<String>,
) -> (r: Result<Vec<LineageEntry>, DeltaLensError>)
    requires
        traceable(entries@),
    ensures
        audit_outcome(r, entries@, since, until, op, user),
{
    let lineage_entries = LineageTracer::trace(entries);
    let since_ts = match date_bound(&since, false) {
        Ok(t) => t,
        Err(e) => {
            return Err(e);
        },
    };
    let until_ts = match date_bound(&until, true) {
        Ok(t) => t,
        Err(e) => {
            return Err(e);
        },
    };
    let operations = op_list(&op);
    let filter = LineageFilter { since_timestamp: since_ts, until_timestamp: until_ts, operations, user };
    let kept = filter.apply(&lineage_entries);
    let mut out: Vec<LineageEntry> = Vec::new();
    let mut i: usize = 0;
    while i < kept.len()
        invariant
            i <= kept@.len(),
            lineage_views(out@) == lineage_views(kept@.take(i as int).map_values(|x: &LineageEntry| *x)),
        decreases kept@.len() - i,
    {
        let ghost before = lineage_views(out@);
        out.push(kept[i].duplicate());
        assert(lineage_views(out@) =~= before.push(lineage_view(*kept@[i as int])));
        assert(lineage_views(kept@.take(i + 1).map_values(|x: &LineageEntry| *x)) =~= lineage_views(
            kept@.take(i as int).map_values(|x: &LineageEntry| *x),
        ).push(lineage_view(*kept@[i as int])));
        i += 1;
    }
    assert(kept@.take(i as int) =~= kept@);
    assert(ops_view(filter.operations) == ops_of(op));
    Ok(out)
}

} // verus!
