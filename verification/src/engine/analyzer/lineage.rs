//! Lineage: for each commit, which operation it performed, who wrote it, and
//! how many files and bytes it added and removed; and filtering of lineage
//! entries.
use crate::engine::analyzer::diff::{names_view, tally_step_fn, Tally};
use crate::engine::fold::{fold_acts, lemma_fold_acts_step, lemma_take_all, lemma_wrap_i64_add, lemma_wrap_i64_small, wrap_i64};
use crate::engine::model::action::{find_param, lookup, Action, CommitInfoAction, ParamValue};
use crate::engine::model::lineage::{spec_parse_op, LineageEntry, OpView, OperationType};
use crate::engine::reader::CommitEntry;
use crate::text::{
    chars_of, clone_opt, concat, contains_sub, find_char, find_from, has_substring, lead_ws,
    opt_view, parse_i64, slice_range, spec_is_whitespace, spec_parse_i64, spec_to_lowercase,
    spec_to_uppercase, str_eq, string_from_chars, to_lowercase, to_uppercase, is_whitespace,
    has_prefix, starts_with,
};
use vstd::prelude::*;
use vstd::string::StringSliceAdditionalSpecFns;
use vstd::utf8::{decode_utf8, encode_utf8, is_char_boundary};

verus! {

/// The content of a lineage entry.
pub struct LineageView {
    pub version: u64,
    pub timestamp: i64,
    pub operation: OpView,
    pub operation_raw: Seq<char>,
    pub writer: Seq<char>,
    pub num_files_added: i64,
    pub num_files_removed: i64,
    pub bytes_added: i64,
    pub bytes_removed: i64,
    pub num_output_rows: Option<i64>,
    pub predicate: Option<Seq<char>>,
    pub user_name: Option<Seq<char>>,
    pub cluster_id: Option<Seq<char>>,
    pub engine_info: Option<Seq<char>>,
}

/// The content of a lineage entry.
pub open spec fn lineage_view(e: LineageEntry) -> LineageView {
    LineageView {
        version: e.version,
        timestamp: e.timestamp,
        operation: e.operation@,
        operation_raw: e.operation_raw@,
        writer: e.writer@,
        num_files_added: e.num_files_added,
        num_files_removed: e.num_files_removed,
        bytes_added: e.bytes_added,
        bytes_removed: e.bytes_removed,
        num_output_rows: e.num_output_rows,
        predicate: opt_view(e.predicate),
        user_name: opt_view(e.user_name),
        cluster_id: opt_view(e.cluster_id),
        engine_info: opt_view(e.engine_info),
    }
}

/// The contents of a list of lineage entries.
pub open spec fn lineage_views(s: Seq<LineageEntry>) -> Seq<LineageView> {
    s.map_values(|e: LineageEntry| lineage_view(e))
}

/// The first commit info among `acts`.
pub open spec fn first_commit_info(acts: Seq<Action>) -> Option<CommitInfoAction>
    decreases acts.len(),
{
    if acts.len() == 0 {
        None
    } else {
        match acts[0] {
            Action::CommitInfo(ci) => Some(ci),
            _ => first_commit_info(acts.drop_first()),
        }
    }
}

/// Index of the first white-space character of `t`, or its length.
pub open spec fn first_ws(t: Seq<char>) -> nat
    decreases t.len(),
{
    if t.len() == 0 || spec_is_whitespace(t[0]) {
        0
    } else {
        1 + first_ws(t.drop_first())
    }
}

/// The first white-space separated word of `s` (`split_whitespace().next()`).
pub open spec fn first_word(s: Seq<char>) -> Option<Seq<char>> {
    let t = s.skip(lead_ws(s) as int);
    if t.len() == 0 {
        None
    } else {
        Some(t.take(first_ws(t) as int))
    }
}

/// `w` up to its first `/`.
pub open spec fn before_slash(w: Seq<char>) -> Seq<char> {
    w.take(find_from(w, '/', 0))
}

/// Number of bytes of the notebook-id prefix shown in a writer name.
pub open spec fn notebook_prefix_len(id: Seq<char>) -> int {
    let n = encode_utf8(id).len() as int;
    if n < 8 {
        n
    } else {
        8
    }
}

/// The notebook id cut after its first eight bytes lands on a character
/// boundary.
pub open spec fn notebook_prefix_ok(id: Seq<char>) -> bool {
    is_char_boundary(encode_utf8(id), notebook_prefix_len(id))
}

/// The short name of a lower-cased engine name: without a leading `apache-`
/// (`apache-spark` becomes `spark`).
pub open spec fn short_engine(n: Seq<char>) -> Seq<char> {
    if has_prefix(n, "apache-"@) {
        n.skip(7)
    } else {
        n
    }
}

/// Who wrote a commit: the short lower-cased engine name (before any `/`) of
/// the first word of the engine info, followed by `/` and the user name when
/// there is one; else `notebook_` and the first eight bytes of the notebook
/// id; else the user name; else `unknown`.
pub open spec fn spec_writer(ci: CommitInfoAction) -> Seq<char> {
    let word = match ci.engine_info {
        Some(e) => first_word(e@),
        None => None,
    };
    match word {
        Some(w) => {
            let name = short_engine(spec_to_lowercase(before_slash(w)));
            match ci.user_name {
                Some(u) => name + "/"@ + u@,
                None => name,
            }
        },
        None => match ci.notebook_info {
            Some(nb) => "notebook_"@ + decode_utf8(
                encode_utf8(nb.notebook_id@).take(notebook_prefix_len(nb.notebook_id@)),
            ),
            None => match ci.user_name {
                Some(u) => u@,
                None => "unknown"@,
            },
        },
    }
}

/// The writer of a commit info can be named without cutting a character.
pub open spec fn writer_defined(ci: CommitInfoAction) -> bool {
    let word = match ci.engine_info {
        Some(e) => first_word(e@),
        None => None,
    };
    word is None && ci.notebook_info is Some ==> notebook_prefix_ok(ci.notebook_info->Some_0.notebook_id@)
}

/// The integer held by a parameter value written as a string or a number.
pub open spec fn param_int(p: Option<ParamValue>) -> Option<i64> {
    match p {
        Some(ParamValue::Text(s)) => spec_parse_i64(s@),
        Some(ParamValue::Number(s)) => spec_parse_i64(s@),
        _ => None,
    }
}

/// The text of a parameter value that is a string.
pub open spec fn param_text(p: ParamValue) -> Option<Seq<char>> {
    match p {
        ParamValue::Text(s) => Some(s@),
        _ => None,
    }
}

/// The predicate of a commit: its `predicate` parameter, or its `condition`
/// parameter when there is no `predicate`, when that value is a string.
pub open spec fn spec_predicate(ci: CommitInfoAction) -> Option<Seq<char>> {
    match lookup(ci.operation_parameters@, "predicate"@) {
        Some(p) => param_text(p),
        None => match lookup(ci.operation_parameters@, "condition"@) {
            Some(p) => param_text(p),
            None => None,
        },
    }
}

/// The row count a commit reports in its `numOutputRows` metric.
pub open spec fn spec_output_rows(ci: CommitInfoAction) -> Option<i64> {
    match ci.operation_metrics {
        Some(m) => param_int(lookup(m@, "numOutputRows"@)),
        None => None,
    }
}

/// Files and bytes that the data-changing actions of a commit add and remove.
pub open spec fn commit_tally(e: CommitEntry) -> Tally {
    fold_acts((0int, 0int, 0int, 0int, Map::<Seq<char>, nat>::empty()), e.version, e.actions@, tally_step_fn())
}

/// The lineage of one commit: none without a commit info.
pub open spec fn spec_entry_lineage(e: CommitEntry) -> Option<LineageView> {
    match first_commit_info(e.actions@) {
        Some(ci) => {
            let t = commit_tally(e);
            Some(
                LineageView {
                    version: e.version,
                    timestamp: ci.timestamp,
                    operation: spec_parse_op(ci.operation@),
                    operation_raw: ci.operation@,
                    writer: spec_writer(ci),
                    num_files_added: wrap_i64(t.0),
                    num_files_removed: wrap_i64(t.1),
                    bytes_added: wrap_i64(t.2),
                    bytes_removed: wrap_i64(t.3),
                    num_output_rows: spec_output_rows(ci),
                    predicate: spec_predicate(ci),
                    user_name: opt_view(ci.user_name),
                    cluster_id: opt_view(ci.cluster_id),
                    engine_info: opt_view(ci.engine_info),
                },
            )
        },
        None => None,
    }
}

/// The lineage of the commits `es`, in their order.
pub open spec fn spec_trace(es: Seq<CommitEntry>) -> Seq<LineageView>
    decreases es.len(),
{
    if es.len() == 0 {
        seq![]
    } else {
        match spec_entry_lineage(es.last()) {
            Some(l) => spec_trace(es.drop_last()).push(l),
            None => spec_trace(es.drop_last()),
        }
    }
}

/// Inserts `x` after every entry whose version is not greater than its own.
pub open spec fn insert_by_version(s: Seq<LineageView>, x: LineageView) -> Seq<LineageView>
    decreases s.len(),
{
    if s.len() == 0 {
        seq![x]
    } else if x.version < s.last().version {
        insert_by_version(s.drop_last(), x).push(s.last())
    } else {
        s.push(x)
    }
}

/// `s` stably sorted by version: entries of equal version keep their order.
pub open spec fn sort_by_version(s: Seq<LineageView>) -> Seq<LineageView>
    decreases s.len(),
{
    if s.len() == 0 {
        s
    } else {
        insert_by_version(sort_by_version(s.drop_last()), s.last())
    }
}

/// The lineage of the commits `es`: one entry for each commit that records
/// commit info, in ascending order of version (entries of equal version in
/// the order of their commits).
pub open spec fn spec_lineage(es: Seq<CommitEntry>) -> Seq<LineageView> {
    sort_by_version(spec_trace(es))
}

/// Every commit of `es` has a nameable writer.
pub open spec fn traceable(es: Seq<CommitEntry>) -> bool {
    forall|i: int| 0 <= i < es.len() ==> (#[trigger] first_commit_info(es[i].actions@) matches Some(ci) ==> writer_defined(ci))
}

/// Filter criteria for lineage entries; absent criteria accept everything.
pub struct LineageFilter {
    pub since_timestamp: Option<i64>,
    pub until_timestamp: Option<i64>,
    pub operations: Option<Vec<String>>,
    pub user: Option<String>,
}

/// The criteria accept `e`: its time is within the bounds, its operation is
/// one of the listed ones (ignoring letter case), and the user text occurs
/// (ignoring letter case) in its writer or in its user name.
pub open spec fn accepts_view(
    since: Option<i64>,
    until: Option<i64>,
    ops: Option<Seq<Seq<char>>>,
    user: Option<Seq<char>>,
    e: LineageView,
) -> bool {
    &&& (since matches Some(s) ==> e.timestamp >= s)
    &&& (until matches Some(u) ==> e.timestamp <= u)
    &&& (ops matches Some(os) ==> exists|i: int|
        0 <= i < os.len() && #[trigger] spec_to_uppercase(os[i]) == spec_to_uppercase(e.operation_raw))
    &&& (user matches Some(u) ==> {
        let ul = spec_to_lowercase(u);
        ||| has_substring(spec_to_lowercase(e.writer), ul)
        ||| (e.user_name matches Some(n) && has_substring(spec_to_lowercase(n), ul))
    })
}

/// The entries of `s` that the criteria accept, in order.
pub open spec fn filter_views(
    since: Option<i64>,
    until: Option<i64>,
    ops: Option<Seq<Seq<char>>>,
    user: Option<Seq<char>>,
    s: Seq<LineageView>,
) -> Seq<LineageView>
    decreases s.len(),
{
    if s.len() == 0 {
        seq![]
    } else if accepts_view(since, until, ops, user, s.last()) {
        filter_views(since, until, ops, user, s.drop_last()).push(s.last())
    } else {
        filter_views(since, until, ops, user, s.drop_last())
    }
}

/// The operation names of a filter.
pub open spec fn ops_view(ops: Option<Vec<String>>) -> Option<Seq<Seq<char>>> {
    match ops {
        Some(v) => Some(names_view(v@)),
        None => None,
    }
}

/// `f` accepts `e`.
pub open spec fn keeps(f: LineageFilter, e: LineageView) -> bool {
    accepts_view(f.since_timestamp, f.until_timestamp, ops_view(f.operations), opt_view(f.user), e)
}

/// The entries a list of references points to.
pub open spec fn derefs(s: Seq<&LineageEntry>) -> Seq<LineageEntry> {
    s.map_values(|x: &LineageEntry| *x)
}

impl LineageFilter {
    /// Whether `e` has one of the listed operations.
    fn has_operation(ops: &Vec<String>, e: &LineageEntry) -> (r: bool)
        ensures
            r == exists|i: int|
                0 <= i < ops@.len() && #[trigger] spec_to_uppercase(names_view(ops@)[i]) == spec_to_uppercase(
                    e.operation_raw@,
                ),
    {
        let op_upper = to_uppercase(e.operation_raw.as_str());
        let mut i: usize = 0;
        while i < ops.len()
            invariant
                i <= ops@.len(),
                op_upper@ == spec_to_uppercase(e.operation_raw@),
                forall|k: int| 0 <= k < i ==> #[trigger] spec_to_uppercase(names_view(ops@)[k]) != op_upper@,
            decreases ops@.len() - i,
        {
            let o = to_uppercase(ops[i].as_str());
            assert(names_view(ops@)[i as int] == ops@[i as int]@);
            if str_eq(o.as_str(), op_upper.as_str()) {
                return true;
            }
            i += 1;
        }
        false
    }

    /// Whether `text`, lower-cased, contains `needle`.
    fn lower_contains(text: &str, needle: &Vec<char>) -> (r: bool)
        ensures
            r == has_substring(spec_to_lowercase(text@), needle@),
    {
        let t = to_lowercase(text);
        contains_sub(&chars_of(t.as_str()), needle)
    }

    /// Whether the filter accepts `e`.
    pub fn accepts(&self, e: &LineageEntry) -> (r: bool)
        ensures
            r == keeps(*self, lineage_view(*e)),
    {
        if let Some(since) = self.since_timestamp {
            if e.timestamp < since {
                return false;
            }
        }
        if let Some(until) = self.until_timestamp {
            if e.timestamp > until {
                return false;
            }
        }
        if let Some(ops) = &self.operations {
            if !Self::has_operation(ops, e) {
                return false;
            }
        }
        if let Some(user) = &self.user {
            let ul = to_lowercase(user.as_str());
            let ulc = chars_of(ul.as_str());
            let in_writer = Self::lower_contains(e.writer.as_str(), &ulc);
            let in_user = match &e.user_name {
                Some(n) => Self::lower_contains(n.as_str(), &ulc),
                None => false,
            };
            if !in_writer && !in_user {
                return false;
            }
        }
        true
    }

    /// The entries that the filter accepts, in order.
    pub fn apply<'a>(&self, entries: &'a [LineageEntry]) -> (r: Vec<&'a LineageEntry>)
        ensures
            lineage_views(derefs(r@)) == filter_views(
                self.since_timestamp,
                self.until_timestamp,
                ops_view(self.operations),
                opt_view(self.user),
                lineage_views(entries@),
            ),
    {
        let mut r: Vec<&'a LineageEntry> = Vec::new();
        let mut i: usize = 0;
        while i < entries.len()
            invariant
                i <= entries@.len(),
                lineage_views(derefs(r@)) == filter_views(
                    self.since_timestamp,
                    self.until_timestamp,
                    ops_view(self.operations),
                    opt_view(self.user),
                    lineage_views(entries@.take(i as int)),
                ),
            decreases entries@.len() - i,
        {
            let ghost lv = lineage_views(entries@.take(i + 1));
            assert(lv.drop_last() =~= lineage_views(entries@.take(i as int)));
            assert(lv.last() == lineage_view(entries@[i as int]));
            if self.accepts(&entries[i]) {
                let ghost before = lineage_views(derefs(r@));
                r.push(&entries[i]);
                assert(lineage_views(derefs(r@)) =~= before.push(lineage_view(entries@[i as int])));
            }
            i += 1;
        }
        assert(entries@.take(i as int) =~= entries@);
        r
    }
}

impl LineageEntry {
    /// A copy of the entry.
    pub fn duplicate(&self) -> (c: LineageEntry)
        ensures
            lineage_view(c) == lineage_view(*self),
    {
        LineageEntry {
            version: self.version,
            timestamp: self.timestamp,
            operation: self.operation.duplicate(),
            operation_raw: self.operation_raw.clone(),
            writer: self.writer.clone(),
            num_files_added: self.num_files_added,
            num_files_removed: self.num_files_removed,
            bytes_added: self.bytes_added,
            bytes_removed: self.bytes_removed,
            num_output_rows: self.num_output_rows,
            predicate: clone_opt(&self.predicate),
            user_name: clone_opt(&self.user_name),
            cluster_id: clone_opt(&self.cluster_id),
            engine_info: clone_opt(&self.engine_info),
        }
    }
}

/// Reconstructs lineage from commit entries.
pub struct LineageTracer;

impl LineageTracer {
    /// Reconstructs lineage from commit entries, one entry per commit that
    /// has a commit info, in ascending version order (entries of equal
    /// version in the order of their commits).
    pub fn trace(entries: &[CommitEntry]) -> (r: Vec<LineageEntry>)
        requires
            traceable(entries@),
        ensures
            lineage_views(r@) == spec_lineage(entries@),
    {
        let mut raw: Vec<LineageEntry> = Vec::new();
        let mut i: usize = 0;
        while i < entries.len()
            invariant
                i <= entries@.len(),
                traceable(entries@),
                lineage_views(raw@) == spec_trace(entries@.take(i as int)),
            decreases entries@.len() - i,
        {
            assert(entries@.take(i + 1).drop_last() =~= entries@.take(i as int));
            assert(entries@.take(i + 1).last() == entries@[i as int]);
            assert(first_commit_info(entries@[i as int].actions@) matches Some(ci) ==> writer_defined(ci));
            let ghost before = lineage_views(raw@);
            match Self::entry_lineage(&entries[i]) {
                Some(l) => {
                    raw.push(l);
                    assert(lineage_views(raw@) =~= before.push(lineage_view(l)));
                },
                None => {},
            }
            i += 1;
        }
        assert(entries@.take(i as int) =~= entries@);
        let ghost tv = lineage_views(raw@);
        let mut sorted: Vec<LineageEntry> = Vec::new();
        assert(lineage_views(sorted@) =~= sort_by_version(tv.take(0)));
        let mut j: usize = 0;
        while j < raw.len()
            invariant
                j <= raw@.len(),
                tv == lineage_views(raw@),
                lineage_views(sorted@) == sort_by_version(tv.take(j as int)),
            decreases raw@.len() - j,
        {
            let x = raw[j].duplicate();
            let ghost xv = lineage_view(x);
            let ghost sv = lineage_views(sorted@);
            let mut p = sorted.len();
            while p > 0 && x.version < sorted[p - 1].version
                invariant
                    p <= sorted@.len(),
                    sv == lineage_views(sorted@),
                    xv == lineage_view(x),
                    forall|k: int| p <= k < sv.len() ==> xv.version < #[trigger] sv[k].version,
                decreases p,
            {
                p -= 1;
            }
            proof {
                lemma_insert_at_version(sv, xv, p as int);
                assert(tv.take(j + 1).drop_last() =~= tv.take(j as int));
                assert(tv[j as int] == xv);
            }
            sorted.insert(p, x);
            assert(lineage_views(sorted@) =~= sv.take(p as int) + seq![xv] + sv.skip(p as int));
            j += 1;
        }
        assert(tv.take(j as int) =~= tv);
        sorted
    }

    /// Whether the writer of every commit of `entries` can be named, so that
    /// `trace` may be called on them.
    pub fn can_trace(entries: &[CommitEntry]) -> (r: bool)
        ensures
            r == traceable(entries@),
    {
        let mut i: usize = 0;
        while i < entries.len()
            invariant
                i <= entries@.len(),
                forall|k: int| 0 <= k < i ==> (#[trigger] first_commit_info(entries@[k].actions@) matches Some(ci) ==> writer_defined(ci)),
            decreases entries@.len() - i,
        {
            match Self::find_commit_info(&entries[i].actions) {
                Some(ci) => {
                    if !Self::writer_nameable(ci) {
                        return false;
                    }
                },
                None => {},
            }
            i += 1;
        }
        true
    }

    /// Whether the writer of `ci` can be named.
    fn writer_nameable(ci: &CommitInfoAction) -> (r: bool)
        ensures
            r == writer_defined(*ci),
    {
        let word = match &ci.engine_info {
            Some(e) => Self::first_word_of(e.as_str()),
            None => None,
        };
        if word.is_some() {
            return true;
        }
        match &ci.notebook_info {
            Some(nb) => {
                let id = nb.notebook_id.as_str();
                let byte_len = id.as_bytes().len();
                let n = if byte_len < 8 {
                    byte_len
                } else {
                    8
                };
                assert(id.spec_bytes() == encode_utf8(id@));
                id.is_char_boundary(n)
            },
            None => true,
        }
    }

    /// The first commit info among `acts`.
    fn find_commit_info(acts: &Vec<Action>) -> (r: Option<&CommitInfoAction>)
        ensures
            match r {
                Some(ci) => first_commit_info(acts@) == Some(*ci),
                None => first_commit_info(acts@) is None,
            },
    {
        let mut j: usize = 0;
        assert(acts@.skip(0) =~= acts@);
        while j < acts.len()
            invariant
                j <= acts@.len(),
                first_commit_info(acts@) == first_commit_info(acts@.skip(j as int)),
            decreases acts@.len() - j,
        {
            assert(acts@.skip(j as int)[0] == acts@[j as int]);
            match &acts[j] {
                Action::CommitInfo(ci) => {
                    return Some(ci);
                },
                _ => {},
            }
            assert(acts@.skip(j as int).drop_first() =~= acts@.skip(j + 1));
            j += 1;
        }
        None
    }

    /// The first word of `s`, if it has one.
    fn first_word_of(s: &str) -> (r: Option<Vec<char>>)
        ensures
            match r {
                Some(w) => first_word(s@) == Some(w@),
                None => first_word(s@) is None,
            },
    {
        let cs = chars_of(s);
        let n = cs.len();
        let mut a: usize = 0;
        assert(cs@.skip(0) =~= cs@);
        while a < n && is_whitespace(cs[a])
            invariant
                a <= n,
                n == cs@.len(),
                lead_ws(cs@) == a + lead_ws(cs@.skip(a as int)),
            decreases n - a,
        {
            assert(cs@.skip(a as int).drop_first() =~= cs@.skip(a + 1));
            a += 1;
        }
        assert(lead_ws(cs@.skip(a as int)) == 0);
        let ghost t = cs@.skip(a as int);
        if a == n {
            return None;
        }
        let mut b = a;
        while b < n && !is_whitespace(cs[b])
            invariant
                a <= b <= n,
                n == cs@.len(),
                t == cs@.skip(a as int),
                first_ws(t) == (b - a) + first_ws(cs@.skip(b as int)),
            decreases n - b,
        {
            assert(cs@.skip(b as int).drop_first() =~= cs@.skip(b + 1));
            b += 1;
        }
        assert(first_ws(cs@.skip(b as int)) == 0);
        let w = slice_range(&cs, a, b);
        assert(w@ =~= t.take(b - a));
        Some(w)
    }

    /// Who wrote the commit described by `ci`.
    fn build_writer_string(ci: &CommitInfoAction) -> (w: String)
        requires
            writer_defined(*ci),
        ensures
            w@ == spec_writer(*ci),
    {
        let word = match &ci.engine_info {
            Some(e) => Self::first_word_of(e.as_str()),
            None => None,
        };
        match word {
            Some(w) => {
                let cut = find_char(&w, '/', 0);
                proof {
                    crate::text::lemma_find_from(w@, '/', 0);
                }
                let head = slice_range(&w, 0, cut);
                assert(head@ =~= before_slash(w@));
                let head_s = string_from_chars(&head);
                let lower = chars_of(to_lowercase(head_s.as_str()).as_str());
                let prefix = chars_of("apache-");
                proof {
                    reveal_strlit("apache-");
                }
                let short = if starts_with(&lower, &prefix) {
                    slice_range(&lower, 7, lower.len())
                } else {
                    lower
                };
                assert(short@ =~= short_engine(spec_to_lowercase(before_slash(w@))));
                let name = string_from_chars(&short);
                match &ci.user_name {
                    Some(u) => {
                        let with_slash = concat(name.as_str(), "/");
                        let r = concat(with_slash.as_str(), u.as_str());
                        r
                    },
                    None => name,
                }
            },
            None => match &ci.notebook_info {
                Some(nb) => {
                    let id = nb.notebook_id.as_str();
                    let byte_len = id.as_bytes().len();
                    let n = if byte_len < 8 {
                        byte_len
                    } else {
                        8
                    };
                    assert(id@ == nb.notebook_id@);
                    assert(id.spec_bytes() == encode_utf8(id@));
                    assert(n == notebook_prefix_len(id@));
                    assert(notebook_prefix_ok(id@));
                    let (head, _) = id.split_at(n);
                    proof {
                        vstd::utf8::encode_utf8_decode_utf8(head@);
                        assert(head.spec_bytes() =~= encode_utf8(id@).take(n as int));
                    }
                    concat("notebook_", head)
                },
                None => match &ci.user_name {
                    Some(u) => u.clone(),
                    None => "unknown".to_owned(),
                },
            },
        }
    }

    /// The integer held by a parameter value.
    fn param_int_of(p: Option<&ParamValue>) -> (r: Option<i64>)
        ensures
            r == param_int(match p {
                Some(v) => Some(*v),
                None => None,
            }),
    {
        match p {
            Some(ParamValue::Text(s)) => parse_i64(&chars_of(s.as_str())),
            Some(ParamValue::Number(s)) => parse_i64(&chars_of(s.as_str())),
            _ => None,
        }
    }

    /// The text of a parameter value.
    fn param_text_of(p: &ParamValue) -> (r: Option<String>)
        ensures
            opt_view(r) == param_text(*p),
    {
        match p {
            ParamValue::Text(s) => Some(s.clone()),
            _ => None,
        }
    }

    /// The lineage of one commit.
    pub fn entry_lineage(entry: &CommitEntry) -> (r: Option<LineageEntry>)
        requires
            first_commit_info(entry.actions@) matches Some(ci) ==> writer_defined(ci),
        ensures
            match r {
                Some(l) => spec_entry_lineage(*entry) == Some(lineage_view(l)),
                None => spec_entry_lineage(*entry) is None,
            },
    {
        let ci = match Self::find_commit_info(&entry.actions) {
            Some(ci) => ci,
            None => {
                return None;
            },
        };
        let acts = &entry.actions;
        let ghost f = tally_step_fn();
        let ghost init: Tally = (0int, 0int, 0int, 0int, Map::<Seq<char>, nat>::empty());
        let mut files_added: i64 = 0;
        let mut files_removed: i64 = 0;
        let mut bytes_added: i64 = 0;
        let mut bytes_removed: i64 = 0;
        proof {
            lemma_wrap_i64_small(0);
        }
        let mut j: usize = 0;
        while j < acts.len()
            invariant
                j <= acts@.len(),
                acts@ == entry.actions@,
                f == tally_step_fn(),
                init == (0int, 0int, 0int, 0int, Map::<Seq<char>, nat>::empty()),
                ({
                    let t = fold_acts(init, entry.version, acts@.take(j as int), f);
                    &&& files_added == wrap_i64(t.0)
                    &&& files_removed == wrap_i64(t.1)
                    &&& bytes_added == wrap_i64(t.2)
                    &&& bytes_removed == wrap_i64(t.3)
                }),
            decreases acts@.len() - j,
        {
            let ghost t = fold_acts(init, entry.version, acts@.take(j as int), f);
            match &acts[j] {
                Action::Add(a) => {
                    if a.data_change {
                        proof {
                            lemma_wrap_i64_add(t.0, 1);
                            lemma_wrap_i64_add(t.2, a.size);
                        }
                        files_added = files_added.wrapping_add(1);
                        bytes_added = bytes_added.wrapping_add(a.size);
                    }
                },
                Action::Remove(r) => {
                    if r.data_change {
                        let z: i64 = match r.size {
                            Some(z) => z,
                            None => 0,
                        };
                        proof {
                            lemma_wrap_i64_add(t.1, 1);
                            lemma_wrap_i64_add(t.3, z);
                        }
                        files_removed = files_removed.wrapping_add(1);
                        bytes_removed = bytes_removed.wrapping_add(z);
                    }
                },
                _ => {},
            }
            proof {
                lemma_fold_acts_step(init, entry.version, acts@, j as int, f);
            }
            j += 1;
        }
        proof {
            lemma_take_all(acts@);
        }
        let num_output_rows = match &ci.operation_metrics {
            Some(m) => Self::param_int_of(find_param(m, "numOutputRows")),
            None => None,
        };
        let writer = Self::build_writer_string(ci);
        let predicate = match find_param(&ci.operation_parameters, "predicate") {
            Some(p) => Self::param_text_of(p),
            None => match find_param(&ci.operation_parameters, "condition") {
                Some(p) => Self::param_text_of(p),
                None => None,
            },
        };
        let operation = OperationType::from_str(ci.operation.as_str());
        Some(
            LineageEntry {
                version: entry.version,
                timestamp: ci.timestamp,
                operation,
                operation_raw: ci.operation.clone(),
                writer,
                num_files_added: files_added,
                num_files_removed: files_removed,
                bytes_added,
                bytes_removed,
                num_output_rows,
                predicate,
                user_name: clone_opt(&ci.user_name),
                cluster_id: clone_opt(&ci.cluster_id),
                engine_info: clone_opt(&ci.engine_info),
            },
        )
    }
}

proof fn lemma_insert_at_version(s: Seq<LineageView>, x: LineageView, pos: int)
    requires
        0 <= pos <= s.len(),
        forall|k: int| pos <= k < s.len() ==> x.version < #[trigger] s[k].version,
        pos == 0 || !(x.version < s[pos - 1].version),
    ensures
        insert_by_version(s, x) == s.take(pos) + seq![x] + s.skip(pos),
    decreases s.len(),
{
    if s.len() == 0 {
        assert(s.take(pos) + seq![x] + s.skip(pos) =~= seq![x]);
    } else if pos == s.len() {
        assert(s.take(pos) + seq![x] + s.skip(pos) =~= s.push(x));
    } else {
        let t = s.drop_last();
        assert(x.version < s[s.len() - 1].version);
        assert forall|k: int| pos <= k < t.len() implies x.version < #[trigger] t[k].version by {
            assert(t[k] == s[k]);
        }
        if pos > 0 {
            assert(t[pos - 1] == s[pos - 1]);
        }
        lemma_insert_at_version(t, x, pos);
        assert((t.take(pos) + seq![x] + t.skip(pos)).push(s.last()) =~= s.take(pos) + seq![x]
            + s.skip(pos));
    }
}

proof fn lemma_insert_version_ascending(s: Seq<LineageView>, x: LineageView)
    requires
        views_ascending(s),
    ensures
        views_ascending(insert_by_version(s, x)),
        insert_by_version(s, x).to_multiset() == s.to_multiset().insert(x),
    decreases s.len(),
{
    broadcast use vstd::seq_lib::group_to_multiset_ensures;

    if s.len() == 0 {
        assert(seq![x] =~= s.push(x));
    } else if x.version < s.last().version {
        let t = s.drop_last();
        let l = s.last();
        assert(views_ascending(t));
        lemma_insert_version_ascending(t, x);
        let r = insert_by_version(t, x);
        assert(t.push(l) =~= s);
        assert(r.push(l).to_multiset() =~= s.to_multiset().insert(x));
        assert forall|i: int, j: int| 0 <= i <= j < r.push(l).len() implies r.push(l)[i].version
            <= r.push(l)[j].version by {
            if j < r.len() {
                assert(r.push(l)[i] == r[i] && r.push(l)[j] == r[j]);
            } else if i < r.len() {
                assert(r.push(l)[i] == r[i]);
                assert(r.contains(r[i]));
                assert(r.to_multiset().count(r[i]) > 0);
                if r[i] != x {
                    assert(t.to_multiset().count(r[i]) > 0);
                    assert(t.contains(r[i]));
                    let k = choose|k: int| 0 <= k < t.len() && t[k] == r[i];
                    assert(s[k] == t[k]);
                    assert(s[s.len() - 1] == l);
                }
            }
        }
    } else {
        assert forall|i: int, j: int| 0 <= i <= j < s.push(x).len() implies s.push(x)[i].version
            <= s.push(x)[j].version by {
            if j < s.len() {
                assert(s.push(x)[i] == s[i] && s.push(x)[j] == s[j]);
            } else if i < s.len() {
                assert(s[s.len() - 1] == s.last());
            }
        }
    }
}

proof fn lemma_sort_by_version(s: Seq<LineageView>)
    ensures
        views_ascending(sort_by_version(s)),
        sort_by_version(s).to_multiset() == s.to_multiset(),
    decreases s.len(),
{
    broadcast use vstd::seq_lib::group_to_multiset_ensures;

    if s.len() > 0 {
        lemma_sort_by_version(s.drop_last());
        lemma_insert_version_ascending(sort_by_version(s.drop_last()), s.last());
        assert(s.drop_last().push(s.last()) =~= s);
    }
}

/// Lineage comes out in ascending version order, with exactly the entries of
/// the commits that record commit info (the same entries, each as often).
pub proof fn lemma_lineage_ascending(es: Seq<CommitEntry>)
    ensures
        views_ascending(spec_lineage(es)),
        spec_lineage(es).to_multiset() == spec_trace(es).to_multiset(),
{
    lemma_sort_by_version(spec_trace(es));
}

/// A filter without criteria keeps every entry.
pub proof fn lemma_filter_without_criteria(s: Seq<LineageView>)
    ensures
        filter_views(None, None, None, None, s) == s,
    decreases s.len(),
{
    if s.len() > 0 {
        lemma_filter_without_criteria(s.drop_last());
        assert(s.drop_last().push(s.last()) =~= s);
    }
}

/// Every entry that a filter keeps meets its criteria, and the filter keeps
/// no more entries than it is given.
pub proof fn lemma_filter_sound(
    since: Option<i64>,
    until: Option<i64>,
    ops: Option<Seq<Seq<char>>>,
    user: Option<Seq<char>>,
    s: Seq<LineageView>,
)
    ensures
        filter_views(since, until, ops, user, s).len() <= s.len(),
        forall|i: int| 0 <= i < filter_views(since, until, ops, user, s).len() ==> accepts_view(since, until, ops, user, #[trigger] filter_views(since, until, ops, user, s)[i]),
    decreases s.len(),
{
    if s.len() > 0 {
        lemma_filter_sound(since, until, ops, user, s.drop_last());
    }
}

/// The versions of the entries do not decrease.
pub open spec fn views_ascending(s: Seq<LineageView>) -> bool {
    forall|i: int, j: int| 0 <= i <= j < s.len() ==> s[i].version <= s[j].version
}

proof fn lemma_filter_from(
    since: Option<i64>,
    until: Option<i64>,
    ops: Option<Seq<Seq<char>>>,
    user: Option<Seq<char>>,
    s: Seq<LineageView>,
)
    ensures
        forall|i: int|
            0 <= i < filter_views(since, until, ops, user, s).len() ==> s.contains(
                #[trigger] filter_views(since, until, ops, user, s)[i],
            ),
    decreases s.len(),
{
    if s.len() > 0 {
        let t = s.drop_last();
        lemma_filter_from(since, until, ops, user, t);
        let f = filter_views(since, until, ops, user, s);
        let g = filter_views(since, until, ops, user, t);
        assert forall|i: int| 0 <= i < f.len() implies s.contains(#[trigger] f[i]) by {
            if i < g.len() {
                assert(f[i] == g[i]);
                assert(t.contains(g[i]));
                let k = choose|k: int| 0 <= k < t.len() && t[k] == g[i];
                assert(s[k] == t[k]);
            } else {
                assert(f[i] == s.last());
                assert(s[s.len() - 1] == s.last());
            }
        }
    }
}

/// A filter keeps the order of what it is given: filtering lineage in
/// ascending version order gives lineage in ascending version order.
pub proof fn lemma_filter_keeps_order(
    since: Option<i64>,
    until: Option<i64>,
    ops: Option<Seq<Seq<char>>>,
    user: Option<Seq<char>>,
    s: Seq<LineageView>,
)
    requires
        views_ascending(s),
    ensures
        views_ascending(filter_views(since, until, ops, user, s)),
    decreases s.len(),
{
    if s.len() > 0 {
        let t = s.drop_last();
        assert(views_ascending(t));
        lemma_filter_keeps_order(since, until, ops, user, t);
        lemma_filter_from(since, until, ops, user, t);
        let g = filter_views(since, until, ops, user, t);
        if accepts_view(since, until, ops, user, s.last()) {
            let f = g.push(s.last());
            assert forall|i: int, j: int| 0 <= i <= j < f.len() implies f[i].version <= f[j].version by {
                if j == g.len() && i < g.len() {
                    assert(f[i] == g[i]);
                    assert(t.contains(g[i]));
                    let k = choose|k: int| 0 <= k < t.len() && t[k] == g[i];
                    assert(s[k] == t[k]);
                    assert(s[s.len() - 1] == s.last());
                } else if j < g.len() {
                    assert(f[i] == g[i] && f[j] == g[j]);
                }
            }
        }
    }
}

/// The writer of a commit whose commit info has no engine word and no
/// notebook is its user name, and `unknown` when it has none.
pub proof fn lemma_writer_falls_back_to_user(e: CommitEntry, ci: CommitInfoAction)
    requires
        first_commit_info(e.actions@) == Some(ci),
        ci.engine_info matches Some(t) ==> first_word(t@) is None,
        ci.notebook_info is None,
    ensures
        spec_entry_lineage(e) is Some,
        ci.user_name matches Some(u) ==> spec_entry_lineage(e)->Some_0.writer == u@,
        ci.user_name is None ==> spec_entry_lineage(e)->Some_0.writer == "unknown"@,
{
}

/// The user text, ignoring letter case, occurs in the writer or in the user name.
pub open spec fn user_text_matches(u: Seq<char>, e: LineageView) -> bool {
    let ul = spec_to_lowercase(u);
    ||| has_substring(spec_to_lowercase(e.writer), ul)
    ||| (e.user_name matches Some(n) && has_substring(spec_to_lowercase(n), ul))
}

/// Adding a user text to the criteria keeps exactly the entries, accepted
/// without it, whose writer or user name contains it, ignoring letter case.
pub proof fn lemma_user_criterion(
    since: Option<i64>,
    until: Option<i64>,
    ops: Option<Seq<Seq<char>>>,
    u: Seq<char>,
    e: LineageView,
)
    ensures
        accepts_view(since, until, ops, Some(u), e) == (accepts_view(since, until, ops, None, e) && user_text_matches(u, e)),
{
}

/// Every entry that the criteria accept is kept by the filter.
pub proof fn lemma_filter_keeps_accepted(
    since: Option<i64>,
    until: Option<i64>,
    ops: Option<Seq<Seq<char>>>,
    user: Option<Seq<char>>,
    s: Seq<LineageView>,
    i: int,
)
    requires
        0 <= i < s.len(),
        accepts_view(since, until, ops, user, s[i]),
    ensures
        filter_views(since, until, ops, user, s).contains(s[i]),
    decreases s.len(),
{
    let f = filter_views(since, until, ops, user, s);
    if i == s.len() - 1 {
        assert(f.last() == s[i]);
    } else {
        let t = s.drop_last();
        assert(t[i] == s[i]);
        lemma_filter_keeps_accepted(since, until, ops, user, t, i);
        let g = filter_views(since, until, ops, user, t);
        let k = choose|k: int| 0 <= k < g.len() && g[k] == s[i];
        if accepts_view(since, until, ops, user, s.last()) {
            assert(f[k] == g[k]);
        }
    }
}

/// An entry that meets the time and operation criteria and whose user name
/// (or writer) contains the user text, ignoring letter case, is kept when
/// filtering by that user text.
pub proof fn lemma_user_filter_keeps(
    since: Option<i64>,
    until: Option<i64>,
    ops: Option<Seq<Seq<char>>>,
    u: Seq<char>,
    s: Seq<LineageView>,
    i: int,
)
    requires
        0 <= i < s.len(),
        accepts_view(since, until, ops, None, s[i]),
        user_text_matches(u, s[i]),
    ensures
        filter_views(since, until, ops, Some(u), s).contains(s[i]),
{
    lemma_user_criterion(since, until, ops, u, s[i]);
    lemma_filter_keeps_accepted(since, until, ops, Some(u), s, i);
}

} // verus!
