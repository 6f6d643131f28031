//! The commit files of a Delta log: which directory entries are commit files,
//! their versions, and which of them a version range selects.
use crate::engine::model::action::Action;
use crate::engine::sort::{index_ascending, lex_sorted, sort_by_key, sorted_by_key};
use crate::error::DeltaLensError;
use crate::text::{chars_of, parse_u64, slice_range, spec_parse_u64};
use vstd::prelude::*;

verus! {

/// One version entry: its number, file path, and parsed actions.
#[derive(Debug)]
pub struct CommitEntry {
    pub version: u64,
    pub path: String,
    pub actions: Vec<Action>,
}

/// Index of the last `.` in `s`, or -1.
pub open spec fn last_dot(s: Seq<char>) -> int
    decreases s.len(),
{
    if s.len() == 0 {
        -1
    } else if s.last() == '.' {
        s.len() - 1
    } else {
        last_dot(s.drop_last())
    }
}

/// The file name `..`.
pub open spec fn is_dot_dot(name: Seq<char>) -> bool {
    name == seq!['.', '.']
}

/// The stem of a file name, as `Path::file_stem` gives it.
pub open spec fn file_stem(name: Seq<char>) -> Seq<char> {
    if is_dot_dot(name) || last_dot(name) <= 0 {
        name
    } else {
        name.take(last_dot(name))
    }
}

/// The extension of a file name, as `Path::extension` gives it.
pub open spec fn file_extension(name: Seq<char>) -> Option<Seq<char>> {
    if is_dot_dot(name) || last_dot(name) <= 0 {
        None
    } else {
        Some(name.skip(last_dot(name) + 1))
    }
}

/// The version of a commit file: its name is `<version>.json`.
pub open spec fn commit_version(name: Seq<char>) -> Option<u64> {
    if file_extension(name) == Some(seq!['j', 's', 'o', 'n']) {
        spec_parse_u64(file_stem(name))
    } else {
        None
    }
}

/// `v` lies in the inclusive range given by the optional bounds.
pub open spec fn in_range(v: u64, from: Option<u64>, to: Option<u64>) -> bool {
    (from matches Some(f) ==> f <= v) && (to matches Some(t) ==> v <= t)
}

/// The commit files among `names` whose versions lie in the range, as
/// (version, position in `names`), in listing order.
pub open spec fn candidates(names: Seq<String>, from: Option<u64>, to: Option<u64>) -> Seq<(u64, usize)>
    decreases names.len(),
{
    if names.len() == 0 {
        seq![]
    } else {
        let prev = candidates(names.drop_last(), from, to);
        match commit_version(names.last()@) {
            Some(v) => if in_range(v, from, to) {
                prev.push((v, (names.len() - 1) as usize))
            } else {
                prev
            },
            None => prev,
        }
    }
}

proof fn lemma_last_dot(s: Seq<char>, i: int)
    requires
        -1 <= i < s.len(),
        i >= 0 ==> s[i] == '.',
        forall|k: int| i < k < s.len() ==> s[k] != '.',
    ensures
        last_dot(s) == i,
    decreases s.len(),
{
    if s.len() > 0 && s.len() - 1 != i {
        lemma_last_dot(s.drop_last(), i);
    }
}

/// The version of a commit file named `name`, if it is one.
pub fn extract_version(name: &str) -> (r: Option<u64>)
    ensures
        r == commit_version(name@),
{
    let cs = chars_of(name);
    let n = cs.len();
    let mut d: usize = n;
    while d > 0 && cs[d - 1] != '.'
        invariant
            d <= n,
            n == cs@.len(),
            forall|k: int| d <= k < n ==> cs@[k] != '.',
        decreases d,
    {
        d -= 1;
    }
    let ghost dot: int = d - 1;
    proof {
        lemma_last_dot(cs@, dot);
    }
    if n == 2 && cs[0] == '.' && cs[1] == '.' {
        assert(cs@ =~= seq!['.', '.']);
        return None;
    }
    assert(!is_dot_dot(cs@)) by {
        if is_dot_dot(cs@) {
            assert(cs@.len() == 2 && cs@[0] == '.' && cs@[1] == '.');
        }
    }
    if d <= 1 {
        return None;
    }
    let ext = slice_range(&cs, d, n);
    assert(ext@ =~= cs@.skip(d as int));
    let is_json = ext.len() == 4 && ext[0] == 'j' && ext[1] == 's' && ext[2] == 'o' && ext[3] == 'n';
    if !is_json {
        assert(ext@ != seq!['j', 's', 'o', 'n']) by {
            if ext@ == seq!['j', 's', 'o', 'n'] {
                assert(ext@[0] == 'j' && ext@[1] == 's' && ext@[2] == 'o' && ext@[3] == 'n');
            }
        }
        return None;
    }
    assert(ext@ =~= seq!['j', 's', 'o', 'n']);
    let stem = slice_range(&cs, 0, d - 1);
    assert(stem@ =~= cs@.take(dot));
    parse_u64(&stem)
}

/// The commit files among the directory entries `names` whose versions lie in
/// the inclusive range `[from, to]`, as (version, position in `names`), in
/// ascending order of version; files of equal version keep their order in
/// `names`.
pub fn select_log_files(names: &Vec<String>, from: Option<u64>, to: Option<u64>) -> (files: Vec<(u64, usize)>)
    ensures
        sorted_by_key(files@),
        lex_sorted(files@),
        files@.to_multiset() == candidates(names@, from, to).to_multiset(),
{
    let mut found: Vec<(u64, usize)> = Vec::new();
    let mut i: usize = 0;
    while i < names.len()
        invariant
            i <= names@.len(),
            found@ == candidates(names@.take(i as int), from, to),
        decreases names@.len() - i,
    {
        assert(names@.take(i + 1).drop_last() =~= names@.take(i as int));
        match extract_version(names[i].as_str()) {
            Some(v) => {
                let inside = match (from, to) {
                    (Some(f), Some(t)) => v >= f && v <= t,
                    (Some(f), None) => v >= f,
                    (None, Some(t)) => v <= t,
                    (None, None) => true,
                };
                if inside {
                    found.push((v, i));
                }
            },
            None => {},
        }
        i += 1;
    }
    assert(names@.take(i as int) =~= names@);
    proof {
        lemma_candidates_ascending(names@, from, to);
    }
    sort_by_key(&found)
}

/// The last `n` of the files, keeping their order.
pub fn take_last(files: &Vec<(u64, usize)>, n: usize) -> (out: Vec<(u64, usize)>)
    ensures
        out@ == files@.skip(files@.len() - if n < files@.len() { n as int } else { files@.len() as int }),
{
    let k = if n < files.len() {
        n
    } else {
        files.len()
    };
    let mut out: Vec<(u64, usize)> = Vec::new();
    let mut i = files.len() - k;
    while i < files.len()
        invariant
            files@.len() - k <= i <= files@.len(),
            k <= files@.len(),
            out@ == files@.subrange(files@.len() - k, i as int),
        decreases files@.len() - i,
    {
        out.push(files[i]);
        i += 1;
    }
    assert(out@ =~= files@.skip(files@.len() - k));
    out
}

/// The current version: that of the last listed file, which is the largest
/// when the files are sorted by version; `EmptyTable` when there are none.
pub fn current_version(files: &Vec<(u64, usize)>) -> (r: Result<u64, DeltaLensError>)
    ensures
        files@.len() == 0 <==> r is Err,
        r matches Err(e) ==> e is EmptyTable,
        r matches Ok(v) ==> v == files@.last().0,
        (forall|i: int, j: int| 0 <= i <= j < files@.len() ==> files@[i].0 <= files@[j].0) ==> (r matches Ok(v)
            ==> forall|i: int| 0 <= i < files@.len() ==> #[trigger] files@[i].0 <= v),
{
    if files.len() == 0 {
        Err(DeltaLensError::EmptyTable)
    } else {
        Ok(files[files.len() - 1].0)
    }
}

/// The commits are in ascending order of version.
pub open spec fn sorted_versions(es: Seq<CommitEntry>) -> bool {
    forall|i: int, j: int| 0 <= i <= j < es.len() ==> es[i].version <= es[j].version
}

/// The commits of `es` up to version `v`, in order.
pub open spec fn entries_upto(es: Seq<CommitEntry>, v: u64) -> Seq<CommitEntry>
    decreases es.len(),
{
    if es.len() == 0 {
        seq![]
    } else if es.last().version <= v {
        entries_upto(es.drop_last(), v).push(es.last())
    } else {
        entries_upto(es.drop_last(), v)
    }
}

/// The commits of `es` after version `lo` and up to version `hi`, in order.
pub open spec fn entries_between(es: Seq<CommitEntry>, lo: u64, hi: u64) -> Seq<CommitEntry>
    decreases es.len(),
{
    if es.len() == 0 {
        seq![]
    } else if lo < es.last().version && es.last().version <= hi {
        entries_between(es.drop_last(), lo, hi).push(es.last())
    } else {
        entries_between(es.drop_last(), lo, hi)
    }
}

/// Whether the commits are in ascending order of version.
pub fn is_sorted_log(entries: &[CommitEntry]) -> (r: bool)
    ensures
        r == sorted_versions(entries@),
{
    let mut i: usize = 1;
    if entries.len() < 2 {
        return true;
    }
    while i < entries.len()
        invariant
            1 <= i <= entries@.len(),
            forall|a: int, b: int| 0 <= a <= b < i ==> entries@[a].version <= entries@[b].version,
        decreases entries@.len() - i,
    {
        if entries[i - 1].version > entries[i].version {
            return false;
        }
        i += 1;
    }
    true
}

/// Number of leading commits whose version is at most `v`.
pub fn count_upto(entries: &[CommitEntry], v: u64) -> (c: usize)
    requires
        sorted_versions(entries@),
    ensures
        c <= entries@.len(),
        forall|k: int| 0 <= k < c ==> entries@[k].version <= v,
        forall|k: int| c <= k < entries@.len() ==> entries@[k].version > v,
{
    let mut c: usize = 0;
    while c < entries.len() && entries[c].version <= v
        invariant
            c <= entries@.len(),
            forall|k: int| 0 <= k < c ==> entries@[k].version <= v,
        decreases entries@.len() - c,
    {
        c += 1;
    }
    c
}

/// In a sorted log, the commits up to `v` are a prefix.
pub proof fn lemma_upto_prefix(es: Seq<CommitEntry>, v: u64, c: int)
    requires
        0 <= c <= es.len(),
        forall|k: int| 0 <= k < c ==> es[k].version <= v,
        forall|k: int| c <= k < es.len() ==> es[k].version > v,
    ensures
        entries_upto(es, v) == es.take(c),
    decreases es.len(),
{
    if es.len() > 0 {
        if c == es.len() {
            lemma_upto_prefix(es.drop_last(), v, c - 1);
            assert(es.drop_last().take(c - 1).push(es.last()) =~= es.take(c));
        } else {
            lemma_upto_prefix(es.drop_last(), v, c);
            assert(es.drop_last().take(c) =~= es.take(c));
        }
    }
}

/// In a sorted log, the commits between `lo` and `hi` are a contiguous part.
pub proof fn lemma_between_range(es: Seq<CommitEntry>, lo: u64, hi: u64, a: int, b: int)
    requires
        0 <= a <= b <= es.len(),
        forall|k: int| 0 <= k < a ==> es[k].version <= lo,
        forall|k: int| a <= k < b ==> lo < #[trigger] es[k].version && es[k].version <= hi,
        forall|k: int| b <= k < es.len() ==> es[k].version > hi,
    ensures
        entries_between(es, lo, hi) == es.subrange(a, b),
    decreases es.len(),
{
    if es.len() > 0 {
        let n = es.len() as int;
        if b == n {
            if a == n {
                lemma_between_range(es.drop_last(), lo, hi, a - 1, b - 1);
                assert(es.drop_last().subrange(a - 1, b - 1) =~= es.subrange(a, b));
            } else {
                lemma_between_range(es.drop_last(), lo, hi, a, b - 1);
                assert(es.drop_last().subrange(a, b - 1).push(es.last()) =~= es.subrange(a, b));
            }
        } else {
            lemma_between_range(es.drop_last(), lo, hi, a, b);
            assert(es.drop_last().subrange(a, b) =~= es.subrange(a, b));
        }
    }
}

proof fn lemma_candidates_valid(names: Seq<String>, from: Option<u64>, to: Option<u64>)
    requires
        names.len() <= usize::MAX,
    ensures
        forall|i: int| 0 <= i < candidates(names, from, to).len() ==> {
            let c = #[trigger] candidates(names, from, to)[i];
            &&& in_range(c.0, from, to)
            &&& c.1 < names.len()
            &&& commit_version(names[c.1 as int]@) == Some(c.0)
        },
    decreases names.len(),
{
    if names.len() > 0 {
        lemma_candidates_valid(names.drop_last(), from, to);
        let p = candidates(names.drop_last(), from, to);
        assert forall|i: int| 0 <= i < candidates(names, from, to).len() implies {
            let c = #[trigger] candidates(names, from, to)[i];
            &&& in_range(c.0, from, to)
            &&& c.1 < names.len()
            &&& commit_version(names[c.1 as int]@) == Some(c.0)
        } by {
            if i < p.len() {
                assert(candidates(names, from, to)[i] == p[i]);
                assert(names[p[i].1 as int] == names.drop_last()[p[i].1 as int]);
            } else {
                assert(names.last() == names[names.len() - 1]);
                assert(candidates(names, from, to) == p.push(candidates(names, from, to)[i]));
            }
        }
    }
}

proof fn lemma_candidates_ascending(names: Seq<String>, from: Option<u64>, to: Option<u64>)
    requires
        names.len() <= usize::MAX,
    ensures
        index_ascending(candidates(names, from, to)),
    decreases names.len(),
{
    if names.len() > 0 {
        let t = names.drop_last();
        lemma_candidates_ascending(t, from, to);
        lemma_candidates_valid(t, from, to);
        let p = candidates(t, from, to);
        let c = candidates(names, from, to);
        assert forall|i: int, j: int| 0 <= i < j < c.len() implies c[i].1 < c[j].1 by {
            if j < p.len() {
                assert(c[i] == p[i] && c[j] == p[j]);
            } else {
                assert(c[i] == p[i]);
                assert(p[i].1 < t.len());
            }
        }
    }
}

proof fn lemma_candidates_complete(names: Seq<String>, from: Option<u64>, to: Option<u64>)
    requires
        names.len() <= usize::MAX,
    ensures
        forall|k: int|
            #![trigger names[k]]
            0 <= k < names.len() && commit_version(names[k]@) is Some && in_range(
                commit_version(names[k]@)->0,
                from,
                to,
            ) ==> candidates(names, from, to).contains((commit_version(names[k]@)->0, k as usize)),
    decreases names.len(),
{
    if names.len() > 0 {
        let t = names.drop_last();
        lemma_candidates_complete(t, from, to);
        let p = candidates(t, from, to);
        assert forall|k: int|
            #![trigger names[k]]
            0 <= k < names.len() && commit_version(names[k]@) is Some && in_range(
                commit_version(names[k]@)->0,
                from,
                to,
            ) implies candidates(names, from, to).contains((commit_version(names[k]@)->0, k as usize)) by {
            let c = candidates(names, from, to);
            let x = (commit_version(names[k]@)->0, k as usize);
            if k < t.len() {
                assert(names[k] == t[k]);
                assert(p.contains(x));
                let i = choose|i: int| 0 <= i < p.len() && p[i] == x;
                if c == p {
                    assert(c[i] == x);
                } else {
                    assert(c == p.push(c.last()));
                    assert(c[i] == x);
                }
            } else {
                assert(names.last() == names[k]);
                assert(c == p.push(x));
                assert(c[p.len() as int] == x);
            }
        }
    }
}

/// A version range selects exactly the commit files whose version lies in
/// the range: every file it selects is one, and every one is selected.
pub proof fn lemma_selected_in_range(names: Seq<String>, from: Option<u64>, to: Option<u64>, files: Seq<(u64, usize)>)
    requires
        names.len() <= usize::MAX,
        files.to_multiset() == candidates(names, from, to).to_multiset(),
    ensures
        forall|i: int| 0 <= i < files.len() ==> {
            let f = #[trigger] files[i];
            &&& in_range(f.0, from, to)
            &&& f.1 < names.len()
            &&& commit_version(names[f.1 as int]@) == Some(f.0)
        },
        forall|k: int|
            #![trigger names[k]]
            0 <= k < names.len() && commit_version(names[k]@) is Some && in_range(
                commit_version(names[k]@)->0,
                from,
                to,
            ) ==> files.contains((commit_version(names[k]@)->0, k as usize)),
{
    broadcast use vstd::seq_lib::group_to_multiset_ensures;

    lemma_candidates_valid(names, from, to);
    lemma_candidates_complete(names, from, to);
    let c = candidates(names, from, to);
    assert forall|i: int| 0 <= i < files.len() implies {
        let f = #[trigger] files[i];
        &&& in_range(f.0, from, to)
        &&& f.1 < names.len()
        &&& commit_version(names[f.1 as int]@) == Some(f.0)
    } by {
        assert(files.contains(files[i]));
        assert(files.to_multiset().count(files[i]) > 0);
        assert(c.contains(files[i]));
        let k = choose|k: int| 0 <= k < c.len() && c[k] == files[i];
        assert(c[k] == files[i]);
    }
    assert forall|k: int|
        #![trigger names[k]]
        0 <= k < names.len() && commit_version(names[k]@) is Some && in_range(
            commit_version(names[k]@)->0,
            from,
            to,
        ) implies files.contains((commit_version(names[k]@)->0, k as usize)) by {
        let x = (commit_version(names[k]@)->0, k as usize);
        assert(c.contains(x));
        assert(c.to_multiset().count(x) > 0);
        assert(files.to_multiset().count(x) > 0);
    }
}

/// The files that `take_last` keeps from a sorted list have versions no
/// smaller than those of the files it drops.
pub proof fn lemma_take_last_latest(files: Seq<(u64, usize)>, n: int)
    requires
        sorted_by_key(files),
        0 <= n <= files.len(),
    ensures
        forall|i: int, j: int| 0 <= i < files.len() - n && files.len() - n <= j < files.len() ==> files[i].0 <= files[j].0,
{
}

proof fn lemma_between_none_after(es: Seq<CommitEntry>, lo: u64, hi: u64)
    requires
        forall|k: int| 0 <= k < es.len() ==> es[k].version <= lo,
    ensures
        entries_between(es, lo, hi) == Seq::<CommitEntry>::empty(),
    decreases es.len(),
{
    if es.len() > 0 {
        lemma_between_none_after(es.drop_last(), lo, hi);
    }
}

/// In a log sorted by version, the commits up to `v1` followed by the commits
/// after `v1` up to `v2` are the commits up to `v2`: a diff's two reads
/// together cover the log up to its second version, each commit once.
pub proof fn lemma_upto_then_between(es: Seq<CommitEntry>, v1: u64, v2: u64)
    requires
        sorted_versions(es),
        v1 <= v2,
    ensures
        entries_upto(es, v1) + entries_between(es, v1, v2) == entries_upto(es, v2),
    decreases es.len(),
{
    if es.len() > 0 {
        let t = es.drop_last();
        let last = es.last();
        assert(sorted_versions(t));
        lemma_upto_then_between(t, v1, v2);
        if last.version <= v1 {
            lemma_between_none_after(t, v1, v2);
            assert(entries_between(t, v1, v2) =~= Seq::<CommitEntry>::empty());
            assert(entries_upto(es, v1) + entries_between(es, v1, v2) =~= entries_upto(t, v1).push(last));
            assert(entries_upto(t, v1) =~= entries_upto(t, v1) + entries_between(t, v1, v2));
        } else if last.version <= v2 {
            assert((entries_upto(t, v1) + entries_between(t, v1, v2)).push(last) =~= entries_upto(t, v1)
                + entries_between(t, v1, v2).push(last));
        }
    }
}

} // verus!
