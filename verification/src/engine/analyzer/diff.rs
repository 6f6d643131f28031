//! Differences between two versions of a table: files and bytes added and
//! removed, partitions that appeared or disappeared, operations run, and
//! schema changes.
use crate::engine::analyzer::partition::{render_partition_key, spec_partition_key};
use crate::engine::fold::{
    fold_acts, fold_log, lemma_fold_acts_step, lemma_fold_log_step, lemma_take_all,
    lemma_wrap_i64_add, lemma_wrap_i64_small, lemma_wrap_usize_inc, lemma_wrap_usize_small, wrap_i64,
    wrap_usize,
};
use crate::engine::model::action::Action;
use crate::engine::model::schema::{field_names, SchemaChange, StructField, StructType};
use crate::engine::reader::CommitEntry;
use crate::engine::strtable::{enumerates, pairs_view, StrTable};
use crate::text::str_eq;
use vstd::prelude::*;

verus! {

/// The content of a schema change.
pub struct ChangeView {
    pub version: u64,
    pub timestamp: Option<i64>,
    pub added: Seq<Seq<char>>,
    pub removed: Seq<Seq<char>>,
    pub modified: Seq<(Seq<char>, Seq<char>, Seq<char>)>,
}

/// The names of a list of strings.
pub open spec fn names_view(v: Seq<String>) -> Seq<Seq<char>> {
    v.map_values(|s: String| s@)
}

/// The content of a schema change.
pub open spec fn change_view(c: SchemaChange) -> ChangeView {
    ChangeView {
        version: c.version,
        timestamp: c.timestamp,
        added: names_view(c.added_columns@),
        removed: names_view(c.removed_columns@),
        modified: c.modified_columns@.map_values(
            |m: (String, String, String)| (m.0@, m.1@, m.2@),
        ),
    }
}

/// The names of `names` that are not among `excl`, each once, in order of
/// first occurrence.
pub open spec fn names_not_in(names: Seq<Seq<char>>, excl: Seq<Seq<char>>) -> Seq<Seq<char>>
    decreases names.len(),
{
    if names.len() == 0 {
        seq![]
    } else {
        let r = names_not_in(names.drop_last(), excl);
        let n = names.last();
        if excl.contains(n) || r.contains(n) {
            r
        } else {
            r.push(n)
        }
    }
}

/// The first field of `fields` named `name`.
pub open spec fn first_named(fields: Seq<StructField>, name: Seq<char>) -> Option<StructField>
    decreases fields.len(),
{
    if fields.len() == 0 {
        None
    } else if fields[0].name@ == name {
        Some(fields[0])
    } else {
        first_named(fields.drop_first(), name)
    }
}

/// For each field of `new` (in order) whose first namesake in `old` has
/// another type: (name, old type, new type).
pub open spec fn type_changes(old: Seq<StructField>, new: Seq<StructField>) -> Seq<(Seq<char>, Seq<char>, Seq<char>)>
    decreases new.len(),
{
    if new.len() == 0 {
        seq![]
    } else {
        let r = type_changes(old, new.drop_last());
        let f = new.last();
        match first_named(old, f.name@) {
            Some(o) => if o.data_type@ != f.data_type@ {
                r.push((f.name@, o.data_type@, f.data_type@))
            } else {
                r
            },
            None => r,
        }
    }
}

/// The change from schema `old` to schema `new`.
pub open spec fn spec_schema_diff(old: StructType, new: StructType, version: u64, timestamp: Option<i64>) -> ChangeView {
    ChangeView {
        version,
        timestamp,
        added: names_not_in(field_names(new.fields@), field_names(old.fields@)),
        removed: names_not_in(field_names(old.fields@), field_names(new.fields@)),
        modified: type_changes(old.fields@, new.fields@),
    }
}

/// The change records something.
pub open spec fn is_nonempty_change(c: ChangeView) -> bool {
    c.added.len() > 0 || c.removed.len() > 0 || c.modified.len() > 0
}

/// Whether some field of `fields` is named `name`.
fn has_field_named(fields: &Vec<StructField>, name: &str) -> (r: bool)
    ensures
        r == field_names(fields@).contains(name@),
{
    let mut i: usize = 0;
    while i < fields.len()
        invariant
            i <= fields@.len(),
            forall|k: int| 0 <= k < i ==> fields@[k].name@ != name@,
        decreases fields@.len() - i,
    {
        if str_eq(fields[i].name.as_str(), name) {
            assert(field_names(fields@)[i as int] == name@);
            return true;
        }
        i += 1;
    }
    assert forall|k: int| 0 <= k < field_names(fields@).len() implies field_names(fields@)[k] != name@ by {
        assert(field_names(fields@)[k] == fields@[k].name@);
    }
    false
}

/// Whether `name` is among `v`.
fn has_name(v: &Vec<String>, name: &str) -> (r: bool)
    ensures
        r == names_view(v@).contains(name@),
{
    let mut i: usize = 0;
    while i < v.len()
        invariant
            i <= v@.len(),
            forall|k: int| 0 <= k < i ==> v@[k]@ != name@,
        decreases v@.len() - i,
    {
        if str_eq(v[i].as_str(), name) {
            assert(names_view(v@)[i as int] == name@);
            return true;
        }
        i += 1;
    }
    assert forall|k: int| 0 <= k < names_view(v@).len() implies names_view(v@)[k] != name@ by {
        assert(names_view(v@)[k] == v@[k]@);
    }
    false
}

/// The field names of `fields` that are not names of `excl`.
fn field_names_not_in(fields: &Vec<StructField>, excl: &Vec<StructField>) -> (r: Vec<String>)
    ensures
        names_view(r@) == names_not_in(field_names(fields@), field_names(excl@)),
{
    let ghost names = field_names(fields@);
    let mut r: Vec<String> = Vec::new();
    let mut i: usize = 0;
    while i < fields.len()
        invariant
            i <= fields@.len(),
            names == field_names(fields@),
            names_view(r@) == names_not_in(names.take(i as int), field_names(excl@)),
        decreases fields@.len() - i,
    {
        let name = fields[i].name.as_str();
        proof {
            assert(names.take(i + 1).drop_last() =~= names.take(i as int));
            assert(names.take(i + 1).last() == name@);
        }
        if !has_field_named(excl, name) && !has_name(&r, name) {
            let ghost before = names_view(r@);
            r.push(fields[i].name.clone());
            assert(names_view(r@) =~= before.push(name@));
        }
        i += 1;
    }
    assert(names.take(i as int) =~= names);
    r
}

/// Index of the first field of `fields` named `name`.
fn find_first_named(fields: &Vec<StructField>, name: &str) -> (r: Option<usize>)
    ensures
        match r {
            Some(k) => k < fields@.len() && first_named(fields@, name@) == Some(fields@[k as int]),
            None => first_named(fields@, name@) is None,
        },
{
    let mut i: usize = 0;
    assert(fields@.skip(0) =~= fields@);
    while i < fields.len()
        invariant
            i <= fields@.len(),
            first_named(fields@, name@) == first_named(fields@.skip(i as int), name@),
        decreases fields@.len() - i,
    {
        assert(fields@.skip(i as int)[0] == fields@[i as int]);
        if str_eq(fields[i].name.as_str(), name) {
            return Some(i);
        }
        assert(fields@.skip(i as int).drop_first() =~= fields@.skip(i + 1));
        i += 1;
    }
    None
}

/// The type changes from `old` to `new`.
fn collect_type_changes(old: &Vec<StructField>, new: &Vec<StructField>) -> (r: Vec<(String, String, String)>)
    ensures
        r@.map_values(|m: (String, String, String)| (m.0@, m.1@, m.2@)) == type_changes(old@, new@),
{
    let mut r: Vec<(String, String, String)> = Vec::new();
    let mut i: usize = 0;
    while i < new.len()
        invariant
            i <= new@.len(),
            r@.map_values(|m: (String, String, String)| (m.0@, m.1@, m.2@)) == type_changes(
                old@,
                new@.take(i as int),
            ),
        decreases new@.len() - i,
    {
        let f = &new[i];
        proof {
            assert(new@.take(i + 1).drop_last() =~= new@.take(i as int));
            assert(new@.take(i + 1).last() == new@[i as int]);
        }
        match find_first_named(old, f.name.as_str()) {
            Some(k) => {
                let o = &old[k];
                if !str_eq(o.data_type.as_str(), f.data_type.as_str()) {
                    let ghost before = r@.map_values(|m: (String, String, String)| (m.0@, m.1@, m.2@));
                    r.push((f.name.clone(), o.data_type.clone(), f.data_type.clone()));
                    assert(r@.map_values(|m: (String, String, String)| (m.0@, m.1@, m.2@)) =~= before.push(
                        (f.name@, o.data_type@, f.data_type@),
                    ));
                }
            },
            None => {},
        }
        i += 1;
    }
    assert(new@.take(i as int) =~= new@);
    r
}

/// Summary of differences between two table versions.
#[derive(Debug)]
pub struct VersionDiff {
    pub v1: u64,
    pub v2: u64,
    pub schema_changes: Vec<SchemaChange>,
    pub files_added: i64,
    pub files_removed: i64,
    pub bytes_added: i64,
    pub bytes_removed: i64,
    pub new_partitions: Vec<String>,
    pub removed_partitions: Vec<String>,
    /// Number of commits per operation name, each operation once.
    pub operations: Vec<(String, usize)>,
    pub total_commits: usize,
}

/// The marker that stands for a missing partition value in a diff.
pub open spec fn diff_null() -> Seq<char> {
    "__NULL__"@
}

/// The partitions that hold files after one more action.
pub open spec fn partition_step(s: Set<Seq<char>>, v: u64, a: Action) -> Set<Seq<char>> {
    match a {
        Action::Add(x) => if x.partition_values@.len() > 0 {
            s.insert(spec_partition_key(x.partition_values@, diff_null()))
        } else {
            s
        },
        Action::Remove(r) => match r.partition_values {
            Some(pv) => if pv@.len() > 0 {
                s.remove(spec_partition_key(pv@, diff_null()))
            } else {
                s
            },
            None => s,
        },
        _ => s,
    }
}

/// `partition_step` as a function value, for folding over a log.
pub open spec fn partition_step_fn() -> spec_fn(Set<Seq<char>>, u64, Action) -> Set<Seq<char>> {
    |s: Set<Seq<char>>, v: u64, a: Action| partition_step(s, v, a)
}

/// The partitions that hold files after the commits `es`: a partition is
/// added by a file added to it and dropped by a file removed from it.
pub open spec fn active_partition_set(es: Seq<CommitEntry>) -> Set<Seq<char>> {
    fold_log(Set::<Seq<char>>::empty(), es, partition_step_fn())
}

/// Files added, files removed, bytes added, bytes removed (all counting
/// data-changing actions only), and commits per operation.
pub type Tally = (int, int, int, int, Map<Seq<char>, nat>);

/// One more occurrence of `k`.
pub open spec fn count_in(m: Map<Seq<char>, nat>, k: Seq<char>) -> Map<Seq<char>, nat> {
    m.insert(
        k,
        if m.contains_key(k) {
            m[k] + 1
        } else {
            1
        },
    )
}

/// The tally after one more action.
pub open spec fn tally_step(t: Tally, v: u64, a: Action) -> Tally {
    match a {
        Action::Add(x) => if x.data_change {
            (t.0 + 1, t.1, t.2 + x.size, t.3, t.4)
        } else {
            t
        },
        Action::Remove(r) => if r.data_change {
            (
                t.0,
                t.1 + 1,
                t.2,
                t.3 + match r.size {
                    Some(z) => z as int,
                    None => 0,
                },
                t.4,
            )
        } else {
            t
        },
        Action::CommitInfo(ci) => (t.0, t.1, t.2, t.3, count_in(t.4, ci.operation@)),
        _ => t,
    }
}

/// `tally_step` as a function value, for folding over a log.
pub open spec fn tally_step_fn() -> spec_fn(Tally, u64, Action) -> Tally {
    |t: Tally, v: u64, a: Action| tally_step(t, v, a)
}

/// The tally of the commits `es`.
pub open spec fn tally(es: Seq<CommitEntry>) -> Tally {
    fold_log((0int, 0int, 0int, 0int, Map::<Seq<char>, nat>::empty()), es, tally_step_fn())
}

/// The last schema seen and the changes found, after one more action; changes
/// are recorded for commits after `boundary` only.
pub open spec fn schema_step(boundary: u64, st: (Option<StructType>, Seq<ChangeView>), v: u64, a: Action) -> (Option<StructType>, Seq<ChangeView>) {
    match a {
        Action::MetaData(m) => match m.schema {
            Some(schema) => {
                let changes = match st.0 {
                    Some(prev) => if v > boundary && is_nonempty_change(
                        spec_schema_diff(prev, schema, v, None),
                    ) {
                        st.1.push(spec_schema_diff(prev, schema, v, None))
                    } else {
                        st.1
                    },
                    None => st.1,
                };
                (Some(schema), changes)
            },
            None => st,
        },
        _ => st,
    }
}

/// `schema_step` for the given boundary, as a function value.
pub open spec fn schema_step_fn(boundary: u64) -> spec_fn((Option<StructType>, Seq<ChangeView>), u64, Action) -> (Option<StructType>, Seq<ChangeView>) {
    |st: (Option<StructType>, Seq<ChangeView>), v: u64, a: Action| schema_step(boundary, st, v, a)
}

/// The schema changes found in the commits `es` after version `boundary`,
/// each between two consecutive readable schemas.
pub open spec fn schema_changes_after(es: Seq<CommitEntry>, boundary: u64) -> Seq<ChangeView> {
    fold_log((None::<StructType>, Seq::<ChangeView>::empty()), es, schema_step_fn(boundary)).1
}

/// The contents of a list of schema changes.
pub open spec fn changes_view(cs: Seq<SchemaChange>) -> Seq<ChangeView> {
    cs.map_values(|c: SchemaChange| change_view(c))
}

/// The schema an optional reference points to.
pub open spec fn deref_schema(o: Option<&StructType>) -> Option<StructType> {
    match o {
        Some(r) => Some(*r),
        None => None,
    }
}

/// Folding over two logs one after the other.
pub proof fn lemma_fold_log_concat<S>(init: S, a: Seq<CommitEntry>, b: Seq<CommitEntry>, f: spec_fn(S, u64, Action) -> S)
    ensures
        fold_log(init, a + b, f) == fold_log(fold_log(init, a, f), b, f),
    decreases b.len(),
{
    if b.len() == 0 {
        assert(a + b =~= a);
    } else {
        lemma_fold_log_concat(init, a, b.drop_last(), f);
        assert((a + b).drop_last() =~= a + b.drop_last());
    }
}

/// `d` compares the table after the commits `before` (up to version `v1`)
/// with the table after the further commits `after`: file, size and
/// operation tallies of `after`, schema changes after `v1`, and the
/// partitions that hold files at the second version but not the first, and
/// at the first but not the second.
pub open spec fn is_version_diff(d: VersionDiff, v1: u64, before: Seq<CommitEntry>, after: Seq<CommitEntry>) -> bool {
    &&& d.v1 == v1
    &&& d.v2 == if after.len() > 0 {
        after.last().version
    } else {
        v1
    }
    &&& d.files_added == wrap_i64(tally(after).0)
    &&& d.files_removed == wrap_i64(tally(after).1)
    &&& d.bytes_added == wrap_i64(tally(after).2)
    &&& d.bytes_removed == wrap_i64(tally(after).3)
    &&& enumerates(pairs_view(d.operations@), tally(after).4.map_values(|n: nat| wrap_usize(n as int)))
    &&& names_view(d.new_partitions@).no_duplicates()
    &&& names_view(d.new_partitions@).to_set() == active_partition_set(before + after).difference(
        active_partition_set(before),
    )
    &&& names_view(d.removed_partitions@).no_duplicates()
    &&& names_view(d.removed_partitions@).to_set() == active_partition_set(before).difference(
        active_partition_set(before + after),
    )
    &&& changes_view(d.schema_changes@) == schema_changes_after(before + after, v1)
    &&& d.total_commits == after.len()
}

/// The analyses that compare versions of a table.
pub struct DiffAnalyzer;

impl DiffAnalyzer {
    /// The key of a partition: its `column=value` pairs in column order,
    /// joined by `/`, a missing value written `__NULL__`.
    fn partition_key(pv: &Vec<(String, Option<String>)>) -> (key: String)
        ensures
            key@ == spec_partition_key(pv@, diff_null()),
    {
        render_partition_key(pv, "__NULL__")
    }

    /// Adds to the partitions in `t` those that the commits `entries` bring,
    /// and drops those they empty.
    fn add_partitions(t: &mut StrTable<bool>, entries: &[CommitEntry])
        requires
            old(t).wf(),
        ensures
            final(t).wf(),
            final(t).view().dom() == fold_log(old(t).view().dom(), entries@, partition_step_fn()),
    {
        let ghost f = partition_step_fn();
        let ghost init = t.view().dom();
        let mut i: usize = 0;
        while i < entries.len()
            invariant
                i <= entries@.len(),
                f == partition_step_fn(),
                t.wf(),
                t.view().dom() == fold_log(init, entries@.take(i as int), f),
            decreases entries@.len() - i,
        {
            let acts = &entries[i].actions;
            let ghost v = entries@[i as int].version;
            let ghost base = fold_log(init, entries@.take(i as int), f);
            let mut j: usize = 0;
            while j < acts.len()
                invariant
                    j <= acts@.len(),
                    acts@ == entries@[i as int].actions@,
                    f == partition_step_fn(),
                    t.wf(),
                    t.view().dom() == fold_acts(base, v, acts@.take(j as int), f),
                decreases acts@.len() - j,
            {
                let ghost before = t.view();
                match &acts[j] {
                    Action::Add(a) => {
                        if a.partition_values.len() > 0 {
                            let key = Self::partition_key(&a.partition_values);
                            t.insert(key, true);
                            assert(t.view().dom() =~= before.dom().insert(spec_partition_key(a.partition_values@, diff_null())));
                        }
                    },
                    Action::Remove(r) => {
                        match &r.partition_values {
                            Some(pv) => {
                                if pv.len() > 0 {
                                    let key = Self::partition_key(pv);
                                    t.remove(key.as_str());
                                    assert(t.view().dom() =~= before.dom().remove(spec_partition_key(pv@, diff_null())));
                                }
                            },
                            None => {},
                        }
                    },
                    _ => {},
                }
                proof {
                    lemma_fold_acts_step(base, v, acts@, j as int, f);
                }
                j += 1;
            }
            proof {
                lemma_take_all(acts@);
                lemma_fold_log_step(init, entries@, i as int, f);
            }
            i += 1;
        }
        proof {
            lemma_take_all(entries@);
        }
    }

    /// The keys of `a` that are not keys of `b`.
    fn keys_not_in(a: &StrTable<bool>, b: &StrTable<bool>) -> (r: Vec<String>)
        requires
            a.wf(),
            b.wf(),
        ensures
            names_view(r@).no_duplicates(),
            names_view(r@).to_set() == a.view().dom().difference(b.view().dom()),
    {
        let es = a.entries();
        let ghost ev = pairs_view(es@);
        let mut r: Vec<String> = Vec::new();
        let ghost pos: Seq<int> = Seq::empty();
        let mut i: usize = 0;
        while i < es.len()
            invariant
                i <= es@.len(),
                a.wf(),
                b.wf(),
                ev == pairs_view(es@),
                enumerates(ev, a.view()),
                pos.len() == r@.len(),
                forall|x: int, y: int| 0 <= x < y < pos.len() ==> pos[x] < pos[y],
                forall|x: int| 0 <= x < pos.len() ==> 0 <= #[trigger] pos[x] < i && names_view(r@)[x] == ev[pos[x]].0,
                forall|x: int| 0 <= x < pos.len() ==> !b.view().contains_key(#[trigger] names_view(r@)[x]),
                forall|k: int| 0 <= k < i && !b.view().contains_key(#[trigger] ev[k].0) ==> names_view(r@).contains(ev[k].0),
            decreases es@.len() - i,
        {
            assert(ev[i as int].0 == es@[i as int].0@);
            if !b.contains(es[i].0.as_str()) {
                let ghost before = names_view(r@);
                r.push(es[i].0.clone());
                proof {
                    assert(names_view(r@) =~= before.push(ev[i as int].0));
                    pos = pos.push(i as int);
                    assert forall|k: int| 0 <= k < i + 1 && !b.view().contains_key(#[trigger] ev[k].0) implies names_view(r@).contains(ev[k].0) by {
                        if k == i {
                            assert(names_view(r@)[r@.len() - 1] == ev[k].0);
                        } else {
                            let x = choose|x: int| 0 <= x < before.len() && before[x] == ev[k].0;
                            assert(names_view(r@)[x] == ev[k].0);
                        }
                    }
                }
            }
            i += 1;
        }
        let ghost rv = names_view(r@);
        assert forall|x: int, y: int| 0 <= x < rv.len() && 0 <= y < rv.len() && x != y implies rv[x] != rv[y] by {
            if x < y {
                assert(pos[x] < pos[y]);
            } else {
                assert(pos[y] < pos[x]);
            }
        }
        assert(rv.to_set() =~= a.view().dom().difference(b.view().dom())) by {
            assert forall|k: Seq<char>| rv.to_set().contains(k) implies a.view().dom().difference(b.view().dom()).contains(k) by {
                let x = choose|x: int| 0 <= x < rv.len() && rv[x] == k;
                assert(a.view().contains_key(ev[pos[x]].0));
            }
            assert forall|k: Seq<char>| a.view().dom().difference(b.view().dom()).contains(k) implies rv.to_set().contains(k) by {
                assert(a.view().contains_key(k));
                let q = choose|q: int| 0 <= q < ev.len() && ev[q].0 == k;
                assert(rv.contains(ev[q].0));
            }
        }
        r
    }

    /// Scans `entries` for schema changes after `boundary`, starting from the
    /// schema `prev`; appends the changes to `changes` and returns the last
    /// schema seen.
    fn detect_schema_changes<'a>(
        entries: &'a [CommitEntry],
        boundary: u64,
        prev: Option<&'a StructType>,
        changes: &mut Vec<SchemaChange>,
    ) -> (last: Option<&'a StructType>)
        ensures
            (deref_schema(last), changes_view(final(changes)@)) == fold_log(
                (deref_schema(prev), changes_view(old(changes)@)),
                entries@,
                schema_step_fn(boundary),
            ),
    {
        let ghost f = schema_step_fn(boundary);
        let ghost init = (deref_schema(prev), changes_view(changes@));
        let mut cur = prev;
        let mut i: usize = 0;
        while i < entries.len()
            invariant
                i <= entries@.len(),
                f == schema_step_fn(boundary),
                (deref_schema(cur), changes_view(changes@)) == fold_log(init, entries@.take(i as int), f),
            decreases entries@.len() - i,
        {
            let acts = &entries[i].actions;
            let v = entries[i].version;
            let ghost base = fold_log(init, entries@.take(i as int), f);
            let mut j: usize = 0;
            while j < acts.len()
                invariant
                    j <= acts@.len(),
                    acts@ == entries@[i as int].actions@,
                    v == entries@[i as int].version,
                    f == schema_step_fn(boundary),
                    (deref_schema(cur), changes_view(changes@)) == fold_acts(base, v, acts@.take(j as int), f),
                decreases acts@.len() - j,
            {
                let ghost st = (deref_schema(cur), changes_view(changes@));
                match &acts[j] {
                    Action::MetaData(m) => {
                        match &m.schema {
                            Some(schema) => {
                                match cur {
                                    Some(p) => {
                                        if v > boundary {
                                            let c = Self::schema_diff(p, schema, v, None);
                                            if c.added_columns.len() > 0 || c.removed_columns.len() > 0
                                                || c.modified_columns.len() > 0 {
                                                let ghost cv = change_view(c);
                                                changes.push(c);
                                                assert(changes_view(changes@) =~= st.1.push(cv));
                                            }
                                        }
                                    },
                                    None => {},
                                }
                                cur = Some(schema);
                            },
                            None => {},
                        }
                    },
                    _ => {},
                }
                proof {
                    lemma_fold_acts_step(base, v, acts@, j as int, f);
                }
                j += 1;
            }
            proof {
                lemma_take_all(acts@);
                lemma_fold_log_step(init, entries@, i as int, f);
            }
            i += 1;
        }
        proof {
            lemma_take_all(entries@);
        }
        cur
    }

    /// Compares the table after the commits `entries_before` (up to version
    /// `v1`) with the table after the further commits `entries_after`.
    pub fn diff(v1: u64, entries_before: &[CommitEntry], entries_after: &[CommitEntry]) -> (d: VersionDiff)
        ensures
            is_version_diff(d, v1, entries_before@, entries_after@),
    {
        let mut partitions_before: StrTable<bool> = StrTable::new();
        Self::add_partitions(&mut partitions_before, entries_before);
        let mut partitions_after: StrTable<bool> = StrTable::new();
        Self::add_partitions(&mut partitions_after, entries_before);
        Self::add_partitions(&mut partitions_after, entries_after);
        proof {
            lemma_fold_log_concat(
                Set::<Seq<char>>::empty(),
                entries_before@,
                entries_after@,
                partition_step_fn(),
            );
        }
        let new_partitions = Self::keys_not_in(&partitions_after, &partitions_before);
        let removed_partitions = Self::keys_not_in(&partitions_before, &partitions_after);

        let mut files_added: i64 = 0;
        let mut files_removed: i64 = 0;
        let mut bytes_added: i64 = 0;
        let mut bytes_removed: i64 = 0;
        let mut operations: StrTable<usize> = StrTable::new();
        let ghost f = tally_step_fn();
        let ghost init: Tally = (0int, 0int, 0int, 0int, Map::<Seq<char>, nat>::empty());
        proof {
            lemma_wrap_i64_small(0);
            assert(init.4.map_values(|n: nat| wrap_usize(n as int)) =~= Map::<Seq<char>, usize>::empty());
        }
        let mut i: usize = 0;
        while i < entries_after.len()
            invariant
                i <= entries_after@.len(),
                f == tally_step_fn(),
                init == (0int, 0int, 0int, 0int, Map::<Seq<char>, nat>::empty()),
                operations.wf(),
                ({
                    let t = fold_log(init, entries_after@.take(i as int), f);
                    &&& files_added == wrap_i64(t.0)
                    &&& files_removed == wrap_i64(t.1)
                    &&& bytes_added == wrap_i64(t.2)
                    &&& bytes_removed == wrap_i64(t.3)
                    &&& operations.view() == t.4.map_values(|n: nat| wrap_usize(n as int))
                }),
            decreases entries_after@.len() - i,
        {
            let acts = &entries_after[i].actions;
            let ghost v = entries_after@[i as int].version;
            let ghost base = fold_log(init, entries_after@.take(i as int), f);
            let mut j: usize = 0;
            while j < acts.len()
                invariant
                    j <= acts@.len(),
                    acts@ == entries_after@[i as int].actions@,
                    f == tally_step_fn(),
                    operations.wf(),
                    ({
                        let t = fold_acts(base, v, acts@.take(j as int), f);
                        &&& files_added == wrap_i64(t.0)
                        &&& files_removed == wrap_i64(t.1)
                        &&& bytes_added == wrap_i64(t.2)
                        &&& bytes_removed == wrap_i64(t.3)
                        &&& operations.view() == t.4.map_values(|n: nat| wrap_usize(n as int))
                    }),
                decreases acts@.len() - j,
            {
                let ghost t = fold_acts(base, v, acts@.take(j as int), f);
                match &acts[j] {
                    Action::Add(a) => {
                        if a.data_change {
                            proof {
                                lemma_wrap_i64_add(t.0, 1);
                                lemma_wrap_i64_add(t.2, a.size);
                            }
                            files_added = files_added.wrapping_add(1);
                            bytes_added = bytes_added.wrapping_add(a.size);
                        }
                    },
                    Action::Remove(r) => {
                        if r.data_change {
                            let z: i64 = match r.size {
                                Some(z) => z,
                                None => 0,
                            };
                            proof {
                                lemma_wrap_i64_add(t.1, 1);
                                lemma_wrap_i64_add(t.3, z);
                            }
                            files_removed = files_removed.wrapping_add(1);
                            bytes_removed = bytes_removed.wrapping_add(z);
                        }
                    },
                    Action::CommitInfo(ci) => {
                        let ghost k = ci.operation@;
                        let next: usize = match operations.get(ci.operation.as_str()) {
                            Some(c) => {
                                proof {
                                    lemma_wrap_usize_inc(t.4[k] as int);
                                }
                                c.wrapping_add(1)
                            },
                            None => {
                                proof {
                                    lemma_wrap_usize_small(1);
                                }
                                1
                            },
                        };
                        operations.insert(ci.operation.clone(), next);
                        assert(operations.view() =~= count_in(t.4, k).map_values(|n: nat| wrap_usize(n as int)));
                    },
                    _ => {},
                }
                proof {
                    lemma_fold_acts_step(base, v, acts@, j as int, f);
                }
                j += 1;
            }
            proof {
                lemma_take_all(acts@);
                lemma_fold_log_step(init, entries_after@, i as int, f);
            }
            i += 1;
        }
        proof {
            lemma_take_all(entries_after@);
        }
        let v2 = if entries_after.len() > 0 {
            entries_after[entries_after.len() - 1].version
        } else {
            v1
        };
        let mut schema_changes: Vec<SchemaChange> = Vec::new();
        let last = Self::detect_schema_changes(entries_before, v1, None, &mut schema_changes);
        let _ = Self::detect_schema_changes(entries_after, v1, last, &mut schema_changes);
        proof {
            assert(changes_view(Seq::<SchemaChange>::empty()) =~= Seq::<ChangeView>::empty());
            lemma_fold_log_concat(
                (None::<StructType>, Seq::<ChangeView>::empty()),
                entries_before@,
                entries_after@,
                schema_step_fn(v1),
            );
        }
        VersionDiff {
            v1,
            v2,
            schema_changes,
            files_added,
            files_removed,
            bytes_added,
            bytes_removed,
            new_partitions,
            removed_partitions,
            operations: operations.entries(),
            total_commits: entries_after.len(),
        }
    }

    /// The change from schema `old` to schema `new`: columns added, columns
    /// removed, and columns whose type changed.
    pub fn schema_diff(old: &StructType, new: &StructType, version: u64, timestamp: Option<i64>) -> (c: SchemaChange)
        ensures
            change_view(c) == spec_schema_diff(*old, *new, version, timestamp),
    {
        let added = field_names_not_in(&new.fields, &old.fields);
        let removed = field_names_not_in(&old.fields, &new.fields);
        let modified = collect_type_changes(&old.fields, &new.fields);
        SchemaChange {
            version,
            timestamp,
            added_columns: added,
            removed_columns: removed,
            modified_columns: modified,
        }
    }
}

/// No partition is reported both as new and as removed.
pub proof fn lemma_partition_changes_disjoint(d: VersionDiff, v1: u64, before: Seq<CommitEntry>, after: Seq<CommitEntry>)
    requires
        is_version_diff(d, v1, before, after),
    ensures
        names_view(d.new_partitions@).to_set().disjoint(names_view(d.removed_partitions@).to_set()),
{
}

proof fn lemma_names_not_in_excluded(names: Seq<Seq<char>>, excl: Seq<Seq<char>>)
    ensures
        forall|i: int| 0 <= i < names_not_in(names, excl).len() ==> !excl.contains(#[trigger] names_not_in(names, excl)[i]),
        forall|i: int| 0 <= i < names_not_in(names, excl).len() ==> names.contains(#[trigger] names_not_in(names, excl)[i]),
        names_not_in(names, excl).no_duplicates(),
    decreases names.len(),
{
    if names.len() > 0 {
        lemma_names_not_in_excluded(names.drop_last(), excl);
        let r = names_not_in(names.drop_last(), excl);
        assert forall|i: int| 0 <= i < r.len() implies names.contains(#[trigger] r[i]) by {
            let k = choose|k: int| 0 <= k < names.drop_last().len() && names.drop_last()[k] == r[i];
            assert(names[k] == r[i]);
        }
        assert(names[names.len() - 1] == names.last());
    }
}

proof fn lemma_names_not_in_self(names: Seq<Seq<char>>, excl: Seq<Seq<char>>)
    requires
        forall|i: int| 0 <= i < names.len() ==> excl.contains(#[trigger] names[i]),
    ensures
        names_not_in(names, excl).len() == 0,
    decreases names.len(),
{
    if names.len() > 0 {
        assert(excl.contains(names[names.len() - 1]));
        lemma_names_not_in_self(names.drop_last(), excl);
    }
}

proof fn lemma_first_named_self(fields: Seq<StructField>, k: int)
    requires
        0 <= k < fields.len(),
        field_names(fields).no_duplicates(),
    ensures
        first_named(fields, fields[k].name@) == Some(fields[k]),
    decreases fields.len(),
{
    if k > 0 {
        assert(field_names(fields)[0] != field_names(fields)[k]);
        let rest = fields.drop_first();
        assert(field_names(rest).no_duplicates()) by {
            assert forall|a: int, b: int| 0 <= a < field_names(rest).len() && 0 <= b < field_names(rest).len() && a != b implies field_names(rest)[a] != field_names(rest)[b] by {
                assert(field_names(rest)[a] == field_names(fields)[a + 1]);
                assert(field_names(rest)[b] == field_names(fields)[b + 1]);
            }
        }
        lemma_first_named_self(rest, k - 1);
        assert(rest[k - 1] == fields[k]);
    }
}

proof fn lemma_type_changes_self(old: Seq<StructField>, new: Seq<StructField>)
    requires
        field_names(old).no_duplicates(),
        forall|k: int| 0 <= k < new.len() ==> old.len() > k && #[trigger] new[k] == old[k],
    ensures
        type_changes(old, new).len() == 0,
    decreases new.len(),
{
    if new.len() > 0 {
        let k = new.len() - 1;
        assert(new[k] == old[k]);
        lemma_first_named_self(old, k);
        lemma_type_changes_self(old, new.drop_last());
    }
}

/// A schema whose column names are distinct does not change from itself:
/// comparing it with itself finds no added, removed or retyped column.
pub proof fn lemma_schema_diff_self(s: StructType, version: u64, timestamp: Option<i64>)
    requires
        field_names(s.fields@).no_duplicates(),
    ensures
        !is_nonempty_change(spec_schema_diff(s, s, version, timestamp)),
{
    let names = field_names(s.fields@);
    assert forall|i: int| 0 <= i < names.len() implies names.contains(#[trigger] names[i]) by {}
    lemma_names_not_in_self(names, names);
    lemma_type_changes_self(s.fields@, s.fields@);
}

/// No column is reported both as added and as removed, and none is reported
/// twice.
pub proof fn lemma_added_removed_disjoint(old: StructType, new: StructType, version: u64, timestamp: Option<i64>)
    ensures
        ({
            let c = spec_schema_diff(old, new, version, timestamp);
            &&& c.added.to_set().disjoint(c.removed.to_set())
            &&& c.added.no_duplicates()
            &&& c.removed.no_duplicates()
        }),
{
    let on = field_names(old.fields@);
    let nn = field_names(new.fields@);
    lemma_names_not_in_excluded(nn, on);
    lemma_names_not_in_excluded(on, nn);
    let c = spec_schema_diff(old, new, version, timestamp);
    assert forall|x: Seq<char>| c.added.to_set().contains(x) implies !c.removed.to_set().contains(x) by {
        let i = choose|i: int| 0 <= i < c.added.len() && c.added[i] == x;
        assert(!on.contains(c.added[i]));
        if c.removed.to_set().contains(x) {
            let j = choose|j: int| 0 <= j < c.removed.len() && c.removed[j] == x;
            assert(on.contains(c.removed[j]));
        }
    }
}

/// The field `f` has a namesake in `old` (the first one) of another type.
pub open spec fn retyped(old: Seq<StructField>, f: StructField) -> bool {
    first_named(old, f.name@) matches Some(o) && o.data_type@ != f.data_type@
}

/// Number of fields of `fs` that are retyped against `old`.
pub open spec fn count_retyped(old: Seq<StructField>, fs: Seq<StructField>) -> nat
    decreases fs.len(),
{
    if fs.len() == 0 {
        0
    } else {
        count_retyped(old, fs.drop_last()) + if retyped(old, fs.last()) {
            1nat
        } else {
            0nat
        }
    }
}

proof fn lemma_count_retyped_prefix(old: Seq<StructField>, fs: Seq<StructField>, j: int)
    requires
        0 <= j < fs.len(),
    ensures
        count_retyped(old, fs.take(j)) + (if retyped(old, fs[j]) {
            1nat
        } else {
            0nat
        }) <= count_retyped(old, fs),
    decreases fs.len(),
{
    let t = fs.drop_last();
    if j == fs.len() - 1 {
        assert(fs.take(j) =~= t);
    } else {
        assert(fs.take(j) =~= t.take(j));
        assert(t[j] == fs[j]);
        lemma_count_retyped_prefix(old, t, j);
    }
}

/// The type changes from `old` to `new` list every field of `new` whose
/// first namesake in `old` has another type, each once, in the order of the
/// fields of `new`: (name, old type, new type).
pub proof fn lemma_type_changes_complete(old: Seq<StructField>, new: Seq<StructField>)
    ensures
        type_changes(old, new).len() == count_retyped(old, new),
        forall|j: int|
            0 <= j < new.len() && retyped(old, new[j]) ==> type_changes(old, new)[count_retyped(old, new.take(j)) as int] == (
                new[j].name@,
                first_named(old, new[j].name@)->Some_0.data_type@,
                new[j].data_type@,
            ),
    decreases new.len(),
{
    if new.len() > 0 {
        let t = new.drop_last();
        lemma_type_changes_complete(old, t);
        let r = type_changes(old, new);
        let n = new.len() - 1;
        assert forall|j: int| 0 <= j < new.len() && retyped(old, new[j]) implies r[count_retyped(old, new.take(j)) as int] == (
            new[j].name@,
            first_named(old, new[j].name@)->Some_0.data_type@,
            new[j].data_type@,
        ) by {
            if j == n {
                assert(new.take(j) =~= t);
            } else {
                assert(new.take(j) =~= t.take(j));
                assert(t[j] == new[j]);
                lemma_count_retyped_prefix(old, t, j);
            }
        }
    }
}

/// The readable schemas seen so far, each with its commit's version, after
/// one more action.
pub open spec fn readable_schema_step(acc: Seq<(u64, StructType)>, v: u64, a: Action) -> Seq<(u64, StructType)> {
    match a {
        Action::MetaData(m) => match m.schema {
            Some(schema) => acc.push((v, schema)),
            None => acc,
        },
        _ => acc,
    }
}

/// `readable_schema_step` as a function value.
pub open spec fn readable_schema_step_fn() -> spec_fn(Seq<(u64, StructType)>, u64, Action) -> Seq<(u64, StructType)> {
    |acc: Seq<(u64, StructType)>, v: u64, a: Action| readable_schema_step(acc, v, a)
}

/// Every readable schema of the log, in log order, with its commit's version.
pub open spec fn readable_schemas(es: Seq<CommitEntry>) -> Seq<(u64, StructType)> {
    fold_log(Seq::<(u64, StructType)>::empty(), es, readable_schema_step_fn())
}

/// The non-empty changes between each readable schema and the one right
/// before it, for the schemas of commits after `boundary`.
pub open spec fn consecutive_changes(ss: Seq<(u64, StructType)>, boundary: u64) -> Seq<ChangeView>
    decreases ss.len(),
{
    if ss.len() < 2 {
        seq![]
    } else {
        let r = consecutive_changes(ss.drop_last(), boundary);
        let p = ss[ss.len() - 2];
        let c = ss.last();
        let d = spec_schema_diff(p.1, c.1, c.0, None);
        if c.0 > boundary && is_nonempty_change(d) {
            r.push(d)
        } else {
            r
        }
    }
}

/// The state of the schema-change fold agrees with the readable schemas seen.
pub open spec fn schema_state_agrees(st: (Option<StructType>, Seq<ChangeView>), ss: Seq<(u64, StructType)>, boundary: u64) -> bool {
    &&& st.0 == (if ss.len() == 0 {
        None
    } else {
        Some(ss.last().1)
    })
    &&& st.1 == consecutive_changes(ss, boundary)
}

proof fn lemma_schema_acts_agree(
    st: (Option<StructType>, Seq<ChangeView>),
    ss: Seq<(u64, StructType)>,
    boundary: u64,
    v: u64,
    acts: Seq<Action>,
)
    requires
        schema_state_agrees(st, ss, boundary),
    ensures
        schema_state_agrees(
            fold_acts(st, v, acts, schema_step_fn(boundary)),
            fold_acts(ss, v, acts, readable_schema_step_fn()),
            boundary,
        ),
    decreases acts.len(),
{
    if acts.len() > 0 {
        lemma_schema_acts_agree(st, ss, boundary, v, acts.drop_last());
        let st1 = fold_acts(st, v, acts.drop_last(), schema_step_fn(boundary));
        let ss1 = fold_acts(ss, v, acts.drop_last(), readable_schema_step_fn());
        if let Action::MetaData(m) = acts.last() {
            if let Some(schema) = m.schema {
                let ss2 = ss1.push((v, schema));
                assert(ss2.drop_last() =~= ss1);
                if ss1.len() > 0 {
                    assert(ss2[ss2.len() - 2] == ss1.last());
                }
            }
        }
    }
}

proof fn lemma_schema_log_agrees(es: Seq<CommitEntry>, boundary: u64)
    ensures
        schema_state_agrees(
            fold_log((None::<StructType>, Seq::<ChangeView>::empty()), es, schema_step_fn(boundary)),
            readable_schemas(es),
            boundary,
        ),
    decreases es.len(),
{
    if es.len() == 0 {
        assert(consecutive_changes(Seq::<(u64, StructType)>::empty(), boundary) == Seq::<ChangeView>::empty());
    } else {
        lemma_schema_log_agrees(es.drop_last(), boundary);
        lemma_schema_acts_agree(
            fold_log((None::<StructType>, Seq::<ChangeView>::empty()), es.drop_last(), schema_step_fn(boundary)),
            readable_schemas(es.drop_last()),
            boundary,
            es.last().version,
            es.last().actions@,
        );
    }
}

/// The schema changes found after `boundary` are, in log order, the
/// non-empty differences between each readable schema of a commit after
/// `boundary` and the readable schema right before it in the log: every
/// change is taken against the previous schema, not an earlier one.
pub proof fn lemma_schema_changes_consecutive(es: Seq<CommitEntry>, boundary: u64)
    ensures
        schema_changes_after(es, boundary) == consecutive_changes(readable_schemas(es), boundary),
{
    lemma_schema_log_agrees(es, boundary);
}

} // verus!
