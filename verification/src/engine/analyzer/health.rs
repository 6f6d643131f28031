//! Table health: the current file set reconstructed from the log, its size
//! statistics, maintenance history, partitioning and schema statistics.
use crate::engine::analyzer::diff::{count_in, names_view};
use crate::engine::analyzer::partition::{render_partition_key, spec_partition_key};
use crate::engine::fold::{
    fold_acts, fold_log, lemma_fold_acts_step, lemma_fold_log_step, lemma_take_all,
    lemma_wrap_i64_add, lemma_wrap_i64_small, lemma_wrap_usize_inc, lemma_wrap_usize_small,
    wrap_i64, wrap_usize,
};
use crate::engine::json::{parse_json_string_list, spec_json_string_list};
use crate::engine::model::action::{find_param, lookup, Action, ParamValue};
use crate::engine::model::schema::{field_names, StructType};
use crate::engine::model::stats::{MaintenanceInfo, TableHealth, TableStats};
use crate::engine::reader::CommitEntry;
use crate::engine::strtable::{enumerates, lemma_enumerates_len, pairs_view, StrTable};
use crate::text::{seq_eq, spec_to_uppercase, str_eq, to_uppercase};
use vstd::prelude::*;

verus! {

// ---------------------------------------------------------------------------
// The current file set and its sizes
// ---------------------------------------------------------------------------

/// The file set after one more action: an add (re)sets a file's size, a
/// remove drops the file.
pub open spec fn file_step(m: Map<Seq<char>, i64>, v: u64, a: Action) -> Map<Seq<char>, i64> {
    match a {
        Action::Add(x) => m.insert(x.path@, x.size),
        Action::Remove(r) => m.remove(r.path@),
        _ => m,
    }
}

/// `file_step` as a function value, for folding over a log.
pub open spec fn file_step_fn() -> spec_fn(Map<Seq<char>, i64>, u64, Action) -> Map<Seq<char>, i64> {
    |m: Map<Seq<char>, i64>, v: u64, a: Action| file_step(m, v, a)
}

/// The current files of the table after the commits `es`, with their sizes.
pub open spec fn active_files(es: Seq<CommitEntry>) -> Map<Seq<char>, i64> {
    fold_log(Map::<Seq<char>, i64>::empty(), es, file_step_fn())
}

/// `sizes` lists the sizes of the files of `m`, one entry per file.
pub open spec fn lists_sizes(sizes: Seq<i64>, m: Map<Seq<char>, i64>) -> bool {
    exists|es: Seq<(Seq<char>, i64)>| enumerates(es, m) && sizes == es.map_values(|p: (Seq<char>, i64)| p.1)
}

/// The sum of `s`.
pub open spec fn sum(s: Seq<i64>) -> int
    decreases s.len(),
{
    if s.len() == 0 {
        0
    } else {
        sum(s.drop_last()) + s.last()
    }
}

/// The smallest element of `s`, or 0 for an empty `s`.
pub open spec fn seq_min(s: Seq<i64>) -> i64
    decreases s.len(),
{
    if s.len() == 0 {
        0
    } else if s.len() == 1 {
        s[0]
    } else if s.last() < seq_min(s.drop_last()) {
        s.last()
    } else {
        seq_min(s.drop_last())
    }
}

/// The largest element of `s`, or 0 for an empty `s`.
pub open spec fn seq_max(s: Seq<i64>) -> i64
    decreases s.len(),
{
    if s.len() == 0 {
        0
    } else if s.len() == 1 {
        s[0]
    } else if s.last() > seq_max(s.drop_last()) {
        s.last()
    } else {
        seq_max(s.drop_last())
    }
}

/// Files below this size are small: 32 MiB.
pub open spec fn small_file_threshold() -> i64 {
    33554432i64
}

/// Number of elements of `s` below the small-file threshold.
pub open spec fn count_small(s: Seq<i64>) -> nat
    decreases s.len(),
{
    if s.len() == 0 {
        0
    } else {
        count_small(s.drop_last()) + if s.last() < small_file_threshold() {
            1nat
        } else {
            0nat
        }
    }
}

/// Integer division rounding toward zero (Rust's `/`), for `b > 0`.
pub open spec fn div_trunc(a: int, b: int) -> int {
    if a >= 0 {
        a / b
    } else {
        -((-a) / b)
    }
}

/// Health metrics of the file sizes `sizes`.
pub open spec fn health_of(h: TableHealth, sizes: Seq<i64>) -> bool {
    &&& h.file_sizes@ == sizes
    &&& h.total_files == sizes.len()
    &&& h.total_size == wrap_i64(sum(sizes))
    &&& h.avg_file_size == if sizes.len() > 0 {
        div_trunc(h.total_size as int, sizes.len() as int)
    } else {
        0
    }
    &&& h.min_file_size == seq_min(sizes)
    &&& h.max_file_size == seq_max(sizes)
    &&& h.small_file_count == count_small(sizes)
}

/// The health metrics of a list of file sizes.
pub fn size_metrics(sizes: Vec<i64>) -> (h: TableHealth)
    ensures
        health_of(h, sizes@),
{
    let n = sizes.len();
    let mut total: i64 = 0;
    let mut lo: i64 = 0;
    let mut hi: i64 = 0;
    let mut small: usize = 0;
    let mut i: usize = 0;
    proof {
        lemma_wrap_i64_small(0);
    }
    while i < n
        invariant
            n == sizes@.len(),
            i <= n,
            total == wrap_i64(sum(sizes@.take(i as int))),
            lo == seq_min(sizes@.take(i as int)),
            hi == seq_max(sizes@.take(i as int)),
            small == count_small(sizes@.take(i as int)),
            small <= i,
        decreases n - i,
    {
        let s = sizes[i];
        let ghost t = sizes@.take(i + 1);
        proof {
            assert(t.drop_last() =~= sizes@.take(i as int));
            assert(t.last() == s);
            lemma_wrap_i64_add(sum(sizes@.take(i as int)), s);
        }
        total = total.wrapping_add(s);
        if i == 0 {
            lo = s;
            hi = s;
        } else {
            if s < lo {
                lo = s;
            }
            if s > hi {
                hi = s;
            }
        }
        if s < 32 * 1024 * 1024 {
            small += 1;
        }
        i += 1;
    }
    proof {
        lemma_take_all(sizes@);
    }
    let avg: i64 = if n > 0 {
        let q: i128 = if total >= 0 {
            (total as i128) / (n as i128)
        } else {
            -((-(total as i128)) / (n as i128))
        };
        assert(-0x8000_0000_0000_0000 <= q <= 0x7fff_ffff_ffff_ffff) by (nonlinear_arith)
            requires
                n >= 1,
                -0x8000_0000_0000_0000 <= total <= 0x7fff_ffff_ffff_ffff,
                total >= 0 ==> q == (total as int) / (n as int),
                total < 0 ==> q == -((-(total as int)) / (n as int)),
        ;
        q as i64
    } else {
        0
    };
    TableHealth {
        total_files: n,
        total_size: total,
        avg_file_size: avg,
        min_file_size: lo,
        max_file_size: hi,
        small_file_count: small,
        file_sizes: sizes,
    }
}

proof fn lemma_sum_bounds(s: Seq<i64>)
    requires
        s.len() > 0,
    ensures
        seq_min(s) * s.len() <= sum(s) <= seq_max(s) * s.len(),
        seq_min(s) <= seq_max(s),
    decreases s.len(),
{
    if s.len() == 1 {
        assert(s.drop_last().len() == 0);
        assert(sum(s.drop_last()) == 0);
        assert(s.last() == s[0]);
        assert(sum(s) == s[0]);
    } else {
        let p = s.drop_last();
        let x = s.last();
        lemma_sum_bounds(p);
        let n = p.len() as int;
        let lo = seq_min(s);
        let hi = seq_max(s);
        assert(lo <= seq_min(p) && lo <= x);
        assert(hi >= seq_max(p) && hi >= x);
        assert(lo * n <= seq_min(p) * n) by (nonlinear_arith)
            requires
                lo <= seq_min(p),
                n >= 0,
        ;
        assert(seq_max(p) * n <= hi * n) by (nonlinear_arith)
            requires
                seq_max(p) <= hi,
                n >= 0,
        ;
        assert(lo * (n + 1) == lo * n + lo) by (nonlinear_arith);
        assert(hi * (n + 1) == hi * n + hi) by (nonlinear_arith);
    }
}

proof fn lemma_count_small_bound(s: Seq<i64>)
    ensures
        count_small(s) <= s.len(),
    decreases s.len(),
{
    if s.len() > 0 {
        lemma_count_small_bound(s.drop_last());
    }
}

/// Over a non-empty file set whose total size fits in an `i64`, the average
/// file size lies between the smallest and the largest file size; and there
/// are never more small files than files.
pub proof fn lemma_average_between_extremes(h: TableHealth, sizes: Seq<i64>)
    requires
        health_of(h, sizes),
        sizes.len() > 0,
        i64::MIN <= sum(sizes) <= i64::MAX,
    ensures
        h.min_file_size <= h.avg_file_size <= h.max_file_size,
        h.small_file_count <= h.total_files,
{
    lemma_count_small_bound(sizes);
    lemma_wrap_i64_small(sum(sizes));
    lemma_sum_bounds(sizes);
    let t = sum(sizes);
    let n = sizes.len() as int;
    let lo = h.min_file_size as int;
    let hi = h.max_file_size as int;
    assert(h.total_size == t);
    if t >= 0 {
        assert(lo <= t / n <= hi) by (nonlinear_arith)
            requires
                lo * n <= t <= hi * n,
                n > 0,
                t >= 0,
        ;
    } else {
        assert(lo <= -((-t) / n) <= hi) by (nonlinear_arith)
            requires
                lo * n <= t <= hi * n,
                n > 0,
                t < 0,
        ;
    }
}

// ---------------------------------------------------------------------------
// Maintenance
// ---------------------------------------------------------------------------

/// Last vacuum version and time, last optimize version and time, Z-order columns.
pub type Maintenance = (Option<u64>, Option<i64>, Option<u64>, Option<i64>, Seq<Seq<char>>);

/// The strings among `items`, in order.
pub open spec fn list_strings(items: Seq<Option<String>>) -> Seq<Seq<char>>
    decreases items.len(),
{
    if items.len() == 0 {
        seq![]
    } else {
        let r = list_strings(items.drop_last());
        match items.last() {
            Some(s) => r.push(s@),
            None => r,
        }
    }
}

/// The Z-order columns after an optimize whose `zOrderBy` parameter is `p`:
/// the strings of an array, or the strings of a JSON array held in a string;
/// otherwise the columns stay as they were.
pub open spec fn z_order_from(p: Option<ParamValue>, current: Seq<Seq<char>>) -> Seq<Seq<char>> {
    match p {
        Some(ParamValue::List(items)) => list_strings(items@),
        Some(ParamValue::Text(s)) => match spec_json_string_list(s@) {
            Some(cols) => cols,
            None => current,
        },
        _ => current,
    }
}

/// The maintenance state after one more action.
pub open spec fn maintenance_step(st: Maintenance, v: u64, a: Action) -> Maintenance {
    match a {
        Action::CommitInfo(ci) => {
            let op = spec_to_uppercase(ci.operation@);
            let st1 = if op == "VACUUM START"@ || op == "VACUUM END"@ {
                (Some(v), Some(ci.timestamp), st.2, st.3, st.4)
            } else {
                st
            };
            if op == "OPTIMIZE"@ {
                (
                    st1.0,
                    st1.1,
                    Some(v),
                    Some(ci.timestamp),
                    z_order_from(lookup(ci.operation_parameters@, "zOrderBy"@), st1.4),
                )
            } else {
                st1
            }
        },
        _ => st,
    }
}

/// `maintenance_step` as a function value, for folding over a log.
pub open spec fn maintenance_step_fn() -> spec_fn(Maintenance, u64, Action) -> Maintenance {
    |st: Maintenance, v: u64, a: Action| maintenance_step(st, v, a)
}

/// The maintenance state after the commits `es`.
pub open spec fn maintenance(es: Seq<CommitEntry>) -> Maintenance {
    fold_log(
        (None::<u64>, None::<i64>, None::<u64>, None::<i64>, Seq::<Seq<char>>::empty()),
        es,
        maintenance_step_fn(),
    )
}

/// The last commit whose version is a positive multiple of ten, where a
/// checkpoint would be written.
pub open spec fn last_checkpoint(es: Seq<CommitEntry>) -> Option<u64>
    decreases es.len(),
{
    if es.len() == 0 {
        None
    } else if es.last().version % 10 == 0 && es.last().version > 0 {
        Some(es.last().version)
    } else {
        last_checkpoint(es.drop_last())
    }
}

/// The maintenance information of the commits `es`.
pub open spec fn maintenance_info_of(m: MaintenanceInfo, es: Seq<CommitEntry>) -> bool {
    let st = maintenance(es);
    &&& m.last_vacuum_version == st.0
    &&& m.last_vacuum_timestamp == st.1
    &&& m.last_optimize_version == st.2
    &&& m.last_optimize_timestamp == st.3
    &&& names_view(m.z_order_columns@) == st.4
    &&& m.last_checkpoint_version == last_checkpoint(es)
}

fn list_strings_of(items: &Vec<Option<String>>) -> (r: Vec<String>)
    ensures
        names_view(r@) == list_strings(items@),
{
    let mut r: Vec<String> = Vec::new();
    let mut i: usize = 0;
    while i < items.len()
        invariant
            i <= items@.len(),
            names_view(r@) == list_strings(items@.take(i as int)),
        decreases items@.len() - i,
    {
        assert(items@.take(i + 1).drop_last() =~= items@.take(i as int));
        match &items[i] {
            Some(x) => {
                let ghost before = names_view(r@);
                r.push(x.clone());
                assert(names_view(r@) =~= before.push(x@));
            },
            None => {},
        }
        i += 1;
    }
    assert(items@.take(i as int) =~= items@);
    r
}

fn clone_strings(v: &Vec<String>) -> (r: Vec<String>)
    ensures
        names_view(r@) == names_view(v@),
{
    let mut r: Vec<String> = Vec::new();
    let mut i: usize = 0;
    while i < v.len()
        invariant
            i <= v@.len(),
            names_view(r@) == names_view(v@.take(i as int)),
        decreases v@.len() - i,
    {
        let ghost before = names_view(r@);
        r.push(v[i].clone());
        assert(names_view(r@) =~= before.push(v@[i as int]@));
        assert(names_view(v@.take(i + 1)) =~= names_view(v@.take(i as int)).push(v@[i as int]@));
        i += 1;
    }
    assert(v@.take(i as int) =~= v@);
    r
}

// ---------------------------------------------------------------------------
// Partitioning, schema statistics, timestamps and protocol
// ---------------------------------------------------------------------------

/// The marker that stands for a missing partition value in health reports.
pub open spec fn hive_null() -> Seq<char> {
    "__HIVE_DEFAULT_PARTITION__"@
}

/// Partition columns (of the last metadata) and the partitions that files
/// were ever added to.
pub type PartitionInfo = (Seq<Seq<char>>, Set<Seq<char>>);

/// The partition columns and keys seen, after one more action: metadata
/// sets the columns, a file added with partition values adds its key.
pub open spec fn partition_info_step(st: PartitionInfo, v: u64, a: Action) -> PartitionInfo {
    match a {
        Action::MetaData(m) => (names_view(m.partition_columns@), st.1),
        Action::Add(x) => if x.partition_values@.len() > 0 {
            (st.0, st.1.insert(spec_partition_key(x.partition_values@, hive_null())))
        } else {
            st
        },
        _ => st,
    }
}

/// `partition_info_step` as a function value, for folding over a log.
pub open spec fn partition_info_step_fn() -> spec_fn(PartitionInfo, u64, Action) -> PartitionInfo {
    |st: PartitionInfo, v: u64, a: Action| partition_info_step(st, v, a)
}

/// The partition information of the commits `es`.
pub open spec fn partition_info(es: Seq<CommitEntry>) -> PartitionInfo {
    fold_log((Seq::<Seq<char>>::empty(), Set::<Seq<char>>::empty()), es, partition_info_step_fn())
}

/// The partition of each current file that has partition values, after one
/// more action: an add sets (or, without partition values, clears) its
/// file's partition, a remove drops the file.
pub open spec fn file_partition_step(m: Map<Seq<char>, Seq<char>>, v: u64, a: Action) -> Map<Seq<char>, Seq<char>> {
    match a {
        Action::Add(x) => if x.partition_values@.len() > 0 {
            m.insert(x.path@, spec_partition_key(x.partition_values@, hive_null()))
        } else {
            m.remove(x.path@)
        },
        Action::Remove(r) => m.remove(r.path@),
        _ => m,
    }
}

/// `file_partition_step` as a function value, for folding over a log.
pub open spec fn file_partition_step_fn() -> spec_fn(Map<Seq<char>, Seq<char>>, u64, Action) -> Map<Seq<char>, Seq<char>> {
    |m: Map<Seq<char>, Seq<char>>, v: u64, a: Action| file_partition_step(m, v, a)
}

/// The partition of each current file of the commits `es`.
pub open spec fn file_partitions(es: Seq<CommitEntry>) -> Map<Seq<char>, Seq<char>> {
    fold_log(Map::<Seq<char>, Seq<char>>::empty(), es, file_partition_step_fn())
}

/// The partitions that received files but hold none of the current files.
pub open spec fn empty_partitions(es: Seq<CommitEntry>) -> Set<Seq<char>> {
    partition_info(es).1.difference(file_partitions(es).values())
}

/// `idx` gives for each file the place in `keys` of its partition key in `m`.
pub open spec fn tracks(idx: Map<Seq<char>, usize>, keys: Seq<String>, m: Map<Seq<char>, Seq<char>>) -> bool {
    &&& idx.dom() == m.dom()
    &&& forall|p: Seq<char>| #[trigger] idx.contains_key(p) ==> idx[p] < keys.len() && keys[idx[p] as int]@ == m[p]
}

/// Column count of the last readable schema, number of changes of the column
/// list between consecutive readable schemas, creation time of the first
/// metadata that has one, and the column list of the last readable schema.
pub type SchemaInfo = (nat, nat, Option<i64>, Seq<Seq<char>>);

/// The schema facts gathered, after one more action.
pub open spec fn schema_info_step(st: SchemaInfo, v: u64, a: Action) -> SchemaInfo {
    match a {
        Action::MetaData(m) => {
            let created = if st.2 is None {
                m.created_time
            } else {
                st.2
            };
            match m.schema {
                Some(sc) => {
                    let cur = field_names(sc.fields@);
                    let changed = st.3.len() > 0 && cur != st.3;
                    (
                        sc.fields@.len(),
                        st.1 + if changed {
                            1nat
                        } else {
                            0nat
                        },
                        created,
                        cur,
                    )
                },
                None => (st.0, st.1, created, st.3),
            }
        },
        _ => st,
    }
}

/// `schema_info_step` as a function value, for folding over a log.
pub open spec fn schema_info_step_fn() -> spec_fn(SchemaInfo, u64, Action) -> SchemaInfo {
    |st: SchemaInfo, v: u64, a: Action| schema_info_step(st, v, a)
}

/// The schema statistics of the commits `es`.
pub open spec fn schema_info(es: Seq<CommitEntry>) -> SchemaInfo {
    fold_log((0nat, 0nat, None::<i64>, Seq::<Seq<char>>::empty()), es, schema_info_step_fn())
}

/// The timestamp of the first commit info among `acts`.
pub open spec fn first_commit_ts(acts: Seq<Action>) -> Option<i64>
    decreases acts.len(),
{
    if acts.len() == 0 {
        None
    } else {
        match acts[0] {
            Action::CommitInfo(ci) => Some(ci.timestamp),
            _ => first_commit_ts(acts.drop_first()),
        }
    }
}

/// The commit-info timestamp of the latest commit that has one.
pub open spec fn last_modified(es: Seq<CommitEntry>) -> Option<i64>
    decreases es.len(),
{
    if es.len() == 0 {
        None
    } else {
        match first_commit_ts(es.last().actions@) {
            Some(t) => Some(t),
            None => last_modified(es.drop_last()),
        }
    }
}

/// The reader and writer versions of the first protocol action among `acts`.
pub open spec fn first_protocol(acts: Seq<Action>) -> Option<(i32, i32)>
    decreases acts.len(),
{
    if acts.len() == 0 {
        None
    } else {
        match acts[0] {
            Action::Protocol(p) => Some((p.min_reader_version, p.min_writer_version)),
            _ => first_protocol(acts.drop_first()),
        }
    }
}

/// The protocol of the latest commit that records one; reader 1, writer 2
/// (the Delta defaults) when none does.
pub open spec fn protocol_versions(es: Seq<CommitEntry>) -> (i32, i32)
    decreases es.len(),
{
    if es.len() == 0 {
        (1, 2)
    } else {
        match first_protocol(es.last().actions@) {
            Some(p) => p,
            None => protocol_versions(es.drop_last()),
        }
    }
}

/// `s` is the inspection result of the commits `es`.
pub open spec fn stats_of(s: TableStats, es: Seq<CommitEntry>) -> bool {
    &&& s.current_version == if es.len() > 0 {
        es.last().version
    } else {
        0
    }
    &&& s.created_timestamp == schema_info(es).2
    &&& s.last_modified_timestamp == last_modified(es)
    &&& (s.min_reader_version, s.min_writer_version) == protocol_versions(es)
    &&& names_view(s.partition_columns@) == partition_info(es).0
    &&& s.partition_count == partition_info(es).1.len()
    &&& s.empty_partition_count == empty_partitions(es).len()
    &&& s.schema_column_count == schema_info(es).0
    &&& s.schema_change_count == wrap_usize(schema_info(es).1 as int)
    &&& lists_sizes(s.health.file_sizes@, active_files(es))
    &&& health_of(s.health, s.health.file_sizes@)
    &&& maintenance_info_of(s.maintenance, es)
}

/// Whether the two field lists have the same names in the same order.
fn same_field_names(a: &Vec<crate::engine::model::schema::StructField>, b: &Vec<crate::engine::model::schema::StructField>) -> (r: bool)
    ensures
        r == (field_names(a@) == field_names(b@)),
{
    if a.len() != b.len() {
        assert(field_names(a@).len() != field_names(b@).len());
        return false;
    }
    let mut i: usize = 0;
    while i < a.len()
        invariant
            i <= a@.len(),
            a@.len() == b@.len(),
            forall|k: int| 0 <= k < i ==> a@[k].name@ == b@[k].name@,
        decreases a@.len() - i,
    {
        if !str_eq(a[i].name.as_str(), b[i].name.as_str()) {
            assert(field_names(a@)[i as int] != field_names(b@)[i as int]);
            return false;
        }
        i += 1;
    }
    assert(field_names(a@) =~= field_names(b@));
    true
}

/// The analysis of a table's health.
pub struct HealthAnalyzer;

impl HealthAnalyzer {
    /// Full table inspection from all commit entries.
    pub fn analyze(entries: &[CommitEntry]) -> (s: TableStats)
        ensures
            stats_of(s, entries@),
    {
        if entries.len() == 0 {
            let s = Self::empty_stats();
            proof {
                lemma_wrap_usize_small(0);
                assert(partition_info(entries@).1 =~= Set::<Seq<char>>::empty());
                assert(empty_partitions(entries@) =~= Set::<Seq<char>>::empty());
                assert(lists_sizes(s.health.file_sizes@, active_files(entries@))) by {
                    let es = Seq::<(Seq<char>, i64)>::empty();
                    assert(active_files(entries@) =~= Map::<Seq<char>, i64>::empty());
                    assert(s.health.file_sizes@ =~= es.map_values(|p: (Seq<char>, i64)| p.1));
                    assert(enumerates(es, active_files(entries@)));
                }
                lemma_wrap_i64_small(0);
                assert(names_view(s.maintenance.z_order_columns@) =~= Seq::<Seq<char>>::empty());
                assert(names_view(s.partition_columns@) =~= Seq::<Seq<char>>::empty());
            }
            return s;
        }
        let health = Self::compute_health(entries);
        let maintenance = Self::compute_maintenance(entries);
        let (partition_columns, partition_count, empty_partition_count) = Self::compute_partition_info(entries);
        let (schema_column_count, schema_change_count, created_ts) = Self::compute_schema_info(entries);
        let current_version = entries[entries.len() - 1].version;
        let last_modified = Self::find_last_modified_ts(entries);
        let (min_reader_version, min_writer_version) = Self::find_protocol_version(entries);
        TableStats {
            current_version,
            created_timestamp: created_ts,
            last_modified_timestamp: last_modified,
            min_reader_version,
            min_writer_version,
            partition_columns,
            partition_count,
            empty_partition_count,
            schema_column_count,
            schema_change_count,
            health,
            maintenance,
        }
    }

    /// File-level health of the current file set.
    fn compute_health(entries: &[CommitEntry]) -> (h: TableHealth)
        ensures
            lists_sizes(h.file_sizes@, active_files(entries@)),
            health_of(h, h.file_sizes@),
    {
        let mut files: StrTable<i64> = StrTable::new();
        let ghost f = file_step_fn();
        let ghost init = Map::<Seq<char>, i64>::empty();
        let mut i: usize = 0;
        while i < entries.len()
            invariant
                i <= entries@.len(),
                f == file_step_fn(),
                init == Map::<Seq<char>, i64>::empty(),
                files.wf(),
                files.view() == fold_log(init, entries@.take(i as int), f),
            decreases entries@.len() - i,
        {
            let acts = &entries[i].actions;
            let ghost v = entries@[i as int].version;
            let ghost base = fold_log(init, entries@.take(i as int), f);
            let mut j: usize = 0;
            while j < acts.len()
                invariant
                    j <= acts@.len(),
                    acts@ == entries@[i as int].actions@,
                    f == file_step_fn(),
                    files.wf(),
                    files.view() == fold_acts(base, v, acts@.take(j as int), f),
                decreases acts@.len() - j,
            {
                match &acts[j] {
                    Action::Add(a) => {
                        files.insert(a.path.clone(), a.size);
                    },
                    Action::Remove(r) => {
                        files.remove(r.path.as_str());
                    },
                    _ => {},
                }
                proof {
                    lemma_fold_acts_step(base, v, acts@, j as int, f);
                }
                j += 1;
            }
            proof {
                lemma_take_all(acts@);
                lemma_fold_log_step(init, entries@, i as int, f);
            }
            i += 1;
        }
        proof {
            lemma_take_all(entries@);
        }
        let es = files.entries();
        let ghost ev = pairs_view(es@);
        let mut sizes: Vec<i64> = Vec::new();
        let mut k: usize = 0;
        while k < es.len()
            invariant
                k <= es@.len(),
                ev == pairs_view(es@),
                sizes@ == ev.take(k as int).map_values(|p: (Seq<char>, i64)| p.1),
            decreases es@.len() - k,
        {
            sizes.push(es[k].1);
            assert(ev.take(k + 1).map_values(|p: (Seq<char>, i64)| p.1) =~= ev.take(k as int).map_values(
                |p: (Seq<char>, i64)| p.1,
            ).push(ev[k as int].1));
            k += 1;
        }
        assert(ev.take(k as int) =~= ev);
        let h = size_metrics(sizes);
        assert(lists_sizes(h.file_sizes@, active_files(entries@)));
        h
    }

    /// Maintenance state extracted from commit metadata.
    fn compute_maintenance(entries: &[CommitEntry]) -> (m: MaintenanceInfo)
        ensures
            maintenance_info_of(m, entries@),
    {
        let mut info = MaintenanceInfo::default();
        let ghost f = maintenance_step_fn();
        let ghost init: Maintenance = (None::<u64>, None::<i64>, None::<u64>, None::<i64>, Seq::<Seq<char>>::empty());
        let mut i: usize = 0;
        while i < entries.len()
            invariant
                i <= entries@.len(),
                f == maintenance_step_fn(),
                init == (None::<u64>, None::<i64>, None::<u64>, None::<i64>, Seq::<Seq<char>>::empty()),
                ({
                    let st = fold_log(init, entries@.take(i as int), f);
                    &&& info.last_vacuum_version == st.0
                    &&& info.last_vacuum_timestamp == st.1
                    &&& info.last_optimize_version == st.2
                    &&& info.last_optimize_timestamp == st.3
                    &&& names_view(info.z_order_columns@) == st.4
                }),
            decreases entries@.len() - i,
        {
            let acts = &entries[i].actions;
            let v = entries[i].version;
            let ghost base = fold_log(init, entries@.take(i as int), f);
            let mut j: usize = 0;
            while j < acts.len()
                invariant
                    j <= acts@.len(),
                    acts@ == entries@[i as int].actions@,
                    v == entries@[i as int].version,
                    f == maintenance_step_fn(),
                    ({
                        let st = fold_acts(base, v, acts@.take(j as int), f);
                        &&& info.last_vacuum_version == st.0
                        &&& info.last_vacuum_timestamp == st.1
                        &&& info.last_optimize_version == st.2
                        &&& info.last_optimize_timestamp == st.3
                        &&& names_view(info.z_order_columns@) == st.4
                    }),
                decreases acts@.len() - j,
            {
                match &acts[j] {
                    Action::CommitInfo(ci) => {
                        let op = to_uppercase(ci.operation.as_str());
                        if str_eq(op.as_str(), "VACUUM START") || str_eq(op.as_str(), "VACUUM END") {
                            info.last_vacuum_version = Some(v);
                            info.last_vacuum_timestamp = Some(ci.timestamp);
                        }
                        if str_eq(op.as_str(), "OPTIMIZE") {
                            info.last_optimize_version = Some(v);
                            info.last_optimize_timestamp = Some(ci.timestamp);
                            match find_param(&ci.operation_parameters, "zOrderBy") {
                                Some(ParamValue::List(items)) => {
                                    info.z_order_columns = list_strings_of(items);
                                },
                                Some(ParamValue::Text(s)) => {
                                    match parse_json_string_list(s.as_str()) {
                                        Some(cols) => {
                                            info.z_order_columns = cols;
                                        },
                                        None => {},
                                    }
                                },
                                _ => {},
                            }
                        }
                    },
                    _ => {},
                }
                proof {
                    lemma_fold_acts_step(base, v, acts@, j as int, f);
                }
                j += 1;
            }
            proof {
                lemma_take_all(acts@);
                lemma_fold_log_step(init, entries@, i as int, f);
            }
            i += 1;
        }
        proof {
            lemma_take_all(entries@);
        }
        let mut k = entries.len();
        while k > 0 && !(entries[k - 1].version % 10 == 0 && entries[k - 1].version > 0)
            invariant
                k <= entries@.len(),
                last_checkpoint(entries@) == last_checkpoint(entries@.take(k as int)),
            decreases k,
        {
            assert(entries@.take(k as int).drop_last() =~= entries@.take(k - 1));
            k -= 1;
        }
        if k > 0 {
            info.last_checkpoint_version = Some(entries[k - 1].version);
        } else {
            info.last_checkpoint_version = None;
        }
        info
    }

    /// Partition columns, number of partitions, and number of partitions left
    /// without files.
    fn compute_partition_info(entries: &[CommitEntry]) -> (r: (Vec<String>, usize, usize))
        ensures
            names_view(r.0@) == partition_info(entries@).0,
            r.1 == partition_info(entries@).1.len(),
            r.2 == empty_partitions(entries@).len(),
    {
        let empty: Vec<String> = Vec::new();
        let mut columns: &Vec<String> = &empty;
        let mut partitions: StrTable<bool> = StrTable::new();
        let mut file_part: StrTable<usize> = StrTable::new();
        let mut file_keys: Vec<String> = Vec::new();
        let ghost f = partition_info_step_fn();
        let ghost g = file_partition_step_fn();
        let ghost init: PartitionInfo = (Seq::<Seq<char>>::empty(), Set::<Seq<char>>::empty());
        let ghost ginit = Map::<Seq<char>, Seq<char>>::empty();
        proof {
            assert(file_part.view() =~= Map::<Seq<char>, usize>::empty());
            assert(fold_log(ginit, entries@.take(0), g) =~= ginit);
        }
        let mut i: usize = 0;
        while i < entries.len()
            invariant
                i <= entries@.len(),
                f == partition_info_step_fn(),
                g == file_partition_step_fn(),
                init == (Seq::<Seq<char>>::empty(), Set::<Seq<char>>::empty()),
                ginit == Map::<Seq<char>, Seq<char>>::empty(),
                partitions.wf(),
                file_part.wf(),
                (names_view(columns@), partitions.view().dom()) == fold_log(init, entries@.take(i as int), f),
                tracks(file_part.view(), file_keys@, fold_log(ginit, entries@.take(i as int), g)),
            decreases entries@.len() - i,
        {
            let acts = &entries[i].actions;
            let ghost v = entries@[i as int].version;
            let ghost base = fold_log(init, entries@.take(i as int), f);
            let ghost gbase = fold_log(ginit, entries@.take(i as int), g);
            let mut j: usize = 0;
            while j < acts.len()
                invariant
                    j <= acts@.len(),
                    acts@ == entries@[i as int].actions@,
                    f == partition_info_step_fn(),
                    g == file_partition_step_fn(),
                    partitions.wf(),
                    file_part.wf(),
                    (names_view(columns@), partitions.view().dom()) == fold_acts(base, v, acts@.take(j as int), f),
                    tracks(file_part.view(), file_keys@, fold_acts(gbase, v, acts@.take(j as int), g)),
                decreases acts@.len() - j,
            {
                let ghost before = partitions.view();
                let ghost fbefore = file_part.view();
                let ghost kbefore = file_keys@;
                let ghost m = fold_acts(gbase, v, acts@.take(j as int), g);
                match &acts[j] {
                    Action::MetaData(m) => {
                        columns = &m.partition_columns;
                    },
                    Action::Add(a) => {
                        if a.partition_values.len() > 0 {
                            let key = render_partition_key(&a.partition_values, "__HIVE_DEFAULT_PARTITION__");
                            let at = file_keys.len();
                            file_keys.push(key.clone());
                            file_part.insert(a.path.clone(), at);
                            partitions.insert(key, true);
                            assert(partitions.view().dom() =~= before.dom().insert(spec_partition_key(a.partition_values@, hive_null())));
                            let ghost m2 = m.insert(a.path@, spec_partition_key(a.partition_values@, hive_null()));
                            assert(file_part.view().dom() =~= m2.dom());
                            assert forall|p: Seq<char>| #[trigger] file_part.view().contains_key(p) implies file_part.view()[p] < file_keys@.len()
                                && file_keys@[file_part.view()[p] as int]@ == m2[p] by {
                                if p != a.path@ {
                                    assert(fbefore.contains_key(p));
                                    assert(file_keys@[fbefore[p] as int] == kbefore[fbefore[p] as int]);
                                }
                            }
                        } else {
                            file_part.remove(a.path.as_str());
                            let ghost m2 = m.remove(a.path@);
                            assert(file_part.view().dom() =~= m2.dom());
                            assert forall|p: Seq<char>| #[trigger] file_part.view().contains_key(p) implies file_part.view()[p] < file_keys@.len()
                                && file_keys@[file_part.view()[p] as int]@ == m2[p] by {
                                assert(fbefore.contains_key(p));
                            }
                        }
                    },
                    Action::Remove(r) => {
                        file_part.remove(r.path.as_str());
                        let ghost m2 = m.remove(r.path@);
                        assert(file_part.view().dom() =~= m2.dom());
                        assert forall|p: Seq<char>| #[trigger] file_part.view().contains_key(p) implies file_part.view()[p] < file_keys@.len()
                            && file_keys@[file_part.view()[p] as int]@ == m2[p] by {
                            assert(fbefore.contains_key(p));
                        }
                    },
                    _ => {},
                }
                proof {
                    lemma_fold_acts_step(base, v, acts@, j as int, f);
                    lemma_fold_acts_step(gbase, v, acts@, j as int, g);
                }
                j += 1;
            }
            proof {
                lemma_take_all(acts@);
                lemma_fold_log_step(init, entries@, i as int, f);
                lemma_fold_log_step(ginit, entries@, i as int, g);
            }
            i += 1;
        }
        proof {
            lemma_take_all(entries@);
        }
        let ghost m = file_partitions(entries@);
        // The partitions that hold a current file.
        let fps = file_part.entries();
        let ghost fpv = pairs_view(fps@);
        let mut occupied: StrTable<bool> = StrTable::new();
        let mut k: usize = 0;
        while k < fps.len()
            invariant
                k <= fps@.len(),
                fpv == pairs_view(fps@),
                enumerates(fpv, file_part.view()),
                tracks(file_part.view(), file_keys@, m),
                occupied.wf(),
                forall|key: Seq<char>| #[trigger] occupied.view().contains_key(key) <==> exists|q: int|
                    0 <= q < k && m[fpv[q].0] == key,
            decreases fps@.len() - k,
        {
            let ghost p = fpv[k as int].0;
            assert(file_part.view().contains_key(p) && file_part.view()[p] == fpv[k as int].1);
            let at = fps[k].1;
            let key = file_keys[at].clone();
            let ghost before = occupied.view();
            occupied.insert(key, true);
            assert forall|key2: Seq<char>| #[trigger] occupied.view().contains_key(key2) <==> exists|q: int|
                0 <= q < k + 1 && m[fpv[q].0] == key2 by {
                if occupied.view().contains_key(key2) && key2 != m[p] {
                    assert(before.contains_key(key2));
                }
                if exists|q: int| 0 <= q < k + 1 && m[fpv[q].0] == key2 {
                    let q = choose|q: int| 0 <= q < k + 1 && m[fpv[q].0] == key2;
                    if q < k {
                        assert(before.contains_key(key2));
                    }
                }
            }
            k += 1;
        }
        assert(occupied.view().dom() =~= m.values()) by {
            assert forall|key: Seq<char>| occupied.view().contains_key(key) implies m.values().contains(key) by {
                let q = choose|q: int| 0 <= q < fps@.len() && m[fpv[q].0] == key;
                assert(file_part.view().contains_key(fpv[q].0));
                assert(m.contains_key(fpv[q].0));
            }
            assert forall|key: Seq<char>| m.values().contains(key) implies occupied.view().contains_key(key) by {
                let p = choose|p: Seq<char>| m.contains_key(p) && m[p] == key;
                assert(file_part.view().contains_key(p));
                let q = choose|q: int| 0 <= q < fpv.len() && fpv[q].0 == p;
                assert(m[fpv[q].0] == key);
            }
        }
        // The partitions that received files but hold none now.
        let keys = partitions.entries();
        let ghost kv = pairs_view(keys@);
        proof {
            lemma_enumerates_len(kv, partitions.view());
        }
        let mut empty_count: usize = 0;
        let ghost mut picked: Seq<Seq<char>> = Seq::empty();
        let mut q: usize = 0;
        while q < keys.len()
            invariant
                q <= keys@.len(),
                kv == pairs_view(keys@),
                enumerates(kv, partitions.view()),
                occupied.wf(),
                empty_count == picked.len(),
                empty_count <= q,
                picked.no_duplicates(),
                forall|key: Seq<char>| #[trigger] picked.contains(key) <==> exists|r: int|
                    0 <= r < q && kv[r].0 == key && !occupied.view().contains_key(key),
            decreases keys@.len() - q,
        {
            if !occupied.contains(keys[q].0.as_str()) {
                let ghost key = kv[q as int].0;
                proof {
                    assert(!picked.contains(key)) by {
                        if picked.contains(key) {
                            let r = choose|r: int| 0 <= r < q && kv[r].0 == key && !occupied.view().contains_key(key);
                        }
                    }
                    let old_picked = picked;
                    picked = picked.push(key);
                    assert forall|i: int, j: int| 0 <= i < j < picked.len() implies picked[i] != picked[j] by {
                        if j == old_picked.len() {
                            assert(old_picked.contains(old_picked[i]));
                        }
                    }
                    assert forall|key2: Seq<char>| #[trigger] picked.contains(key2) <==> exists|r: int|
                        0 <= r < q + 1 && kv[r].0 == key2 && !occupied.view().contains_key(key2) by {
                        if picked.contains(key2) && key2 != key {
                            let i = choose|i: int| 0 <= i < picked.len() && picked[i] == key2;
                            assert(old_picked[i] == key2);
                            assert(old_picked.contains(key2));
                        }
                        if exists|r: int| 0 <= r < q + 1 && kv[r].0 == key2 && !occupied.view().contains_key(key2) {
                            let r = choose|r: int| 0 <= r < q + 1 && kv[r].0 == key2 && !occupied.view().contains_key(key2);
                            if r < q {
                                assert(old_picked.contains(key2));
                                let i = choose|i: int| 0 <= i < old_picked.len() && old_picked[i] == key2;
                                assert(picked[i] == key2);
                            } else {
                                assert(picked[old_picked.len() as int] == key2);
                            }
                        }
                    }
                }
                empty_count += 1;
            } else {
                proof {
                    assert forall|key2: Seq<char>| #[trigger] picked.contains(key2) <==> exists|r: int|
                        0 <= r < q + 1 && kv[r].0 == key2 && !occupied.view().contains_key(key2) by {
                        if exists|r: int| 0 <= r < q + 1 && kv[r].0 == key2 && !occupied.view().contains_key(key2) {
                            let r = choose|r: int| 0 <= r < q + 1 && kv[r].0 == key2 && !occupied.view().contains_key(key2);
                            assert(r < q);
                        }
                    }
                }
            }
            q += 1;
        }
        proof {
            assert(picked.to_set() =~= empty_partitions(entries@)) by {
                assert forall|key: Seq<char>| picked.to_set().contains(key) implies empty_partitions(entries@).contains(key) by {
                    assert(picked.contains(key));
                    let r = choose|r: int| 0 <= r < keys@.len() && kv[r].0 == key && !occupied.view().contains_key(key);
                    assert(partitions.view().contains_key(kv[r].0));
                }
                assert forall|key: Seq<char>| empty_partitions(entries@).contains(key) implies picked.to_set().contains(key) by {
                    assert(partitions.view().contains_key(key));
                    let r = choose|r: int| 0 <= r < kv.len() && kv[r].0 == key;
                    assert(!occupied.view().contains_key(key));
                    assert(picked.contains(key));
                }
            }
            picked.unique_seq_to_set();
        }
        (clone_strings(columns), keys.len(), empty_count)
    }

    /// Column count of the latest schema, number of column-list changes, and
    /// the creation time of the table.
    fn compute_schema_info(entries: &[CommitEntry]) -> (r: (usize, usize, Option<i64>))
        ensures
            r.0 == schema_info(entries@).0,
            r.1 == wrap_usize(schema_info(entries@).1 as int),
            r.2 == schema_info(entries@).2,
    {
        let empty: Vec<crate::engine::model::schema::StructField> = Vec::new();
        let mut prev: &Vec<crate::engine::model::schema::StructField> = &empty;
        let mut count: usize = 0;
        let mut changes: usize = 0;
        let mut created: Option<i64> = None;
        let ghost f = schema_info_step_fn();
        let ghost init: SchemaInfo = (0nat, 0nat, None::<i64>, Seq::<Seq<char>>::empty());
        proof {
            lemma_wrap_usize_small(0);
            assert(field_names(empty@) =~= Seq::<Seq<char>>::empty());
        }
        let mut i: usize = 0;
        while i < entries.len()
            invariant
                i <= entries@.len(),
                f == schema_info_step_fn(),
                init == (0nat, 0nat, None::<i64>, Seq::<Seq<char>>::empty()),
                ({
                    let st = fold_log(init, entries@.take(i as int), f);
                    &&& count == st.0
                    &&& changes == wrap_usize(st.1 as int)
                    &&& created == st.2
                    &&& field_names(prev@) == st.3
                }),
            decreases entries@.len() - i,
        {
            let acts = &entries[i].actions;
            let ghost v = entries@[i as int].version;
            let ghost base = fold_log(init, entries@.take(i as int), f);
            let mut j: usize = 0;
            while j < acts.len()
                invariant
                    j <= acts@.len(),
                    acts@ == entries@[i as int].actions@,
                    f == schema_info_step_fn(),
                    ({
                        let st = fold_acts(base, v, acts@.take(j as int), f);
                        &&& count == st.0
                        &&& changes == wrap_usize(st.1 as int)
                        &&& created == st.2
                        &&& field_names(prev@) == st.3
                    }),
                decreases acts@.len() - j,
            {
                let ghost st = fold_acts(base, v, acts@.take(j as int), f);
                match &acts[j] {
                    Action::MetaData(m) => {
                        if created.is_none() {
                            created = m.created_time;
                        }
                        match &m.schema {
                            Some(schema) => {
                                if prev.len() > 0 && !same_field_names(&schema.fields, prev) {
                                    proof {
                                        lemma_wrap_usize_inc(st.1 as int);
                                    }
                                    changes = changes.wrapping_add(1);
                                }
                                prev = &schema.fields;
                                count = schema.fields.len();
                            },
                            None => {},
                        }
                    },
                    _ => {},
                }
                proof {
                    lemma_fold_acts_step(base, v, acts@, j as int, f);
                }
                j += 1;
            }
            proof {
                lemma_take_all(acts@);
                lemma_fold_log_step(init, entries@, i as int, f);
            }
            i += 1;
        }
        proof {
            lemma_take_all(entries@);
        }
        (count, changes, created)
    }

    /// The timestamp of the first commit info in `acts`.
    fn first_commit_timestamp(acts: &Vec<Action>) -> (r: Option<i64>)
        ensures
            r == first_commit_ts(acts@),
    {
        let mut j: usize = 0;
        assert(acts@.skip(0) =~= acts@);
        while j < acts.len()
            invariant
                j <= acts@.len(),
                first_commit_ts(acts@) == first_commit_ts(acts@.skip(j as int)),
            decreases acts@.len() - j,
        {
            assert(acts@.skip(j as int)[0] == acts@[j as int]);
            match &acts[j] {
                Action::CommitInfo(ci) => {
                    return Some(ci.timestamp);
                },
                _ => {},
            }
            assert(acts@.skip(j as int).drop_first() =~= acts@.skip(j + 1));
            j += 1;
        }
        None
    }

    /// The timestamp of the latest commit that has a commit info.
    fn find_last_modified_ts(entries: &[CommitEntry]) -> (r: Option<i64>)
        ensures
            r == last_modified(entries@),
    {
        let mut k = entries.len();
        proof {
            lemma_take_all(entries@);
        }
        while k > 0
            invariant
                k <= entries@.len(),
                last_modified(entries@) == last_modified(entries@.take(k as int)),
            decreases k,
        {
            let t = Self::first_commit_timestamp(&entries[k - 1].actions);
            assert(entries@.take(k as int).last() == entries@[k - 1]);
            assert(entries@.take(k as int).drop_last() =~= entries@.take(k - 1));
            if t.is_some() {
                return t;
            }
            k -= 1;
        }
        None
    }

    /// The protocol versions of the first protocol action in `acts`.
    fn first_protocol_of(acts: &Vec<Action>) -> (r: Option<(i32, i32)>)
        ensures
            r == first_protocol(acts@),
    {
        let mut j: usize = 0;
        assert(acts@.skip(0) =~= acts@);
        while j < acts.len()
            invariant
                j <= acts@.len(),
                first_protocol(acts@) == first_protocol(acts@.skip(j as int)),
            decreases acts@.len() - j,
        {
            assert(acts@.skip(j as int)[0] == acts@[j as int]);
            match &acts[j] {
                Action::Protocol(p) => {
                    return Some((p.min_reader_version, p.min_writer_version));
                },
                _ => {},
            }
            assert(acts@.skip(j as int).drop_first() =~= acts@.skip(j + 1));
            j += 1;
        }
        None
    }

    /// Reader and writer protocol versions of the latest protocol action.
    fn find_protocol_version(entries: &[CommitEntry]) -> (r: (i32, i32))
        ensures
            r == protocol_versions(entries@),
    {
        let mut k = entries.len();
        proof {
            lemma_take_all(entries@);
        }
        while k > 0
            invariant
                k <= entries@.len(),
                protocol_versions(entries@) == protocol_versions(entries@.take(k as int)),
            decreases k,
        {
            let p = Self::first_protocol_of(&entries[k - 1].actions);
            assert(entries@.take(k as int).last() == entries@[k - 1]);
            assert(entries@.take(k as int).drop_last() =~= entries@.take(k - 1));
            match p {
                Some(v) => {
                    return v;
                },
                None => {},
            }
            k -= 1;
        }
        (1, 2)
    }

    /// The statistics of a table without commits.
    fn empty_stats() -> (s: TableStats)
        ensures
            s.current_version == 0,
            s.created_timestamp is None,
            s.last_modified_timestamp is None,
            s.min_reader_version == 1,
            s.min_writer_version == 2,
            s.partition_columns@.len() == 0,
            s.partition_count == 0,
            s.empty_partition_count == 0,
            s.schema_column_count == 0,
            s.schema_change_count == 0,
            s.health.file_sizes@.len() == 0,
            health_of(s.health, s.health.file_sizes@),
            s.maintenance.last_vacuum_version is None,
            s.maintenance.last_vacuum_timestamp is None,
            s.maintenance.last_optimize_version is None,
            s.maintenance.last_optimize_timestamp is None,
            s.maintenance.last_checkpoint_version is None,
            s.maintenance.z_order_columns@.len() == 0,
    {
        let h = size_metrics(Vec::new());
        TableStats {
            current_version: 0,
            created_timestamp: None,
            last_modified_timestamp: None,
            min_reader_version: 1,
            min_writer_version: 2,
            partition_columns: Vec::new(),
            partition_count: 0,
            empty_partition_count: 0,
            schema_column_count: 0,
            schema_change_count: 0,
            health: h,
            maintenance: MaintenanceInfo::default(),
        }
    }
}

/// A version at which a checkpoint is written: a positive multiple of ten.
pub open spec fn is_checkpoint_version(v: u64) -> bool {
    v > 0 && v % 10 == 0
}

proof fn lemma_last_checkpoint_latest(es: Seq<CommitEntry>)
    ensures
        last_checkpoint(es) matches Some(v) ==> exists|i: int|
            0 <= i < es.len() && es[i].version == v && is_checkpoint_version(v) && forall|j: int|
                i < j < es.len() ==> !is_checkpoint_version(#[trigger] es[j].version),
        last_checkpoint(es) is None <==> forall|i: int| 0 <= i < es.len() ==> !is_checkpoint_version(#[trigger] es[i].version),
    decreases es.len(),
{
    if es.len() > 0 {
        let t = es.drop_last();
        lemma_last_checkpoint_latest(t);
        let n = es.len() - 1;
        if is_checkpoint_version(es.last().version) {
            assert(es[n].version == es.last().version);
        } else {
            if let Some(v) = last_checkpoint(t) {
                let i = choose|i: int|
                    0 <= i < t.len() && t[i].version == v && is_checkpoint_version(v) && forall|j: int|
                        i < j < t.len() ==> !is_checkpoint_version(#[trigger] t[j].version);
                assert(es[i] == t[i]);
                assert forall|j: int| i < j < es.len() implies !is_checkpoint_version(#[trigger] es[j].version) by {
                    if j < n {
                        assert(es[j] == t[j]);
                    }
                }
            } else {
                assert forall|i: int| 0 <= i < es.len() implies !is_checkpoint_version(#[trigger] es[i].version) by {
                    if i < n {
                        assert(es[i] == t[i]);
                    }
                }
            }
            if last_checkpoint(es) is None {
                assert forall|i: int| 0 <= i < t.len() implies !is_checkpoint_version(#[trigger] t[i].version) by {
                    assert(es[i] == t[i]);
                }
            }
        }
    }
}

/// The checkpoint version of the maintenance information is that of the
/// latest commit whose version is a positive multiple of ten: such a commit
/// holds it and no later commit has such a version. It is absent exactly
/// when no commit has such a version.
pub proof fn lemma_checkpoint_is_latest(m: MaintenanceInfo, es: Seq<CommitEntry>)
    requires
        maintenance_info_of(m, es),
    ensures
        m.last_checkpoint_version matches Some(v) ==> exists|i: int|
            0 <= i < es.len() && es[i].version == v && is_checkpoint_version(v) && forall|j: int|
                i < j < es.len() ==> !is_checkpoint_version(#[trigger] es[j].version),
        m.last_checkpoint_version is None <==> forall|i: int|
            0 <= i < es.len() ==> !is_checkpoint_version(#[trigger] es[i].version),
{
    lemma_last_checkpoint_latest(es);
}

} // verus!
