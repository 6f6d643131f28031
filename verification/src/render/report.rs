//! The text of the terminal reports: the rows of the health report and of
//! the version-diff report, the cells of the schema report, and the parts of
//! the lineage, audit and schema-history lines.
use crate::engine::analyzer::diff::VersionDiff;
use crate::engine::analyzer::partition::{insert_by_name, lemma_insert_at, lex_less, lex_lt, sort_by_name};
use crate::engine::json::{parse_json_string, spec_json_string};
use crate::engine::model::schema::{SchemaChange, StructField};
use crate::engine::model::stats::TableStats;
use crate::engine::model::lineage::LineageEntry;
use crate::engine::time::{in_chrono_range, spec_utc_minutes, spec_utc_seconds, utc_minutes_text, utc_seconds_text};
use crate::render::table::{maintenance_issue_count, maintenance_issues};
use crate::text::{
    chars_of, concat, decimal, i64_text, join_strings, joined, signed_decimal, spec_to_uppercase,
    str_eq, string_from_chars, to_uppercase, u64_text,
};
use vstd::prelude::*;

verus! {

/// How a row of a report is shown.
#[derive(Clone, Copy, Debug, PartialEq, Eq, Structural)]
pub enum Tone {
    /// A section heading.
    Heading,
    /// Something added.
    Added,
    /// Something removed.
    Removed,
    /// Something changed.
    Modified,
    /// An ordinary row.
    Plain,
}

/// A row of a report: how it is shown, its label and its value.
#[derive(Debug)]
pub struct ReportRow {
    pub tone: Tone,
    pub label: String,
    pub value: String,
}

/// A row as its tone, label text and value text.
pub open spec fn row_view(r: ReportRow) -> (Tone, Seq<char>, Seq<char>) {
    (r.tone, r.label@, r.value@)
}

/// The rows of a report, each by its view.
pub open spec fn rows_view(rs: Seq<ReportRow>) -> Seq<(Tone, Seq<char>, Seq<char>)> {
    rs.map_values(|r: ReportRow| row_view(r))
}

/// What `bytesize::ByteSize::b(n).to_string()` gives for `n`.
pub uninterp spec fn spec_byte_size(n: u64) -> Seq<char>;

/// `bytesize::ByteSize::b(n).to_string()`. The contract claims that the result
/// is the named text of `n`, and that below 1000 bytes it is the decimal
/// number followed by ` B`. Larger sizes are written with one decimal and a
/// unit (KB, MB, ... in powers of 1000), computed in floating point; the
/// contract does not state that text.
#[verifier::external_body]
fn byte_size_text(n: u64) -> (s: String)
    ensures
        s@ == spec_byte_size(n),
        n < 1000 ==> s@ == decimal(n as nat) + " B"@,
{
    bytesize::ByteSize::b(n).to_string()
}

/// A section heading.
pub open spec fn heading(label: Seq<char>) -> (Tone, Seq<char>, Seq<char>) {
    (Tone::Heading, label, Seq::empty())
}

/// An ordinary row.
pub open spec fn plain_row(label: Seq<char>, value: Seq<char>) -> (Tone, Seq<char>, Seq<char>) {
    (Tone::Plain, label, value)
}

/// How a retyped column is described: `name (old → new)`.
pub open spec fn retyped(m: (String, String, String)) -> Seq<char> {
    m.0@ + " ("@ + m.1@ + " → "@ + m.2@ + ")"@
}

/// The rows of one schema change: its added, removed and retyped columns.
pub open spec fn change_rows(c: SchemaChange) -> Seq<(Tone, Seq<char>, Seq<char>)> {
    c.added_columns@.map_values(|col: String| (Tone::Added, "+ added"@, col@))
        + c.removed_columns@.map_values(|col: String| (Tone::Removed, "- removed"@, col@))
        + c.modified_columns@.map_values(
        |m: (String, String, String)| (Tone::Modified, "~ modified"@, retyped(m)),
    )
}

/// The rows of the schema changes, one change after the other.
pub open spec fn changes_rows(cs: Seq<SchemaChange>) -> Seq<(Tone, Seq<char>, Seq<char>)>
    decreases cs.len(),
{
    if cs.len() == 0 {
        seq![]
    } else {
        changes_rows(cs.drop_last()) + change_rows(cs.last())
    }
}

/// The schema section of a diff report.
pub open spec fn schema_section(d: VersionDiff) -> Seq<(Tone, Seq<char>, Seq<char>)> {
    seq![heading("SCHEMA CHANGES"@)] + if d.schema_changes@.len() == 0 {
        seq![plain_row("No schema changes detected"@, Seq::empty())]
    } else {
        changes_rows(d.schema_changes@)
    }
}

/// A number with its sign always written (`{:+}`).
pub open spec fn explicit_sign(v: i64) -> Seq<char> {
    if v >= 0 {
        "+"@ + decimal(v as nat)
    } else {
        signed_decimal(v as int)
    }
}

/// The magnitude of `v` as `(-v) as u64` computes it in wrapping arithmetic.
pub open spec fn magnitude(v: i64) -> u64 {
    if v == i64::MIN {
        0x8000_0000_0000_0000u64
    } else {
        (-v) as u64
    }
}

/// A size change: `+` and the size, or `-` and the size of its magnitude.
pub open spec fn signed_size(v: i64) -> Seq<char> {
    if v >= 0 {
        "+"@ + spec_byte_size(v as u64)
    } else {
        "-"@ + spec_byte_size(magnitude(v))
    }
}

/// The data section of a diff report: file counts and sizes, and their net
/// changes (in wrapping arithmetic).
pub open spec fn data_rows(d: VersionDiff) -> Seq<(Tone, Seq<char>, Seq<char>)> {
    seq![
        heading("DATA CHANGES"@),
        plain_row("Files Added"@, "+"@ + signed_decimal(d.files_added as int)),
        plain_row("Files Removed"@, "-"@ + signed_decimal(d.files_removed as int)),
        plain_row(
            "Net File Delta"@,
            explicit_sign(vstd::wrapping::i64_specs::wrapping_sub(d.files_added, d.files_removed)),
        ),
        plain_row("Size Added"@, spec_byte_size(d.bytes_added as u64)),
        plain_row("Size Removed"@, spec_byte_size(d.bytes_removed as u64)),
        plain_row(
            "Net Size Delta"@,
            signed_size(vstd::wrapping::i64_specs::wrapping_sub(d.bytes_added, d.bytes_removed)),
        ),
    ]
}

/// The operations of a diff, each as its name and count.
pub open spec fn op_pairs(ops: Seq<(String, usize)>) -> Seq<(Seq<char>, usize)> {
    ops.map_values(|p: (String, usize)| (p.0@, p.1))
}

/// The operations section of a diff report: the operations in ascending
/// order of name, each with its number of commits.
pub open spec fn ops_section(d: VersionDiff) -> Seq<(Tone, Seq<char>, Seq<char>)> {
    seq![heading("OPERATIONS ("@ + decimal(d.total_commits as nat) + " commits)"@)]
        + if d.operations@.len() == 0 {
        seq![plain_row("No operations recorded"@, Seq::empty())]
    } else {
        sort_by_name(op_pairs(d.operations@)).map_values(
            |p: (Seq<char>, usize)| plain_row(p.0, decimal(p.1 as nat)),
        )
    }
}

/// A list of partitions: `0`, or their number and the partitions.
pub open spec fn partition_list(ps: Seq<String>) -> Seq<char> {
    if ps.len() == 0 {
        "0"@
    } else {
        decimal(ps.len()) + " ("@ + joined(ps.map_values(|p: String| p@), ", "@) + ")"@
    }
}

/// The partition section of a diff report.
pub open spec fn partition_section(d: VersionDiff) -> Seq<(Tone, Seq<char>, Seq<char>)> {
    seq![
        heading("PARTITION CHANGES"@),
        plain_row("New Partitions"@, partition_list(d.new_partitions@)),
        plain_row("Removed Partitions"@, partition_list(d.removed_partitions@)),
    ]
}

/// The rows of a diff report: the schema section unless only file changes
/// are asked for, and the data, operations and partition sections unless
/// only schema changes are asked for.
pub open spec fn spec_diff_rows(d: VersionDiff, schema_only: bool, files_only: bool) -> Seq<(Tone, Seq<char>, Seq<char>)> {
    (if !files_only {
        schema_section(d)
    } else {
        seq![]
    }) + (if !schema_only {
        data_rows(d) + ops_section(d) + partition_section(d)
    } else {
        seq![]
    })
}

fn push_row(rows: &mut Vec<ReportRow>, tone: Tone, label: &str, value: String)
    ensures
        rows_view(final(rows)@) == rows_view(old(rows)@).push((tone, label@, value@)),
{
    let ghost before = rows_view(rows@);
    let ghost v = value@;
    rows.push(ReportRow { tone, label: label.to_owned(), value });
    assert(rows_view(rows@) =~= before.push((tone, label@, v)));
}

fn push_change_rows(rows: &mut Vec<ReportRow>, c: &SchemaChange)
    ensures
        rows_view(final(rows)@) == rows_view(old(rows)@) + change_rows(*c),
{
    let ghost start = rows_view(rows@);
    let ghost a = c.added_columns@.map_values(|col: String| (Tone::Added, "+ added"@, col@));
    let ghost r = c.removed_columns@.map_values(|col: String| (Tone::Removed, "- removed"@, col@));
    let ghost m = c.modified_columns@.map_values(
        |x: (String, String, String)| (Tone::Modified, "~ modified"@, retyped(x)),
    );
    let mut i: usize = 0;
    while i < c.added_columns.len()
        invariant
            i <= c.added_columns@.len(),
            a == c.added_columns@.map_values(|col: String| (Tone::Added, "+ added"@, col@)),
            rows_view(rows@) == start + a.take(i as int),
        decreases c.added_columns@.len() - i,
    {
        push_row(rows, Tone::Added, "+ added", c.added_columns[i].clone());
        assert(a.take(i + 1) =~= a.take(i as int).push(a[i as int]));
        i += 1;
    }
    assert(a.take(i as int) =~= a);
    let mut j: usize = 0;
    while j < c.removed_columns.len()
        invariant
            j <= c.removed_columns@.len(),
            r == c.removed_columns@.map_values(|col: String| (Tone::Removed, "- removed"@, col@)),
            rows_view(rows@) == start + a + r.take(j as int),
        decreases c.removed_columns@.len() - j,
    {
        push_row(rows, Tone::Removed, "- removed", c.removed_columns[j].clone());
        assert(r.take(j + 1) =~= r.take(j as int).push(r[j as int]));
        assert(start + a + r.take(j + 1) =~= (start + a + r.take(j as int)).push(r[j as int]));
        j += 1;
    }
    assert(r.take(j as int) =~= r);
    let mut k: usize = 0;
    while k < c.modified_columns.len()
        invariant
            k <= c.modified_columns@.len(),
            m == c.modified_columns@.map_values(
                |x: (String, String, String)| (Tone::Modified, "~ modified"@, retyped(x)),
            ),
            rows_view(rows@) == start + a + r + m.take(k as int),
        decreases c.modified_columns@.len() - k,
    {
        let x = &c.modified_columns[k];
        let t1 = concat(x.0.as_str(), " (");
        let t2 = concat(t1.as_str(), x.1.as_str());
        let t3 = concat(t2.as_str(), " → ");
        let t4 = concat(t3.as_str(), x.2.as_str());
        let text = concat(t4.as_str(), ")");
        assert(text@ == retyped(c.modified_columns@[k as int]));
        push_row(rows, Tone::Modified, "~ modified", text);
        assert(m.take(k + 1) =~= m.take(k as int).push(m[k as int]));
        assert(start + a + r + m.take(k + 1) =~= (start + a + r + m.take(k as int)).push(m[k as int]));
        k += 1;
    }
    assert(m.take(k as int) =~= m);
    assert(start + a + r + m =~= start + change_rows(*c));
}

fn push_schema_section(rows: &mut Vec<ReportRow>, d: &VersionDiff)
    ensures
        rows_view(final(rows)@) == rows_view(old(rows)@) + schema_section(*d),
{
    let ghost start = rows_view(rows@);
    push_row(rows, Tone::Heading, "SCHEMA CHANGES", String::new());
    if d.schema_changes.len() == 0 {
        push_row(rows, Tone::Plain, "No schema changes detected", String::new());
        assert(rows_view(rows@) =~= start + schema_section(*d));
    } else {
        let ghost head = rows_view(rows@);
        let mut i: usize = 0;
        while i < d.schema_changes.len()
            invariant
                i <= d.schema_changes@.len(),
                rows_view(rows@) == head + changes_rows(d.schema_changes@.take(i as int)),
            decreases d.schema_changes@.len() - i,
        {
            let ghost before = rows_view(rows@);
            push_change_rows(rows, &d.schema_changes[i]);
            proof {
                let t = d.schema_changes@.take(i + 1);
                assert(t.drop_last() =~= d.schema_changes@.take(i as int));
                assert(t.last() == d.schema_changes@[i as int]);
                assert(rows_view(rows@) =~= head + changes_rows(t));
            }
            i += 1;
        }
        assert(d.schema_changes@.take(i as int) =~= d.schema_changes@);
        assert(rows_view(rows@) =~= start + schema_section(*d));
    }
}

/// A number with its sign always written.
fn explicit_sign_text(v: i64) -> (s: String)
    ensures
        s@ == explicit_sign(v),
{
    if v >= 0 {
        concat("+", u64_text(v as u64).as_str())
    } else {
        i64_text(v)
    }
}

/// A size change with its sign.
fn signed_size_text(v: i64) -> (s: String)
    ensures
        s@ == signed_size(v),
{
    if v >= 0 {
        concat("+", byte_size_text(v as u64).as_str())
    } else {
        let m: u64 = if v == i64::MIN {
            0x8000_0000_0000_0000u64
        } else {
            (-v) as u64
        };
        concat("-", byte_size_text(m).as_str())
    }
}

fn push_data_rows(rows: &mut Vec<ReportRow>, d: &VersionDiff)
    ensures
        rows_view(final(rows)@) == rows_view(old(rows)@) + data_rows(*d),
{
    let ghost start = rows_view(rows@);
    push_row(rows, Tone::Heading, "DATA CHANGES", String::new());
    push_row(rows, Tone::Plain, "Files Added", concat("+", i64_text(d.files_added).as_str()));
    push_row(rows, Tone::Plain, "Files Removed", concat("-", i64_text(d.files_removed).as_str()));
    push_row(rows, Tone::Plain, "Net File Delta", explicit_sign_text(d.files_added.wrapping_sub(d.files_removed)));
    push_row(rows, Tone::Plain, "Size Added", byte_size_text(d.bytes_added as u64));
    push_row(rows, Tone::Plain, "Size Removed", byte_size_text(d.bytes_removed as u64));
    push_row(rows, Tone::Plain, "Net Size Delta", signed_size_text(d.bytes_added.wrapping_sub(d.bytes_removed)));
    assert(rows_view(rows@) =~= start + data_rows(*d));
}

/// The operations sorted by name.
fn sorted_ops(ops: &Vec<(String, usize)>) -> (out: Vec<(Vec<char>, usize)>)
    ensures
        out@.map_values(|p: (Vec<char>, usize)| (p.0@, p.1)) == sort_by_name(op_pairs(ops@)),
{
    let ghost pv = op_pairs(ops@);
    let mut sorted: Vec<(Vec<char>, usize)> = Vec::new();
    let mut i: usize = 0;
    while i < ops.len()
        invariant
            i <= ops@.len(),
            pv == op_pairs(ops@),
            sorted@.map_values(|p: (Vec<char>, usize)| (p.0@, p.1)) == sort_by_name(pv.take(i as int)),
        decreases ops@.len() - i,
    {
        let x = (chars_of(ops[i].0.as_str()), ops[i].1);
        let ghost xv = (x.0@, x.1);
        let ghost sv = sorted@.map_values(|p: (Vec<char>, usize)| (p.0@, p.1));
        let mut p = sorted.len();
        while p > 0 && lex_less(&x.0, &sorted[p - 1].0)
            invariant
                p <= sorted@.len(),
                sv == sorted@.map_values(|q: (Vec<char>, usize)| (q.0@, q.1)),
                xv == (x.0@, x.1),
                forall|k: int| p <= k < sv.len() ==> lex_lt(x.0@, #[trigger] sv[k].0),
            decreases p,
        {
            p -= 1;
        }
        proof {
            lemma_insert_at(sv, xv, p as int);
            assert(pv.take(i + 1).drop_last() =~= pv.take(i as int));
            assert(pv[i as int] == xv);
        }
        sorted.insert(p, x);
        assert(sorted@.map_values(|q: (Vec<char>, usize)| (q.0@, q.1)) =~= sv.take(p as int) + seq![xv]
            + sv.skip(p as int));
        i += 1;
    }
    assert(pv.take(i as int) =~= pv);
    sorted
}

fn push_ops_section(rows: &mut Vec<ReportRow>, d: &VersionDiff)
    ensures
        rows_view(final(rows)@) == rows_view(old(rows)@) + ops_section(*d),
{
    let ghost start = rows_view(rows@);
    let t1 = concat("OPERATIONS (", u64_text(d.total_commits as u64).as_str());
    let title = concat(t1.as_str(), " commits)");
    push_row(rows, Tone::Heading, title.as_str(), String::new());
    if d.operations.len() == 0 {
        push_row(rows, Tone::Plain, "No operations recorded", String::new());
        assert(rows_view(rows@) =~= start + ops_section(*d));
    } else {
        let sorted = sorted_ops(&d.operations);
        let ghost sv = sorted@.map_values(|p: (Vec<char>, usize)| (p.0@, p.1));
        let ghost want = sv.map_values(|p: (Seq<char>, usize)| plain_row(p.0, decimal(p.1 as nat)));
        let ghost head = rows_view(rows@);
        let mut i: usize = 0;
        while i < sorted.len()
            invariant
                i <= sorted@.len(),
                sv == sorted@.map_values(|p: (Vec<char>, usize)| (p.0@, p.1)),
                want == sv.map_values(|p: (Seq<char>, usize)| plain_row(p.0, decimal(p.1 as nat))),
                rows_view(rows@) == head + want.take(i as int),
            decreases sorted@.len() - i,
        {
            let name = string_from_chars(&sorted[i].0);
            push_row(rows, Tone::Plain, name.as_str(), u64_text(sorted[i].1 as u64));
            assert(want.take(i + 1) =~= want.take(i as int).push(want[i as int]));
            i += 1;
        }
        assert(want.take(i as int) =~= want);
        assert(rows_view(rows@) =~= start + ops_section(*d));
    }
}

fn partition_list_text(ps: &Vec<String>) -> (s: String)
    ensures
        s@ == partition_list(ps@),
{
    if ps.len() == 0 {
        "0".to_owned()
    } else {
        let t1 = concat(u64_text(ps.len() as u64).as_str(), " (");
        let t2 = concat(t1.as_str(), join_strings(ps, ", ").as_str());
        concat(t2.as_str(), ")")
    }
}

fn push_partition_section(rows: &mut Vec<ReportRow>, d: &VersionDiff)
    ensures
        rows_view(final(rows)@) == rows_view(old(rows)@) + partition_section(*d),
{
    let ghost start = rows_view(rows@);
    push_row(rows, Tone::Heading, "PARTITION CHANGES", String::new());
    push_row(rows, Tone::Plain, "New Partitions", partition_list_text(&d.new_partitions));
    push_row(rows, Tone::Plain, "Removed Partitions", partition_list_text(&d.removed_partitions));
    assert(rows_view(rows@) =~= start + partition_section(*d));
}

/// The rows of the report of a version diff; `schema_only` leaves out the
/// data, operations and partition sections, `files_only` the schema section.
pub fn diff_rows(d: &VersionDiff, schema_only: bool, files_only: bool) -> (rows: Vec<ReportRow>)
    ensures
        rows_view(rows@) == spec_diff_rows(*d, schema_only, files_only),
{
    let mut rows: Vec<ReportRow> = Vec::new();
    assert(rows_view(rows@) =~= Seq::<(Tone, Seq<char>, Seq<char>)>::empty());
    if !files_only {
        push_schema_section(&mut rows, d);
    }
    let ghost after_schema = rows_view(rows@);
    if !schema_only {
        push_data_rows(&mut rows, d);
        push_ops_section(&mut rows, d);
        push_partition_section(&mut rows, d);
    }
    assert(rows_view(rows@) =~= spec_diff_rows(*d, schema_only, files_only));
    rows
}

/// How a column's type is shown: a primitive type name upper-cased, any
/// other type as its JSON text.
pub open spec fn type_cell(t: Seq<char>) -> Seq<char> {
    match spec_json_string(t) {
        Some(name) => spec_to_uppercase(name),
        None => t,
    }
}

/// How a column's metadata is shown: `-` when it is null or an empty
/// object, otherwise its JSON text.
pub open spec fn metadata_cell(m: Seq<char>) -> Seq<char> {
    if m == "null"@ || m == "{}"@ {
        "-"@
    } else {
        m
    }
}

/// The cells of a schema column: name, type, nullability and metadata.
pub open spec fn spec_field_cells(f: StructField) -> (Seq<char>, Seq<char>, Seq<char>, Seq<char>) {
    (
        f.name@,
        type_cell(f.data_type@),
        if f.nullable {
            "true"@
        } else {
            "false"@
        },
        metadata_cell(f.metadata@),
    )
}

/// The cells of a schema column as the schema report shows them: name, type,
/// nullability and metadata.
pub fn field_cells(f: &StructField) -> (c: (String, String, String, String))
    ensures
        (c.0@, c.1@, c.2@, c.3@) == spec_field_cells(*f),
{
    let ty = match parse_json_string(f.data_type.as_str()) {
        Some(name) => to_uppercase(name.as_str()),
        None => f.data_type.clone(),
    };
    let nullable = if f.nullable {
        "true".to_owned()
    } else {
        "false".to_owned()
    };
    let meta = if str_eq(f.metadata.as_str(), "null") || str_eq(f.metadata.as_str(), "{}") {
        "-".to_owned()
    } else {
        f.metadata.clone()
    };
    (f.name.clone(), ty, nullable, meta)
}

/// A time of the health report, if there is one, as a row.
pub open spec fn time_row(label: Seq<char>, t: Option<i64>) -> Seq<(Tone, Seq<char>, Seq<char>)> {
    match t {
        Some(ms) => seq![plain_row(label, spec_utc_seconds(ms))],
        None => seq![],
    }
}

/// The opening rows of the health report: version, creation and last
/// modification times, and protocol versions.
pub open spec fn overview_rows(s: TableStats) -> Seq<(Tone, Seq<char>, Seq<char>)> {
    seq![plain_row("Current Version"@, decimal(s.current_version as nat))] + time_row(
        "Created"@,
        s.created_timestamp,
    ) + time_row("Last Modified"@, s.last_modified_timestamp) + seq![
        plain_row(
            "Protocol"@,
            "reader="@ + signed_decimal(s.min_reader_version as int) + ", writer="@ + signed_decimal(
                s.min_writer_version as int,
            ),
        ),
    ]
}

/// The rows of the health report on the count and size of the data files.
pub open spec fn file_rows(s: TableStats) -> Seq<(Tone, Seq<char>, Seq<char>)> {
    seq![
        heading("DATA FILES"@),
        plain_row("Total Files"@, decimal(s.health.total_files as nat)),
        plain_row("Total Size"@, spec_byte_size(s.health.total_size as u64)),
        plain_row("Avg File Size"@, spec_byte_size(s.health.avg_file_size as u64)),
    ]
}

/// When a maintenance operation last ran: `v<version> (<timestamp> ts)`, or
/// `Never`.
pub open spec fn last_run(v: Option<u64>, ts: Option<i64>) -> Seq<char> {
    match v {
        Some(n) => "v"@ + decimal(n as nat) + " ("@ + signed_decimal(
            match ts {
                Some(t) => t as int,
                None => 0,
            },
        ) + " ts)"@,
        None => "Never"@,
    }
}

/// The names, joined with `, `.
pub open spec fn name_list(names: Seq<String>) -> Seq<char> {
    joined(names.map_values(|c: String| c@), ", "@)
}

/// The closing rows of the health report: partitions, maintenance and schema.
pub open spec fn detail_rows(s: TableStats) -> Seq<(Tone, Seq<char>, Seq<char>)> {
    seq![
        heading("PARTITIONS"@),
        plain_row("Partition Columns"@, name_list(s.partition_columns@)),
        plain_row("Partition Count"@, decimal(s.partition_count as nat)),
        plain_row("Empty Partitions"@, decimal(s.empty_partition_count as nat)),
        heading("MAINTENANCE"@),
        plain_row(
            "Last VACUUM"@,
            last_run(s.maintenance.last_vacuum_version, s.maintenance.last_vacuum_timestamp),
        ),
        plain_row(
            "Last OPTIMIZE"@,
            last_run(s.maintenance.last_optimize_version, s.maintenance.last_optimize_timestamp),
        ),
        plain_row(
            "Last CHECKPOINT"@,
            match s.maintenance.last_checkpoint_version {
                Some(v) => "v"@ + decimal(v as nat),
                None => "None found"@,
            },
        ),
        plain_row("Z-Order Columns"@, name_list(s.maintenance.z_order_columns@)),
        heading("SCHEMA"@),
        plain_row("Column Count"@, decimal(s.schema_column_count as nat)),
        plain_row("Schema Changes"@, decimal(s.schema_change_count as nat) + " (since inception)"@),
    ]
}

/// The text of a health report, apart from the small-file share and the
/// skew score, which are computed in floating point.
#[derive(Debug)]
pub struct InspectReport {
    /// Version, times and protocol.
    pub overview: Vec<ReportRow>,
    /// The data-file heading, count, total and average size.
    pub files: Vec<ReportRow>,
    /// The smallest file size.
    pub min_size: String,
    /// The largest file size.
    pub max_size: String,
    /// Partitions, maintenance and schema.
    pub details: Vec<ReportRow>,
    /// The number of maintenance issues.
    pub maintenance_issues: usize,
}

/// The report's times can be written as dates.
pub open spec fn report_times_in_range(s: TableStats) -> bool {
    &&& (s.created_timestamp matches Some(t) ==> in_chrono_range(t))
    &&& (s.last_modified_timestamp matches Some(t) ==> in_chrono_range(t))
}

/// Whether the times of a health report can be written as dates, so that
/// `inspect_report` may be called.
pub fn can_report(stats: &TableStats) -> (r: bool)
    ensures
        r == report_times_in_range(*stats),
{
    let created = match stats.created_timestamp {
        Some(t) => crate::engine::time::timestamp_in_range(t),
        None => true,
    };
    let modified = match stats.last_modified_timestamp {
        Some(t) => crate::engine::time::timestamp_in_range(t),
        None => true,
    };
    created && modified
}

fn push_time_row(rows: &mut Vec<ReportRow>, label: &str, t: Option<i64>)
    requires
        t matches Some(ms) ==> in_chrono_range(ms),
    ensures
        rows_view(final(rows)@) == rows_view(old(rows)@) + time_row(label@, t),
{
    match t {
        Some(ms) => {
            push_row(rows, Tone::Plain, label, utc_seconds_text(ms));
        },
        None => {
            assert(rows_view(rows@) =~= rows_view(rows@) + time_row(label@, t));
        },
    }
}

fn last_run_text(v: Option<u64>, ts: Option<i64>) -> (s: String)
    ensures
        s@ == last_run(v, ts),
{
    match v {
        Some(n) => {
            let t: i64 = match ts {
                Some(t) => t,
                None => 0,
            };
            let a = concat("v", u64_text(n).as_str());
            let b = concat(a.as_str(), " (");
            let c = concat(b.as_str(), i64_text(t).as_str());
            concat(c.as_str(), " ts)")
        },
        None => "Never".to_owned(),
    }
}

/// The text of the health report `stats`, apart from the small-file share
/// and the skew score.
pub fn inspect_report(stats: &TableStats) -> (r: InspectReport)
    requires
        report_times_in_range(*stats),
    ensures
        rows_view(r.overview@) == overview_rows(*stats),
        rows_view(r.files@) == file_rows(*stats),
        r.min_size@ == spec_byte_size(stats.health.min_file_size as u64),
        r.max_size@ == spec_byte_size(stats.health.max_file_size as u64),
        rows_view(r.details@) == detail_rows(*stats),
        r.maintenance_issues == maintenance_issues(*stats),
{
    let mut overview: Vec<ReportRow> = Vec::new();
    assert(rows_view(overview@) =~= Seq::<(Tone, Seq<char>, Seq<char>)>::empty());
    push_row(&mut overview, Tone::Plain, "Current Version", u64_text(stats.current_version));
    push_time_row(&mut overview, "Created", stats.created_timestamp);
    push_time_row(&mut overview, "Last Modified", stats.last_modified_timestamp);
    let p1 = concat("reader=", i64_text(stats.min_reader_version as i64).as_str());
    let p2 = concat(p1.as_str(), ", writer=");
    let protocol = concat(p2.as_str(), i64_text(stats.min_writer_version as i64).as_str());
    push_row(&mut overview, Tone::Plain, "Protocol", protocol);
    assert(rows_view(overview@) =~= overview_rows(*stats));

    let mut files: Vec<ReportRow> = Vec::new();
    assert(rows_view(files@) =~= Seq::<(Tone, Seq<char>, Seq<char>)>::empty());
    push_row(&mut files, Tone::Heading, "DATA FILES", String::new());
    push_row(&mut files, Tone::Plain, "Total Files", u64_text(stats.health.total_files as u64));
    push_row(&mut files, Tone::Plain, "Total Size", byte_size_text(stats.health.total_size as u64));
    push_row(&mut files, Tone::Plain, "Avg File Size", byte_size_text(stats.health.avg_file_size as u64));
    assert(rows_view(files@) =~= file_rows(*stats));

    let mut details: Vec<ReportRow> = Vec::new();
    assert(rows_view(details@) =~= Seq::<(Tone, Seq<char>, Seq<char>)>::empty());
    push_row(&mut details, Tone::Heading, "PARTITIONS", String::new());
    push_row(&mut details, Tone::Plain, "Partition Columns", join_strings(&stats.partition_columns, ", "));
    push_row(&mut details, Tone::Plain, "Partition Count", u64_text(stats.partition_count as u64));
    push_row(&mut details, Tone::Plain, "Empty Partitions", u64_text(stats.empty_partition_count as u64));
    push_row(&mut details, Tone::Heading, "MAINTENANCE", String::new());
    let m = &stats.maintenance;
    push_row(&mut details, Tone::Plain, "Last VACUUM", last_run_text(m.last_vacuum_version, m.last_vacuum_timestamp));
    push_row(
        &mut details,
        Tone::Plain,
        "Last OPTIMIZE",
        last_run_text(m.last_optimize_version, m.last_optimize_timestamp),
    );
    let checkpoint = match m.last_checkpoint_version {
        Some(v) => concat("v", u64_text(v).as_str()),
        None => "None found".to_owned(),
    };
    push_row(&mut details, Tone::Plain, "Last CHECKPOINT", checkpoint);
    push_row(&mut details, Tone::Plain, "Z-Order Columns", join_strings(&m.z_order_columns, ", "));
    push_row(&mut details, Tone::Heading, "SCHEMA", String::new());
    push_row(&mut details, Tone::Plain, "Column Count", u64_text(stats.schema_column_count as u64));
    let changes = concat(u64_text(stats.schema_change_count as u64).as_str(), " (since inception)");
    push_row(&mut details, Tone::Plain, "Schema Changes", changes);
    assert(rows_view(details@) =~= detail_rows(*stats));

    InspectReport {
        overview,
        files,
        min_size: byte_size_text(stats.health.min_file_size as u64),
        max_size: byte_size_text(stats.health.max_file_size as u64),
        details,
        maintenance_issues: maintenance_issue_count(stats),
    }
}

/// The parts of a lineage or audit line that do not depend on floating
/// point: the commit time, the net size change and the predicate.
#[derive(Debug)]
pub struct EntryCells {
    /// The commit time, to the minute.
    pub time: String,
    /// The net size change, signed.
    pub size: String,
    /// `predicate="<predicate>"`, or nothing.
    pub predicate: String,
}

/// How a lineage entry's predicate is shown.
pub open spec fn predicate_text(p: Option<String>) -> Seq<char> {
    match p {
        Some(t) => "predicate=\""@ + t@ + "\""@,
        None => Seq::empty(),
    }
}

/// The time, net size change and predicate of a lineage entry, as its line
/// shows them.
pub fn entry_cells(e: &LineageEntry) -> (c: EntryCells)
    requires
        in_chrono_range(e.timestamp),
    ensures
        c.time@ == spec_utc_minutes(e.timestamp),
        c.size@ == signed_size(vstd::wrapping::i64_specs::wrapping_sub(e.bytes_added, e.bytes_removed)),
        c.predicate@ == predicate_text(e.predicate),
{
    let predicate = match &e.predicate {
        Some(p) => {
            let a = concat("predicate=\"", p.as_str());
            concat(a.as_str(), "\"")
        },
        None => String::new(),
    };
    EntryCells {
        time: utc_minutes_text(e.timestamp),
        size: signed_size_text(e.bytes_added.wrapping_sub(e.bytes_removed)),
        predicate,
    }
}

/// When a schema change happened, to the minute, or `N/A`.
pub open spec fn change_time(ts: Option<i64>) -> Seq<char> {
    match ts {
        Some(t) => spec_utc_minutes(t),
        None => "N/A"@,
    }
}

/// The time of a schema change can be written as a date.
pub open spec fn change_time_in_range(ts: Option<i64>) -> bool {
    ts matches Some(t) ==> in_chrono_range(t)
}

/// The lines under a schema change in the history: its added, removed and
/// retyped columns.
pub open spec fn change_lines(c: SchemaChange) -> Seq<(Tone, Seq<char>)> {
    c.added_columns@.map_values(|col: String| (Tone::Added, "+ added: "@ + col@))
        + c.removed_columns@.map_values(|col: String| (Tone::Removed, "- removed: "@ + col@))
        + c.modified_columns@.map_values(
        |m: (String, String, String)| (Tone::Modified, "~ modified: "@ + retyped(m)),
    )
}

/// The time of a schema change, to the minute, or `N/A`.
pub fn change_time_text(ts: Option<i64>) -> (s: String)
    requires
        change_time_in_range(ts),
    ensures
        s@ == change_time(ts),
{
    match ts {
        Some(t) => utc_minutes_text(t),
        None => "N/A".to_owned(),
    }
}

fn push_line(lines: &mut Vec<(Tone, String)>, tone: Tone, head: &str, rest: &str)
    ensures
        final(lines)@.map_values(|l: (Tone, String)| (l.0, l.1@)) == old(lines)@.map_values(
            |l: (Tone, String)| (l.0, l.1@),
        ).push((tone, head@ + rest@)),
{
    let ghost before = lines@.map_values(|l: (Tone, String)| (l.0, l.1@));
    let text = concat(head, rest);
    lines.push((tone, text));
    assert(lines@.map_values(|l: (Tone, String)| (l.0, l.1@)) =~= before.push((tone, head@ + rest@)));
}

/// The lines under a schema change in the history.
pub fn change_lines_of(c: &SchemaChange) -> (lines: Vec<(Tone, String)>)
    ensures
        lines@.map_values(|l: (Tone, String)| (l.0, l.1@)) == change_lines(*c),
{
    let mut lines: Vec<(Tone, String)> = Vec::new();
    let ghost a = c.added_columns@.map_values(|col: String| (Tone::Added, "+ added: "@ + col@));
    let ghost r = c.removed_columns@.map_values(|col: String| (Tone::Removed, "- removed: "@ + col@));
    let ghost m = c.modified_columns@.map_values(
        |x: (String, String, String)| (Tone::Modified, "~ modified: "@ + retyped(x)),
    );
    assert(lines@.map_values(|l: (Tone, String)| (l.0, l.1@)) =~= a.take(0));
    let mut i: usize = 0;
    while i < c.added_columns.len()
        invariant
            i <= c.added_columns@.len(),
            a == c.added_columns@.map_values(|col: String| (Tone::Added, "+ added: "@ + col@)),
            lines@.map_values(|l: (Tone, String)| (l.0, l.1@)) == a.take(i as int),
        decreases c.added_columns@.len() - i,
    {
        push_line(&mut lines, Tone::Added, "+ added: ", c.added_columns[i].as_str());
        assert(a.take(i + 1) =~= a.take(i as int).push(a[i as int]));
        i += 1;
    }
    assert(a.take(i as int) =~= a);
    let mut j: usize = 0;
    while j < c.removed_columns.len()
        invariant
            j <= c.removed_columns@.len(),
            r == c.removed_columns@.map_values(|col: String| (Tone::Removed, "- removed: "@ + col@)),
            lines@.map_values(|l: (Tone, String)| (l.0, l.1@)) == a + r.take(j as int),
        decreases c.removed_columns@.len() - j,
    {
        push_line(&mut lines, Tone::Removed, "- removed: ", c.removed_columns[j].as_str());
        assert(r.take(j + 1) =~= r.take(j as int).push(r[j as int]));
        assert(a + r.take(j + 1) =~= (a + r.take(j as int)).push(r[j as int]));
        j += 1;
    }
    assert(r.take(j as int) =~= r);
    let mut k: usize = 0;
    while k < c.modified_columns.len()
        invariant
            k <= c.modified_columns@.len(),
            m == c.modified_columns@.map_values(
                |x: (String, String, String)| (Tone::Modified, "~ modified: "@ + retyped(x)),
            ),
            lines@.map_values(|l: (Tone, String)| (l.0, l.1@)) == a + r + m.take(k as int),
        decreases c.modified_columns@.len() - k,
    {
        let x = &c.modified_columns[k];
        let t1 = concat(x.0.as_str(), " (");
        let t2 = concat(t1.as_str(), x.1.as_str());
        let t3 = concat(t2.as_str(), " → ");
        let t4 = concat(t3.as_str(), x.2.as_str());
        let text = concat(t4.as_str(), ")");
        assert(text@ == retyped(c.modified_columns@[k as int]));
        push_line(&mut lines, Tone::Modified, "~ modified: ", text.as_str());
        assert(m.take(k + 1) =~= m.take(k as int).push(m[k as int]));
        assert(a + r + m.take(k + 1) =~= (a + r + m.take(k as int)).push(m[k as int]));
        k += 1;
    }
    assert(m.take(k as int) =~= m);
    lines
}

} // verus!
