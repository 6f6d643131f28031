use deltalens::engine::analyzer::diff::VersionDiff;
use deltalens::engine::model::schema::{SchemaChange, StructField};
use deltalens::engine::model::stats::{MaintenanceInfo, TableHealth, TableStats};
use deltalens::engine::model::lineage::{LineageEntry, OperationType};
use deltalens::render::report::{
    can_report, change_lines_of, change_time_text, diff_rows, entry_cells, field_cells, inspect_report, ReportRow, Tone,
};

fn view(rows: &[ReportRow]) -> Vec<(Tone, String, String)> {
    rows.iter().map(|r| (r.tone, r.label.clone(), r.value.clone())).collect()
}

fn row(tone: Tone, label: &str, value: &str) -> (Tone, String, String) {
    (tone, label.to_string(), value.to_string())
}

fn sample() -> VersionDiff {
    VersionDiff {
        v1: 3,
        v2: 9,
        schema_changes: vec![SchemaChange {
            version: 5,
            timestamp: None,
            added_columns: vec!["email".to_string()],
            removed_columns: vec!["fax".to_string()],
            modified_columns: vec![("id".to_string(), "\"integer\"".to_string(), "\"long\"".to_string())],
        }],
        files_added: 4,
        files_removed: 6,
        bytes_added: 999,
        bytes_removed: 1,
        new_partitions: vec!["day=1".to_string(), "day=2".to_string()],
        removed_partitions: vec![],
        operations: vec![("WRITE".to_string(), 4), ("DELETE".to_string(), 1), ("MERGE".to_string(), 1)],
        total_commits: 6,
    }
}

#[test]
fn diff_report_lists_every_section() {
    let rows = view(&diff_rows(&sample(), false, false));
    assert_eq!(
        rows,
        vec![
            row(Tone::Heading, "SCHEMA CHANGES", ""),
            row(Tone::Added, "+ added", "email"),
            row(Tone::Removed, "- removed", "fax"),
            row(Tone::Modified, "~ modified", "id (\"integer\" → \"long\")"),
            row(Tone::Heading, "DATA CHANGES", ""),
            row(Tone::Plain, "Files Added", "+4"),
            row(Tone::Plain, "Files Removed", "-6"),
            row(Tone::Plain, "Net File Delta", "-2"),
            row(Tone::Plain, "Size Added", "999 B"),
            row(Tone::Plain, "Size Removed", "1 B"),
            row(Tone::Plain, "Net Size Delta", "+998 B"),
            row(Tone::Heading, "OPERATIONS (6 commits)", ""),
            row(Tone::Plain, "DELETE", "1"),
            row(Tone::Plain, "MERGE", "1"),
            row(Tone::Plain, "WRITE", "4"),
            row(Tone::Heading, "PARTITION CHANGES", ""),
            row(Tone::Plain, "New Partitions", "2 (day=1, day=2)"),
            row(Tone::Plain, "Removed Partitions", "0"),
        ]
    );
}

#[test]
fn diff_report_sections_can_be_left_out() {
    let schema = view(&diff_rows(&sample(), true, false));
    assert_eq!(schema.len(), 4);
    assert_eq!(schema[0], row(Tone::Heading, "SCHEMA CHANGES", ""));
    let files = view(&diff_rows(&sample(), false, true));
    assert_eq!(files[0], row(Tone::Heading, "DATA CHANGES", ""));
    assert_eq!(files.len(), 14);
    assert!(diff_rows(&sample(), true, true).is_empty());
}

#[test]
fn diff_report_of_an_empty_diff() {
    let d = VersionDiff {
        v1: 2,
        v2: 2,
        schema_changes: vec![],
        files_added: 0,
        files_removed: 0,
        bytes_added: 0,
        bytes_removed: 2_500_000,
        new_partitions: vec![],
        removed_partitions: vec!["p=a".to_string()],
        operations: vec![],
        total_commits: 0,
    };
    let rows = view(&diff_rows(&d, false, false));
    assert_eq!(rows[1], row(Tone::Plain, "No schema changes detected", ""));
    assert_eq!(rows[5], row(Tone::Plain, "Net File Delta", "+0"));
    assert_eq!(rows[7], row(Tone::Plain, "Size Removed", "2.5 MB"));
    assert_eq!(rows[8], row(Tone::Plain, "Net Size Delta", "-2.5 MB"));
    assert_eq!(rows[10], row(Tone::Plain, "No operations recorded", ""));
    assert_eq!(rows[13], row(Tone::Plain, "Removed Partitions", "1 (p=a)"));
}

#[test]
fn diff_report_wraps_extreme_deltas() {
    let mut d = sample();
    d.files_added = i64::MIN;
    d.files_removed = 1;
    d.bytes_added = i64::MIN;
    d.bytes_removed = 0;
    let rows = view(&diff_rows(&d, false, true));
    assert_eq!(rows[1].2, format!("+{}", i64::MIN));
    assert_eq!(rows[3].2, format!("{:+}", i64::MIN.wrapping_sub(1)));
    assert_eq!(rows[6].2, format!("-{}", bytesize::ByteSize::b(1u64 << 63)));
}

fn column(data_type: &str, nullable: bool, metadata: &str) -> StructField {
    StructField { name: "c".to_string(), data_type: data_type.to_string(), nullable, metadata: metadata.to_string() }
}

#[test]
fn schema_cells_show_types_and_metadata() {
    let cells = |f: &StructField| {
        let (a, b, c, d) = field_cells(f);
        (a, b, c, d)
    };
    assert_eq!(
        cells(&column("\"integer\"", false, "{}")),
        ("c".to_string(), "INTEGER".to_string(), "false".to_string(), "-".to_string())
    );
    assert_eq!(cells(&column("\"decimal(10,2)\"", true, "null")).1, "DECIMAL(10,2)");
    assert_eq!(cells(&column("\"string\"", true, "null")).3, "-");
    let nested = "{\"type\":\"array\",\"elementType\":\"string\",\"containsNull\":true}";
    assert_eq!(cells(&column(nested, true, "{\"comment\":\"ids\"}")).1, nested);
    assert_eq!(cells(&column(nested, true, "{\"comment\":\"ids\"}")).3, "{\"comment\":\"ids\"}");
    assert_eq!(cells(&column("\"string\"", true, "{}")).2, "true");
}

fn stats() -> TableStats {
    TableStats {
        current_version: 142,
        created_timestamp: Some(1_705_276_800_000),
        last_modified_timestamp: None,
        min_reader_version: 1,
        min_writer_version: 2,
        partition_columns: vec!["year".to_string(), "month".to_string()],
        partition_count: 84,
        empty_partition_count: 0,
        schema_column_count: 23,
        schema_change_count: 7,
        health: TableHealth {
            total_files: 3,
            total_size: 1500,
            avg_file_size: 500,
            min_file_size: 12,
            max_file_size: 999_000,
            small_file_count: 3,
            file_sizes: vec![12, 489, 999],
        },
        maintenance: MaintenanceInfo {
            last_vacuum_version: Some(128),
            last_vacuum_timestamp: None,
            last_optimize_version: None,
            last_optimize_timestamp: None,
            last_checkpoint_version: Some(140),
            z_order_columns: vec!["customer_id".to_string(), "event_type".to_string()],
        },
    }
}

#[test]
fn health_report_rows() {
    let s = stats();
    assert!(can_report(&s));
    let r = inspect_report(&s);
    assert_eq!(
        view(&r.overview),
        vec![
            row(Tone::Plain, "Current Version", "142"),
            row(Tone::Plain, "Created", "2024-01-15 00:00:00 UTC"),
            row(Tone::Plain, "Protocol", "reader=1, writer=2"),
        ]
    );
    assert_eq!(
        view(&r.files),
        vec![
            row(Tone::Heading, "DATA FILES", ""),
            row(Tone::Plain, "Total Files", "3"),
            row(Tone::Plain, "Total Size", "1.5 KB"),
            row(Tone::Plain, "Avg File Size", "500 B"),
        ]
    );
    assert_eq!(r.min_size, "12 B");
    assert_eq!(r.max_size, "999.0 KB");
    assert_eq!(
        view(&r.details),
        vec![
            row(Tone::Heading, "PARTITIONS", ""),
            row(Tone::Plain, "Partition Columns", "year, month"),
            row(Tone::Plain, "Partition Count", "84"),
            row(Tone::Plain, "Empty Partitions", "0"),
            row(Tone::Heading, "MAINTENANCE", ""),
            row(Tone::Plain, "Last VACUUM", "v128 (0 ts)"),
            row(Tone::Plain, "Last OPTIMIZE", "Never"),
            row(Tone::Plain, "Last CHECKPOINT", "v140"),
            row(Tone::Plain, "Z-Order Columns", "customer_id, event_type"),
            row(Tone::Heading, "SCHEMA", ""),
            row(Tone::Plain, "Column Count", "23"),
            row(Tone::Plain, "Schema Changes", "7 (since inception)"),
        ]
    );
    assert_eq!(r.maintenance_issues, 1);
}

#[test]
fn health_report_times_out_of_date_range() {
    let mut s = stats();
    s.last_modified_timestamp = Some(i64::MAX);
    assert!(!can_report(&s));
    s.last_modified_timestamp = Some(8_210_266_876_799_999);
    assert!(can_report(&s));
    s.created_timestamp = Some(-8_334_601_228_800_000);
    assert!(can_report(&s));
    let r = inspect_report(&s);
    assert_eq!(r.overview[1].value, "-262143-01-01 00:00:00 UTC");
    assert_eq!(r.overview[2].value, "+262142-12-31 23:59:59 UTC");
    s.created_timestamp = Some(-8_334_601_228_800_001);
    assert!(!can_report(&s));
}

fn entry_with(bytes_added: i64, bytes_removed: i64, predicate: Option<&str>) -> LineageEntry {
    LineageEntry {
        version: 1,
        timestamp: 1_705_276_800_000 + 90_000,
        operation: OperationType::Delete,
        operation_raw: "DELETE".to_string(),
        writer: "unknown".to_string(),
        num_files_added: 0,
        num_files_removed: 1,
        bytes_added,
        bytes_removed,
        num_output_rows: None,
        predicate: predicate.map(|p| p.to_string()),
        user_name: None,
        cluster_id: None,
        engine_info: None,
    }
}

#[test]
fn lineage_line_cells() {
    let c = entry_cells(&entry_with(0, 2_500, Some("id = 7")));
    assert_eq!(c.time, "2024-01-15 00:01");
    assert_eq!(c.size, "-2.5 KB");
    assert_eq!(c.predicate, "predicate=\"id = 7\"");
    let c = entry_cells(&entry_with(10, 0, None));
    assert_eq!(c.size, "+10 B");
    assert_eq!(c.predicate, "");
}

#[test]
fn schema_history_lines() {
    let change = SchemaChange {
        version: 4,
        timestamp: Some(1_705_276_800_000),
        added_columns: vec!["a".to_string(), "b".to_string()],
        removed_columns: vec!["c".to_string()],
        modified_columns: vec![("d".to_string(), "\"integer\"".to_string(), "\"long\"".to_string())],
    };
    assert_eq!(change_time_text(change.timestamp), "2024-01-15 00:00");
    assert_eq!(change_time_text(None), "N/A");
    assert_eq!(
        change_lines_of(&change),
        vec![
            (Tone::Added, "+ added: a".to_string()),
            (Tone::Added, "+ added: b".to_string()),
            (Tone::Removed, "- removed: c".to_string()),
            (Tone::Modified, "~ modified: d (\"integer\" → \"long\")".to_string()),
        ]
    );
}
