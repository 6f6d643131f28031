use deltalens::cli::commands::filters::{date_bound, op_list};
use deltalens::cli::commands::schema::SchemaReport;
use deltalens::cli::commands::{audit, diff, inspect, lineage, schema};
use deltalens::engine::metrics::{command_counts, MetricsRecorder};
use deltalens::engine::model::action::{
    Action, AddAction, CommitInfoAction, Format, MetaDataAction, RemoveAction,
};
use deltalens::engine::model::lineage::OperationType;
use deltalens::engine::model::schema::{StructField, StructType};
use deltalens::engine::reader::{count_upto, is_sorted_log, CommitEntry};
use deltalens::engine::time::date_to_millis;
use deltalens::error::DeltaLensError;
use deltalens::render::table::{maintenance_issue_count, TableRenderer};

fn commit_info(ts: i64, op: &str, user: Option<&str>) -> Action {
    Action::CommitInfo(CommitInfoAction {
        timestamp: ts,
        operation: op.to_string(),
        operation_parameters: vec![],
        notebook_info: None,
        cluster_id: None,
        user_id: None,
        user_name: user.map(|u| u.to_string()),
        operation_metrics: None,
        engine_info: None,
        is_blind_append: None,
        txn_id: None,
    })
}

fn add(path: &str, size: i64) -> Action {
    Action::Add(AddAction {
        path: path.to_string(),
        size,
        modification_time: 0,
        data_change: true,
        partition_values: vec![],
        stats: None,
        tags: None,
    })
}

fn remove(path: &str, size: i64) -> Action {
    Action::Remove(RemoveAction {
        path: path.to_string(),
        deletion_timestamp: None,
        data_change: true,
        size: Some(size),
        partition_values: None,
    })
}

fn metadata(cols: &[&str]) -> Action {
    Action::MetaData(MetaDataAction {
        id: "t".to_string(),
        name: None,
        description: None,
        format: Format { provider: "parquet".to_string() },
        schema_string: String::new(),
        schema: Some(StructType {
            kind: "struct".to_string(),
            fields: cols
                .iter()
                .map(|c| StructField {
                    name: c.to_string(),
                    data_type: "\"string\"".to_string(),
                    nullable: true,
                    metadata: "{}".to_string(),
                })
                .collect(),
        }),
        partition_columns: vec![],
        configuration: vec![],
        created_time: None,
    })
}

fn entry(version: u64, actions: Vec<Action>) -> CommitEntry {
    CommitEntry { version, path: format!("{:020}.json", version), actions }
}

const DAY_MS: i64 = 86_400_000;
const JAN_15_2024: i64 = 1_705_276_800_000;

fn table() -> Vec<CommitEntry> {
    vec![
        entry(0, vec![commit_info(JAN_15_2024 - DAY_MS, "CREATE TABLE", Some("ops")), metadata(&["a"])]),
        entry(1, vec![commit_info(JAN_15_2024 + 1000, "WRITE", Some("alice")), add("f1", 100), add("f2", 50)]),
        entry(2, vec![commit_info(JAN_15_2024 + DAY_MS, "DELETE", Some("bob")), remove("f1", 100)]),
        entry(3, vec![commit_info(JAN_15_2024 + 2 * DAY_MS, "WRITE", Some("alice")), metadata(&["a", "b"]), add("f3", 7)]),
    ]
}

#[test]
fn diff_between_versions() {
    let t = table();
    assert!(is_sorted_log(&t));
    let d = diff::execute(&t, 1, 3).unwrap();
    assert_eq!((d.v1, d.v2), (1, 3));
    assert_eq!(d.files_added, 1);
    assert_eq!(d.files_removed, 1);
    assert_eq!(d.bytes_added, 7);
    assert_eq!(d.bytes_removed, 100);
    assert_eq!(d.total_commits, 2);
    assert_eq!(d.schema_changes.len(), 1);
    assert_eq!(d.schema_changes[0].added_columns, vec!["b".to_string()]);
}

#[test]
fn diff_of_a_version_with_itself_is_empty() {
    let d = diff::execute(&table(), 2, 2).unwrap();
    assert_eq!(d.total_commits, 0);
    assert_eq!(d.files_added, 0);
    assert!(d.operations.is_empty());
}

#[test]
fn diff_errors() {
    assert!(matches!(diff::execute(&[], 0, 0), Err(DeltaLensError::EmptyTable)));
    assert!(matches!(diff::execute(&table(), 4, 1), Err(DeltaLensError::VersionNotFound(4))));
    assert!(matches!(diff::execute(&table(), 1, 9), Err(DeltaLensError::VersionNotFound(9))));
    assert!(matches!(diff::execute(&table(), 3, 1), Err(DeltaLensError::InvalidVersionRange(3, 1))));
}

#[test]
fn schema_command_reports() {
    let t = table();
    match schema::execute(&t, false, None).unwrap() {
        SchemaReport::Snapshot(s) => {
            assert_eq!(s.version, 3);
            assert_eq!(s.schema.column_names(), vec!["a", "b"]);
        }
        other => panic!("unexpected {:?}", other),
    }
    match schema::execute(&t, false, Some(2)).unwrap() {
        SchemaReport::Snapshot(s) => assert_eq!(s.version, 0),
        other => panic!("unexpected {:?}", other),
    }
    match schema::execute(&t, true, None).unwrap() {
        SchemaReport::History(h) => {
            assert_eq!(h.len(), 1);
            assert_eq!(h[0].version, 3);
        }
        other => panic!("unexpected {:?}", other),
    }
}

#[test]
fn schema_command_errors() {
    assert!(matches!(schema::execute(&[], false, None), Err(DeltaLensError::EmptyTable)));
    assert!(matches!(schema::execute(&table(), false, Some(12)), Err(DeltaLensError::VersionNotFound(12))));
    let no_meta = vec![entry(0, vec![add("x", 1)]), entry(1, vec![add("y", 1)])];
    match schema::execute(&no_meta, false, Some(1)) {
        Err(DeltaLensError::Storage(m)) => assert_eq!(m, "No schema found at version 1"),
        other => panic!("unexpected {:?}", other),
    }
    match schema::execute(&no_meta, false, None) {
        Err(DeltaLensError::Storage(m)) => assert_eq!(m, "No schema found in table metadata"),
        other => panic!("unexpected {:?}", other),
    }
}

#[test]
fn inspect_at_a_version() {
    let t = table();
    let now = inspect::execute(&t, None);
    assert_eq!(now.current_version, 3);
    assert_eq!(now.health.total_files, 2);
    assert_eq!(now.health.total_size, 57);
    let then = inspect::execute(&t, Some(1));
    assert_eq!(then.current_version, 1);
    assert_eq!(then.health.total_files, 2);
    assert_eq!(then.health.total_size, 150);
}

#[test]
fn lineage_command_filters() {
    let t = table();
    assert!(lineage::can_execute(&t, None));
    let all = lineage::execute(&t, None, None, None, None).unwrap();
    assert_eq!(all.iter().map(|e| e.version).collect::<Vec<_>>(), vec![0, 1, 2, 3]);
    let last_two = lineage::execute(&t, Some(2), None, None, None).unwrap();
    assert_eq!(last_two.iter().map(|e| e.version).collect::<Vec<_>>(), vec![2, 3]);
    let since = lineage::execute(&t, None, Some("2024-01-16".to_string()), None, None).unwrap();
    assert_eq!(since.iter().map(|e| e.version).collect::<Vec<_>>(), vec![2, 3]);
    let writes = lineage::execute(&t, None, None, Some("write, delete".to_string()), Some("ALICE".to_string())).unwrap();
    assert_eq!(writes.iter().map(|e| e.version).collect::<Vec<_>>(), vec![1, 3]);
    assert!(matches!(writes[0].operation, OperationType::Write));
}

#[test]
fn lineage_command_rejects_a_bad_date() {
    match lineage::execute(&table(), None, Some("not-a-date".to_string()), None, None) {
        Err(DeltaLensError::Storage(m)) => {
            assert_eq!(m, "Invalid date format (expected YYYY-MM-DD): input contains invalid characters")
        }
        other => panic!("unexpected {:?}", other),
    }
}

#[test]
fn audit_command_window_is_inclusive_of_the_last_day() {
    let t = table();
    assert!(audit::can_execute(&t));
    let r = audit::execute(&t, Some("2024-01-15".to_string()), Some("2024-01-16".to_string()), None, None).unwrap();
    assert_eq!(r.iter().map(|e| e.version).collect::<Vec<_>>(), vec![1, 2]);
    let bob = audit::execute(&t, None, None, None, Some("bob".to_string())).unwrap();
    assert_eq!(bob.len(), 1);
    assert_eq!(bob[0].version, 2);
    assert!(matches!(
        audit::execute(&t, None, Some("2024-13-01".to_string()), None, None),
        Err(DeltaLensError::Storage(_))
    ));
}

#[test]
fn date_bounds_are_utc_day_edges() {
    assert_eq!(date_bound(&None, false).unwrap(), None);
    assert_eq!(date_bound(&Some("2024-01-15".to_string()), false).unwrap(), Some(JAN_15_2024));
    assert_eq!(date_bound(&Some("2024-01-15".to_string()), true).unwrap(), Some(JAN_15_2024 + DAY_MS - 1));
    assert_eq!(date_bound(&Some("1970-01-01".to_string()), false).unwrap(), Some(0));
    assert_eq!(date_bound(&Some("1969-12-31".to_string()), false).unwrap(), Some(-DAY_MS));
    match date_bound(&Some("2024-01".to_string()), false) {
        Err(DeltaLensError::Storage(m)) => {
            assert_eq!(m, "Invalid date format (expected YYYY-MM-DD): premature end of input")
        }
        other => panic!("unexpected {:?}", other),
    }
}

#[test]
fn civil_dates_to_millis() {
    assert_eq!(date_to_millis(1970, 1, 1), 0);
    assert_eq!(date_to_millis(2000, 3, 1), 951_868_800_000);
    assert_eq!(date_to_millis(2024, 2, 29), 1_709_164_800_000);
    assert_eq!(date_to_millis(1600, 1, 1), -11_676_096_000_000);
}

#[test]
fn operation_lists_are_split_and_trimmed() {
    assert_eq!(op_list(&None), None);
    assert_eq!(
        op_list(&Some(" WRITE ,merge,,x ".to_string())),
        Some(vec!["WRITE".to_string(), "merge".to_string(), String::new(), "x".to_string()])
    );
}

#[test]
fn operation_names_round_trip() {
    for name in [
        "WRITE", "MERGE", "DELETE", "UPDATE", "OPTIMIZE", "VACUUM START", "VACUUM END",
        "CREATE TABLE", "REPLACE TABLE", "RESTORE",
    ] {
        assert_eq!(OperationType::from_str(name).as_str(), name);
    }
    assert!(matches!(OperationType::from_str("create or replace table as select"), OperationType::Other(_)));
    assert!(matches!(OperationType::from_str("Vacuum Start"), OperationType::VacuumStart));
    assert_eq!(OperationType::from_str("streaming update").as_str(), "STREAMING UPDATE");
}

#[test]
fn metrics_recorder_names_its_command() {
    let m = MetricsRecorder::new("inspect");
    assert_eq!(m.command(), "inspect");
    assert!(m.started().elapsed().as_secs() < 60);
}

#[test]
fn table_renderer_keeps_plain_flag() {
    assert!(TableRenderer::new(true).plain);
    assert!(!TableRenderer::new(false).plain);
}

#[test]
fn maintenance_issues_need_more_than_a_hundred_versions() {
    let young = inspect::execute(&table(), None);
    assert_eq!(maintenance_issue_count(&young), 0);
    let mut old = table();
    old.push(entry(101, vec![commit_info(JAN_15_2024 + 3 * DAY_MS, "WRITE", None)]));
    let s = inspect::execute(&old, None);
    assert_eq!(s.current_version, 101);
    assert_eq!(maintenance_issue_count(&s), 2);
    old.push(entry(102, vec![commit_info(JAN_15_2024 + 4 * DAY_MS, "OPTIMIZE", None)]));
    assert_eq!(maintenance_issue_count(&inspect::execute(&old, None)), 1);
}

#[test]
fn diff_from_the_largest_version_wraps_to_the_whole_log() {
    let t = vec![
        entry(0, vec![commit_info(1, "WRITE", None), add("a", 5)]),
        entry(u64::MAX, vec![commit_info(2, "WRITE", None), add("b", 7)]),
    ];
    let d = diff::execute(&t, u64::MAX, u64::MAX).unwrap();
    assert_eq!(d.v1, u64::MAX);
    assert_eq!(d.v2, u64::MAX);
    assert_eq!(d.total_commits, 2);
    assert_eq!(d.files_added, 2);
    assert_eq!(d.bytes_added, 12);
}

#[test]
fn diff_reads_cover_the_log_up_to_the_second_version() {
    let t = table();
    for (v1, v2) in [(0u64, 3u64), (1, 2), (2, 2), (0, 0)] {
        let d = diff::execute(&t, v1, v2).unwrap();
        assert_eq!(count_upto(&t, v1) + d.total_commits, count_upto(&t, v2));
    }
}

#[test]
fn operation_names_parse_back_to_their_operation() {
    for op in [
        OperationType::Write, OperationType::Merge, OperationType::Delete, OperationType::Update,
        OperationType::Optimize, OperationType::VacuumStart, OperationType::VacuumEnd,
        OperationType::CreateTable, OperationType::ReplaceTable, OperationType::Restore,
    ] {
        let name = op.as_str().to_string();
        assert_eq!(OperationType::from_str(&name).as_str(), name);
        assert_eq!(OperationType::from_str(&name.to_lowercase()).as_str(), name);
    }
    assert!(matches!(OperationType::from_str("create table as select"), OperationType::CreateTable));
}

#[test]
fn command_counts_tally_each_command_once() {
    let cmds: Vec<String> = ["inspect", "diff", "inspect", "audit", "inspect"]
        .iter()
        .map(|s| s.to_string())
        .collect();
    let mut counts = command_counts(&cmds);
    counts.sort();
    assert_eq!(
        counts,
        vec![("audit".to_string(), 1), ("diff".to_string(), 1), ("inspect".to_string(), 3)]
    );
    assert!(command_counts(&vec![]).is_empty());
}
