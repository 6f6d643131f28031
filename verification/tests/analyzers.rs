use deltalens::engine::analyzer::diff::DiffAnalyzer;
use deltalens::engine::analyzer::health::HealthAnalyzer;
use deltalens::engine::analyzer::lineage::{LineageFilter, LineageTracer};
use deltalens::engine::analyzer::schema::SchemaTracker;
use deltalens::engine::model::action::{
    Action, AddAction, CommitInfoAction, Format, MetaDataAction, NotebookInfo, ParamValue,
    ProtocolAction, RemoveAction,
};
use deltalens::engine::model::lineage::OperationType;
use deltalens::engine::model::schema::{StructField, StructType};
use deltalens::engine::reader::CommitEntry;

fn field(name: &str, ty: &str) -> StructField {
    StructField {
        name: name.to_string(),
        data_type: format!("\"{}\"", ty),
        nullable: true,
        metadata: "{}".to_string(),
    }
}

fn schema(fields: &[(&str, &str)]) -> StructType {
    StructType {
        kind: "struct".to_string(),
        fields: fields.iter().map(|(n, t)| field(n, t)).collect(),
    }
}

fn add(path: &str, size: i64, partition: Option<(&str, &str)>) -> Action {
    Action::Add(AddAction {
        path: path.to_string(),
        size,
        modification_time: 0,
        data_change: true,
        partition_values: partition
            .map(|(k, v)| vec![(k.to_string(), Some(v.to_string()))])
            .unwrap_or_default(),
        stats: None,
        tags: None,
    })
}

fn remove(path: &str, size: Option<i64>, partition: Option<(&str, &str)>) -> Action {
    Action::Remove(RemoveAction {
        path: path.to_string(),
        deletion_timestamp: None,
        data_change: true,
        size,
        partition_values: partition.map(|(k, v)| vec![(k.to_string(), Some(v.to_string()))]),
    })
}

fn commit_info(ts: i64, op: &str) -> CommitInfoAction {
    CommitInfoAction {
        timestamp: ts,
        operation: op.to_string(),
        operation_parameters: vec![],
        notebook_info: None,
        cluster_id: None,
        user_id: None,
        user_name: None,
        operation_metrics: None,
        engine_info: None,
        is_blind_append: None,
        txn_id: None,
    }
}

fn metadata(fields: &[(&str, &str)], partition_columns: &[&str], created: Option<i64>) -> Action {
    Action::MetaData(MetaDataAction {
        id: "id".to_string(),
        name: None,
        description: None,
        format: Format { provider: "parquet".to_string() },
        schema_string: String::new(),
        schema: Some(schema(fields)),
        partition_columns: partition_columns.iter().map(|s| s.to_string()).collect(),
        configuration: vec![],
        created_time: created,
    })
}

fn entry(version: u64, actions: Vec<Action>) -> CommitEntry {
    CommitEntry { version, path: format!("{:020}.json", version), actions }
}

#[test]
fn test_diff_analyzer_empty() {
    let v1 = 0u64;
    let entries_before: Vec<CommitEntry> = vec![];
    let entries_after: Vec<CommitEntry> = vec![];
    let diff = DiffAnalyzer::diff(v1, &entries_before, &entries_after);
    assert_eq!(diff.v1, 0);
    assert_eq!(diff.v2, 0);
    assert_eq!(diff.files_added, 0);
    assert_eq!(diff.files_removed, 0);
    assert!(diff.schema_changes.is_empty());
}

#[test]
fn test_schema_diff() {
    let old_schema = StructType {
        kind: "struct".to_string(),
        fields: vec![
            StructField {
                name: "id".to_string(),
                data_type: "\"integer\"".to_string(),
                nullable: false,
                metadata: "{}".to_string(),
            },
            StructField {
                name: "name".to_string(),
                data_type: "\"string\"".to_string(),
                nullable: true,
                metadata: "{}".to_string(),
            },
        ],
    };
    let new_schema = StructType {
        kind: "struct".to_string(),
        fields: vec![
            StructField {
                name: "id".to_string(),
                data_type: "\"integer\"".to_string(),
                nullable: false,
                metadata: "{}".to_string(),
            },
            StructField {
                name: "name".to_string(),
                data_type: "\"string\"".to_string(),
                nullable: true,
                metadata: "{}".to_string(),
            },
            StructField {
                name: "age".to_string(),
                data_type: "\"integer\"".to_string(),
                nullable: true,
                metadata: "{}".to_string(),
            },
        ],
    };
    let change = DiffAnalyzer::schema_diff(&old_schema, &new_schema, 1, None);
    assert_eq!(change.added_columns, vec!["age".to_string()]);
    assert!(change.removed_columns.is_empty());
    assert!(change.modified_columns.is_empty());
}

#[test]
fn schema_diff_reports_removed_and_retyped_columns() {
    let old = schema(&[("id", "integer"), ("name", "string"), ("gone", "long")]);
    let new = schema(&[("id", "long"), ("name", "string")]);
    let change = DiffAnalyzer::schema_diff(&old, &new, 7, Some(5));
    assert!(change.added_columns.is_empty());
    assert_eq!(change.removed_columns, vec!["gone".to_string()]);
    assert_eq!(
        change.modified_columns,
        vec![("id".to_string(), "\"integer\"".to_string(), "\"long\"".to_string())]
    );
    assert_eq!(change.version, 7);
    assert_eq!(change.timestamp, Some(5));
}

#[test]
fn schema_diff_of_a_schema_with_itself_is_empty() {
    let s = schema(&[("a", "integer"), ("b", "string")]);
    let change = DiffAnalyzer::schema_diff(&s, &s, 3, None);
    assert!(change.added_columns.is_empty());
    assert!(change.removed_columns.is_empty());
    assert!(change.modified_columns.is_empty());
}

#[test]
fn diff_counts_files_bytes_operations_and_partitions() {
    let before = vec![entry(0, vec![
        Action::CommitInfo(commit_info(1, "CREATE TABLE")),
        metadata(&[("id", "integer")], &["day"], Some(1)),
        add("a", 10, Some(("day", "1"))),
        add("b", 20, Some(("day", "2"))),
    ])];
    let after = vec![
        entry(1, vec![
            Action::CommitInfo(commit_info(2, "WRITE")),
            add("c", 30, Some(("day", "3"))),
            remove("a", Some(10), Some(("day", "1"))),
        ]),
        entry(2, vec![
            Action::CommitInfo(commit_info(3, "WRITE")),
            metadata(&[("id", "integer"), ("extra", "string")], &["day"], None),
            add("d", 5, None),
            remove("b", None, Some(("day", "2"))),
        ]),
    ];
    let d = DiffAnalyzer::diff(0, &before, &after);
    assert_eq!(d.v1, 0);
    assert_eq!(d.v2, 2);
    assert_eq!(d.files_added, 2);
    assert_eq!(d.files_removed, 2);
    assert_eq!(d.bytes_added, 35);
    assert_eq!(d.bytes_removed, 10);
    assert_eq!(d.total_commits, 2);
    assert_eq!(d.operations, vec![("WRITE".to_string(), 2)]);
    assert_eq!(d.new_partitions, vec!["day=3".to_string()]);
    let mut removed = d.removed_partitions.clone();
    removed.sort();
    assert_eq!(removed, vec!["day=1".to_string(), "day=2".to_string()]);
    assert_eq!(d.schema_changes.len(), 1);
    assert_eq!(d.schema_changes[0].version, 2);
    assert_eq!(d.schema_changes[0].added_columns, vec!["extra".to_string()]);
}

#[test]
fn health_reconstructs_current_file_set() {
    let entries = vec![
        entry(0, vec![
            Action::CommitInfo(commit_info(100, "WRITE")),
            Action::Protocol(ProtocolAction {
                min_reader_version: 3,
                min_writer_version: 7,
                reader_features: None,
                writer_features: None,
            }),
            metadata(&[("id", "integer"), ("v", "string")], &["day"], Some(42)),
            add("a", 100, Some(("day", "1"))),
            add("b", 300, Some(("day", "2"))),
        ]),
        entry(1, vec![
            Action::CommitInfo(commit_info(200, "DELETE")),
            remove("a", Some(100), None),
            add("c", 40 * 1024 * 1024, None),
        ]),
    ];
    let s = HealthAnalyzer::analyze(&entries);
    assert_eq!(s.current_version, 1);
    assert_eq!(s.created_timestamp, Some(42));
    assert_eq!(s.last_modified_timestamp, Some(200));
    assert_eq!((s.min_reader_version, s.min_writer_version), (3, 7));
    assert_eq!(s.partition_columns, vec!["day".to_string()]);
    assert_eq!(s.partition_count, 2);
    assert_eq!(s.empty_partition_count, 1);
    assert_eq!(s.schema_column_count, 2);
    assert_eq!(s.schema_change_count, 0);
    assert_eq!(s.health.total_files, 2);
    assert_eq!(s.health.total_size, 300 + 40 * 1024 * 1024);
    assert_eq!(s.health.min_file_size, 300);
    assert_eq!(s.health.max_file_size, 40 * 1024 * 1024);
    assert_eq!(s.health.avg_file_size, (300 + 40 * 1024 * 1024) / 2);
    assert_eq!(s.health.small_file_count, 1);
    let mut sizes = s.health.file_sizes.clone();
    sizes.sort();
    assert_eq!(sizes, vec![300, 40 * 1024 * 1024]);
}

#[test]
fn health_of_an_empty_log_uses_delta_defaults() {
    let s = HealthAnalyzer::analyze(&[]);
    assert_eq!(s.current_version, 0);
    assert_eq!((s.min_reader_version, s.min_writer_version), (1, 2));
    assert_eq!(s.health.total_files, 0);
    assert_eq!(s.health.avg_file_size, 0);
    assert_eq!(s.maintenance.last_vacuum_version, None);
}

#[test]
fn health_average_rounds_toward_zero() {
    let entries = vec![entry(0, vec![add("a", -7, None), add("b", 0, None)])];
    let s = HealthAnalyzer::analyze(&entries);
    assert_eq!(s.health.total_size, -7);
    assert_eq!(s.health.avg_file_size, -3);
    assert!(s.health.min_file_size <= s.health.avg_file_size);
    assert!(s.health.avg_file_size <= s.health.max_file_size);
}

#[test]
fn health_total_size_wraps_like_release_arithmetic() {
    let entries = vec![entry(0, vec![add("a", i64::MAX, None), add("b", 2, None)])];
    let s = HealthAnalyzer::analyze(&entries);
    assert_eq!(s.health.total_size, i64::MAX.wrapping_add(2));
}

#[test]
fn health_counts_schema_changes_and_maintenance() {
    let mut optimize = commit_info(500, "optimize");
    optimize.operation_parameters = vec![(
        "zOrderBy".to_string(),
        ParamValue::Text("[\"customer_id\",\"event_type\"]".to_string()),
    )];
    let mut optimize_list = commit_info(600, "OPTIMIZE");
    optimize_list.operation_parameters = vec![(
        "zOrderBy".to_string(),
        ParamValue::List(vec![Some("k".to_string()), None]),
    )];
    let entries = vec![
        entry(0, vec![metadata(&[("a", "integer")], &[], None)]),
        entry(10, vec![
            Action::CommitInfo(commit_info(400, "VACUUM END")),
            metadata(&[("a", "integer"), ("b", "string")], &[], Some(9)),
        ]),
        entry(11, vec![Action::CommitInfo(optimize)]),
        entry(12, vec![metadata(&[("b", "string"), ("a", "integer")], &[], None)]),
    ];
    let s = HealthAnalyzer::analyze(&entries);
    assert_eq!(s.schema_change_count, 2);
    assert_eq!(s.schema_column_count, 2);
    assert_eq!(s.created_timestamp, Some(9));
    assert_eq!(s.maintenance.last_vacuum_version, Some(10));
    assert_eq!(s.maintenance.last_vacuum_timestamp, Some(400));
    assert_eq!(s.maintenance.last_optimize_version, Some(11));
    assert_eq!(s.maintenance.last_optimize_timestamp, Some(500));
    assert_eq!(
        s.maintenance.z_order_columns,
        vec!["customer_id".to_string(), "event_type".to_string()]
    );
    assert_eq!(s.maintenance.last_checkpoint_version, Some(10));

    let entries2 = vec![entry(3, vec![Action::CommitInfo(optimize_list)])];
    let s2 = HealthAnalyzer::analyze(&entries2);
    assert_eq!(s2.maintenance.z_order_columns, vec!["k".to_string()]);
    assert_eq!(s2.maintenance.last_checkpoint_version, None);
}

#[test]
fn partition_values_are_keyed_in_column_order() {
    let a = Action::Add(AddAction {
        path: "p".to_string(),
        size: 1,
        modification_time: 0,
        data_change: true,
        partition_values: vec![
            ("month".to_string(), Some("4".to_string())),
            ("year".to_string(), None),
            ("day".to_string(), Some("9".to_string())),
        ],
        stats: None,
        tags: None,
    });
    let d = DiffAnalyzer::diff(0, &[], &[entry(1, vec![a])]);
    assert_eq!(d.new_partitions, vec!["day=9/month=4/year=__NULL__".to_string()]);
}

#[test]
fn lineage_attributes_writers_and_tallies() {
    let mut ci = commit_info(1_700_000_000_000, "merge");
    ci.engine_info = Some("  Apache-Spark/3.5.0 Delta-Lake/3.1.0".to_string());
    ci.user_name = Some("alice".to_string());
    ci.operation_parameters = vec![
        ("predicate".to_string(), ParamValue::Text("id = 1".to_string())),
        ("condition".to_string(), ParamValue::Text("ignored".to_string())),
    ];
    ci.operation_metrics = Some(vec![("numOutputRows".to_string(), ParamValue::Text("-12".to_string()))]);
    let mut nb = commit_info(5, "UPDATE");
    nb.notebook_info = Some(NotebookInfo { notebook_id: "1234567890abc".to_string() });
    nb.operation_parameters = vec![("condition".to_string(), ParamValue::Text("x > 2".to_string()))];
    nb.operation_metrics = Some(vec![("numOutputRows".to_string(), ParamValue::Number("7".to_string()))]);
    let entries = vec![
        entry(4, vec![Action::CommitInfo(ci), add("a", 10, None), remove("b", Some(3), None)]),
        entry(5, vec![add("c", 1, None)]),
        entry(6, vec![Action::CommitInfo(nb)]),
        entry(7, vec![Action::CommitInfo(commit_info(9, "custom thing"))]),
    ];
    assert!(LineageTracer::can_trace(&entries));
    let l = LineageTracer::trace(&entries);
    assert_eq!(l.len(), 3);
    assert_eq!(l[0].version, 4);
    assert_eq!(l[0].writer, "spark/alice");
    assert!(matches!(l[0].operation, OperationType::Merge));
    assert_eq!(l[0].operation_raw, "merge");
    assert_eq!(l[0].num_files_added, 1);
    assert_eq!(l[0].num_files_removed, 1);
    assert_eq!(l[0].bytes_added, 10);
    assert_eq!(l[0].bytes_removed, 3);
    assert_eq!(l[0].num_output_rows, Some(-12));
    assert_eq!(l[0].predicate.as_deref(), Some("id = 1"));
    assert_eq!(l[1].writer, "notebook_12345678");
    assert_eq!(l[1].predicate.as_deref(), Some("x > 2"));
    assert_eq!(l[1].num_output_rows, Some(7));
    assert_eq!(l[2].writer, "unknown");
    assert_eq!(l[2].operation.as_str(), "CUSTOM THING");
}

#[test]
fn lineage_refuses_a_notebook_id_cut_inside_a_character() {
    let mut nb = commit_info(5, "WRITE");
    nb.notebook_info = Some(NotebookInfo { notebook_id: "abcdefgé".to_string() });
    let entries = vec![entry(1, vec![Action::CommitInfo(nb)])];
    assert!(!LineageTracer::can_trace(&entries));
}

#[test]
fn lineage_filter_selects_by_time_operation_and_user() {
    let mut a = commit_info(100, "WRITE");
    a.user_name = Some("Alice".to_string());
    let mut b = commit_info(200, "delete");
    b.engine_info = Some("Databricks-Runtime/13".to_string());
    let c = commit_info(300, "MERGE");
    let entries = vec![
        entry(1, vec![Action::CommitInfo(a)]),
        entry(2, vec![Action::CommitInfo(b)]),
        entry(3, vec![Action::CommitInfo(c)]),
    ];
    let l = LineageTracer::trace(&entries);
    let all = LineageFilter { since_timestamp: None, until_timestamp: None, operations: None, user: None };
    assert_eq!(all.apply(&l).len(), 3);
    let by_time = LineageFilter { since_timestamp: Some(150), until_timestamp: Some(250), operations: None, user: None };
    let r = by_time.apply(&l);
    assert_eq!(r.len(), 1);
    assert_eq!(r[0].version, 2);
    let by_op = LineageFilter {
        since_timestamp: None,
        until_timestamp: None,
        operations: Some(vec!["Delete".to_string(), "merge".to_string()]),
        user: None,
    };
    let r = by_op.apply(&l);
    assert_eq!(r.iter().map(|e| e.version).collect::<Vec<_>>(), vec![2, 3]);
    let by_user = LineageFilter { since_timestamp: None, until_timestamp: None, operations: None, user: Some("ALI".to_string()) };
    let r = by_user.apply(&l);
    assert_eq!(r.len(), 1);
    assert_eq!(r[0].version, 1);
    let by_engine = LineageFilter { since_timestamp: None, until_timestamp: None, operations: None, user: Some("bricks".to_string()) };
    assert_eq!(by_engine.apply(&l)[0].version, 2);
}

#[test]
fn schema_tracker_reports_current_past_and_history() {
    let entries = vec![
        entry(0, vec![Action::CommitInfo(commit_info(10, "CREATE TABLE")), metadata(&[("a", "integer")], &[], Some(1))]),
        entry(1, vec![Action::CommitInfo(commit_info(20, "WRITE")), metadata(&[("a", "integer"), ("b", "string")], &[], Some(2))]),
        entry(2, vec![Action::CommitInfo(commit_info(30, "WRITE")), metadata(&[("a", "integer"), ("b", "string")], &[], Some(3))]),
        entry(3, vec![Action::CommitInfo(commit_info(40, "WRITE")), metadata(&[("b", "long")], &[], Some(4))]),
    ];
    let cur = SchemaTracker::current_schema(&entries).unwrap();
    assert_eq!(cur.version, 3);
    assert_eq!(cur.timestamp, Some(4));
    assert_eq!(cur.schema.fields.len(), 1);
    let past = SchemaTracker::at_version(&entries, 1).unwrap();
    assert_eq!(past.version, 1);
    assert_eq!(past.schema.column_names(), vec!["a", "b"]);
    assert_eq!(past.schema.nullable_count(), 2);
    let h = SchemaTracker::history(&entries);
    assert_eq!(h.len(), 2);
    assert_eq!(h[0].version, 1);
    assert_eq!(h[0].timestamp, Some(20));
    assert_eq!(h[0].added_columns, vec!["b".to_string()]);
    assert_eq!(h[1].version, 3);
    assert_eq!(h[1].removed_columns, vec!["a".to_string()]);
    assert_eq!(h[1].modified_columns[0].0, "b");
    assert!(SchemaTracker::current_schema(&[]).is_none());
}

#[test]
fn partition_key_does_not_depend_on_value_order() {
    let with = |pv: Vec<(&str, Option<&str>)>, path: &str| {
        Action::Add(AddAction {
            path: path.to_string(),
            size: 1,
            modification_time: 0,
            data_change: true,
            partition_values: pv.into_iter().map(|(k, v)| (k.to_string(), v.map(|s| s.to_string()))).collect(),
            stats: None,
            tags: None,
        })
    };
    let a = with(vec![("year", Some("2024")), ("month", Some("1"))], "a");
    let b = with(vec![("month", Some("1")), ("year", Some("2024"))], "b");
    let d = DiffAnalyzer::diff(0, &[], &[entry(1, vec![a, b])]);
    assert_eq!(d.new_partitions, vec!["month=1/year=2024".to_string()]);
}

#[test]
fn lineage_is_returned_in_ascending_version_order() {
    let entries = vec![
        entry(9, vec![Action::CommitInfo(commit_info(3, "WRITE"))]),
        entry(2, vec![Action::CommitInfo(commit_info(1, "DELETE"))]),
        entry(5, vec![add("x", 1, None)]),
        entry(2, vec![Action::CommitInfo(commit_info(2, "MERGE"))]),
    ];
    let l = LineageTracer::trace(&entries);
    assert_eq!(l.iter().map(|e| (e.version, e.timestamp)).collect::<Vec<_>>(), vec![(2, 1), (2, 2), (9, 3)]);
}

#[test]
fn diff_keeps_partitions_active_at_both_versions() {
    let before = vec![entry(0, vec![add("a", 1, Some(("d", "1")))])];
    let after = vec![entry(1, vec![Action::CommitInfo(commit_info(5, "WRITE"))])];
    let d = DiffAnalyzer::diff(0, &before, &after);
    assert!(d.new_partitions.is_empty());
    assert!(d.removed_partitions.is_empty());
}

#[test]
fn partitions_emptied_of_files_are_counted() {
    let entries = vec![
        entry(0, vec![add("a", 1, Some(("d", "1"))), add("b", 1, Some(("d", "2")))]),
        entry(1, vec![remove("a", Some(1), Some(("d", "1")))]),
    ];
    let s = HealthAnalyzer::analyze(&entries);
    assert_eq!(s.partition_count, 2);
    assert_eq!(s.empty_partition_count, 1);
    let moved = vec![
        entry(0, vec![add("a", 1, Some(("d", "1")))]),
        entry(1, vec![add("a", 1, None)]),
    ];
    assert_eq!(HealthAnalyzer::analyze(&moved).empty_partition_count, 1);
}
