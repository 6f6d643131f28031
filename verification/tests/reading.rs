use deltalens::engine::parser::commit::{is_unknown_action, CommitParser};
use deltalens::engine::reader::{current_version, extract_version, select_log_files, take_last};
use deltalens::error::DeltaLensError;

fn commit_name(v: u64) -> String {
    format!("{:020}.json", v)
}

fn versions(files: &[(u64, usize)]) -> Vec<u64> {
    files.iter().map(|(v, _)| *v).collect()
}

#[test]
fn test_discovers_commits_in_order() {
    let names = vec![commit_name(2), commit_name(0), commit_name(1)];
    let files = select_log_files(&names, None, None);
    assert_eq!(files.len(), 3);
    assert_eq!(files[0].0, 0);
    assert_eq!(files[2].0, 2);
    assert_eq!(names[files[0].1], commit_name(0));
}

#[test]
fn test_version_range_filter() {
    let names: Vec<String> = (0..10).map(commit_name).collect();
    let files = select_log_files(&names, Some(3), Some(6));
    assert_eq!(files.len(), 4);
    assert_eq!(files[0].0, 3);
    assert_eq!(files[3].0, 6);
}

#[test]
fn test_read_last() {
    let names: Vec<String> = (0..10).rev().map(commit_name).collect();
    let files = select_log_files(&names, None, None);
    let last = take_last(&files, 3);
    assert_eq!(last.len(), 3);
    assert_eq!(last[0].0, 7);
    assert_eq!(last[2].0, 9);
}

#[test]
fn log_listing_skips_checkpoints_and_other_files() {
    let names = vec![
        commit_name(1),
        "00000000000000000010.checkpoint.parquet".to_string(),
        "_last_checkpoint".to_string(),
        "notes.json".to_string(),
        commit_name(0),
        ".json".to_string(),
    ];
    let files = select_log_files(&names, None, None);
    assert_eq!(versions(&files), vec![0, 1]);
}

#[test]
fn log_listing_open_ended_ranges() {
    let names: Vec<String> = (0..6).map(commit_name).collect();
    assert_eq!(versions(&select_log_files(&names, Some(4), None)), vec![4, 5]);
    assert_eq!(versions(&select_log_files(&names, None, Some(1))), vec![0, 1]);
    assert!(select_log_files(&names, Some(5), Some(4)).is_empty());
}

#[test]
fn take_last_beyond_length_takes_everything() {
    let files = vec![(0u64, 0usize), (1, 1)];
    assert_eq!(take_last(&files, 5), files);
    assert!(take_last(&files, 0).is_empty());
}

#[test]
fn version_is_read_from_the_file_stem() {
    assert_eq!(extract_version("00000000000000000142.json"), Some(142));
    assert_eq!(extract_version("+7.json"), Some(7));
    assert_eq!(extract_version("18446744073709551615.json"), Some(u64::MAX));
    assert_eq!(extract_version("18446744073709551616.json"), None);
    assert_eq!(extract_version("00000000000000000001.crc"), None);
    assert_eq!(extract_version("abc.json"), None);
    assert_eq!(extract_version(".json"), None);
    assert_eq!(extract_version("json"), None);
    assert_eq!(extract_version("1.2.json"), None);
}

#[test]
fn current_version_is_the_last_listed() {
    let names: Vec<String> = vec![commit_name(3), commit_name(8), commit_name(5)];
    let files = select_log_files(&names, None, None);
    assert_eq!(current_version(&files).unwrap(), 8);
    assert!(files.iter().all(|f| f.0 <= 8));
    assert!(matches!(current_version(&vec![]), Err(DeltaLensError::EmptyTable)));
}

#[test]
fn test_skips_empty_lines() {
    let data = b"{\"a\":1}\n\n   \n{\"b\":2}\r\n\t\n";
    let lines = CommitParser::split_lines(data);
    assert_eq!(lines, vec![(0, Some("{\"a\":1}".to_string())), (3, Some("{\"b\":2}".to_string()))]);

    let add = r#"{"add":{"path":"p.parquet","size":100,"modificationTime":0,"dataChange":true,"partitionValues":{}}}"#;
    let file = format!("\n{}\n", add);
    let lines = CommitParser::split_lines(file.as_bytes());
    assert_eq!(lines.len(), 1);
    assert_eq!(lines, vec![(1, Some(add.to_string()))]);
}

#[test]
fn split_lines_of_empty_input_is_empty() {
    assert!(CommitParser::split_lines(b"").is_empty());
    assert!(CommitParser::split_lines(b"\n\n").is_empty());
}

#[test]
fn split_lines_keeps_last_line_without_newline() {
    let lines = CommitParser::split_lines(b"x\ny");
    assert_eq!(lines, vec![(0, Some("x".to_string())), (1, Some("y".to_string()))]);
}

#[test]
fn split_lines_marks_invalid_utf8_lines_for_skipping() {
    let data: &[u8] = &[b'o', b'k', b'\n', 0xff, 0xfe, b'\n', b'x'];
    assert_eq!(
        CommitParser::split_lines(data),
        vec![(0, Some("ok".to_string())), (1, None), (2, Some("x".to_string()))]
    );
}

#[test]
fn split_lines_decodes_multibyte_text() {
    let lines = CommitParser::split_lines("{\"n\":\"é\"}\n".as_bytes());
    assert_eq!(lines, vec![(0, Some("{\"n\":\"é\"}".to_string()))]);
}

#[test]
fn unknown_action_kinds_are_recognised_by_message() {
    assert!(is_unknown_action(
        "unknown variant `unknownFutureAction`, expected one of `add`, `remove` at line 1 column 22"
    ));
    assert!(!is_unknown_action("expected value at line 1 column 1"));
    assert!(!is_unknown_action(""));
}

#[test]
fn split_lines_of_two_parts_follow_each_other() {
    let a: &[u8] = b"{\"a\":1}\n  \n";
    let b: &[u8] = b"{\"b\":2}\n\xff";
    let whole = [a, b].concat();
    let mut expected = CommitParser::split_lines(a);
    let shift = 2;
    expected.extend(CommitParser::split_lines(b).into_iter().map(|(i, t)| (i + shift, t)));
    assert_eq!(CommitParser::split_lines(&whole), expected);
    assert_eq!(expected, vec![(0, Some("{\"a\":1}".to_string())), (2, Some("{\"b\":2}".to_string())), (3, None)]);
}

#[test]
fn joining_two_files_with_a_line_break_keeps_both_lines_in_order() {
    let texts = |d: &[u8]| -> Vec<Option<String>> {
        CommitParser::split_lines(d).into_iter().map(|(_, t)| t).collect()
    };
    for (a, b) in [
        (&b"{\"a\":1}"[..], &b"{\"b\":2}\n"[..]),
        (&b"{\"a\":1}\n"[..], &b"\xfe\n{\"b\":2}"[..]),
        (&b""[..], &b"{\"b\":2}"[..]),
    ] {
        let whole = [a, b"\n", b].concat();
        let mut expected = texts(a);
        expected.extend(texts(b));
        assert_eq!(texts(&whole), expected);
    }
}
