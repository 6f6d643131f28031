use deltalens::cli::commands::config::{parse_setting, Setting};
use deltalens::engine::storage::{
    bucket_name, dir_key, key_of, object_key, object_uri, parse_storage_uri, LocalStorage, StorageTarget,
};

#[test]
fn s3_uris_name_bucket_prefix_and_root() {
    match parse_storage_uri("  s3://my-bucket/data/transactions/  ") {
        StorageTarget::S3 { bucket, prefix, display_uri, root } => {
            assert_eq!(bucket, "my-bucket");
            assert_eq!(prefix, "data/transactions");
            assert_eq!(display_uri, "s3://my-bucket/data/transactions/");
            assert_eq!(root, "s3://my-bucket/data/transactions");
        }
        other => panic!("unexpected {:?}", other),
    }
    match parse_storage_uri("s3://bucket-only") {
        StorageTarget::S3 { bucket, prefix, .. } => {
            assert_eq!(bucket, "bucket-only");
            assert_eq!(prefix, "");
        }
        other => panic!("unexpected {:?}", other),
    }
}

#[test]
fn file_uris_and_bare_paths_are_local() {
    match parse_storage_uri("file:///tmp/table") {
        StorageTarget::Local { path } => assert_eq!(path, "/tmp/table"),
        other => panic!("unexpected {:?}", other),
    }
    match parse_storage_uri("./relative/table") {
        StorageTarget::Local { path } => assert_eq!(path, "./relative/table"),
        other => panic!("unexpected {:?}", other),
    }
}

#[test]
fn object_keys_join_prefix_and_subpath() {
    assert_eq!(object_key("data/t", "_delta_log"), "data/t/_delta_log");
    assert_eq!(object_key("data/t", "//_delta_log"), "data/t/_delta_log");
    assert_eq!(object_key("data/t", ""), "data/t");
    assert_eq!(object_key("", "/_delta_log/x.json"), "_delta_log/x.json");
}

#[test]
fn bucket_and_key_of_s3_uris() {
    assert_eq!(bucket_name("s3://b/x/y"), "b");
    assert_eq!(bucket_name("s3://b"), "b");
    assert_eq!(bucket_name("/local/path"), "unknown");
    assert_eq!(key_of("s3://b/x/y.json"), "x/y.json");
    assert_eq!(key_of("s3://b"), "s3://b");
    assert_eq!(key_of("x/y.json"), "x/y.json");
}

#[test]
fn directory_keys_and_object_uris() {
    assert_eq!(dir_key("data/t//"), "data/t/");
    assert_eq!(dir_key("data/t"), "data/t/");
    assert_eq!(dir_key(""), "/");
    assert_eq!(object_uri("b", "data/t/_delta_log/0.json"), "s3://b/data/t/_delta_log/0.json");
}

#[test]
fn local_storage_keeps_its_root() {
    let s = LocalStorage::new("/data/table".to_string());
    assert_eq!(s.root_display(), "/data/table");
}

#[test]
fn config_settings_parse() {
    assert_eq!(parse_setting("telemetry", "true"), Setting::Telemetry(true));
    assert_eq!(parse_setting("telemetry", "yes"), Setting::Telemetry(true));
    assert_eq!(parse_setting("telemetry", "1"), Setting::Telemetry(true));
    assert_eq!(parse_setting("telemetry", "no"), Setting::Telemetry(false));
    assert_eq!(parse_setting("telemetry", "0"), Setting::Telemetry(false));
    assert_eq!(parse_setting("telemetry", "TRUE"), Setting::BadValue);
    assert_eq!(parse_setting("color", "true"), Setting::UnknownKey);
}
