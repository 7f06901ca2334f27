use chrono::Local;
use file_archiver::config::Config;
use file_archiver::filter::has_extension;
use file_archiver::paths::{is_hidden, join_path, parent_of};
use file_archiver::snapshot::{create_timestamp_dir, plan_record, relative_to};
use file_archiver::store::{store_paths, store_root_path};
use file_archiver::text::to_lowercase;
use tempfile::{NamedTempFile, TempDir};

fn config_of(raw: &[&str]) -> Config {
    let raw: Vec<String> = raw.iter().map(|s| s.to_string()).collect();
    Config::new(&raw)
}

#[test]
fn test_create_timestamp_dir() {
    let temp_dir = TempDir::new().unwrap();
    let timestamp_dir = create_timestamp_dir(temp_dir.path().to_str().unwrap());

    assert!(timestamp_dir.contains(Local::now().format("%Y%m%d").to_string().as_str()));
}

#[test]
fn test_has_extension() {
    let temp_file = NamedTempFile::new().unwrap();
    let path = temp_file.path().with_extension("txt");
    let extensions = config_of(&["txt", "jpg"]);

    assert!(has_extension(path.to_str().unwrap(), &extensions));
    assert!(!has_extension(
        path.with_extension("pdf").to_str().unwrap(),
        &extensions
    ));
    assert!(!has_extension(
        path.with_extension("").to_str().unwrap(),
        &extensions
    ));
}

#[test]
fn test_has_extension_needs_a_dot_after_the_name() {
    let extensions = config_of(&["txt", ""]);
    assert!(has_extension("notes.txt", &extensions));
    assert!(!has_extension("txt", &extensions));
    assert!(!has_extension(".txt", &extensions));
    assert!(has_extension("dir/notes.TXT", &extensions));
    assert!(has_extension("trailing.", &extensions));
    assert!(!has_extension("plain", &extensions));
}

#[test]
fn test_is_hidden_components() {
    assert!(is_hidden(".hidden"));
    assert!(is_hidden(".hidden.txt"));
    assert!(is_hidden("sub/.secret/file.txt"));
    assert!(is_hidden(".top/file.txt"));
    assert!(!is_hidden("normal"));
    assert!(!is_hidden("a/b/c.txt"));
    assert!(!is_hidden("dotted.name/file.txt"));
}

#[test]
fn test_to_lowercase_folds_ascii_only() {
    assert_eq!(to_lowercase("AbC.TXT"), "abc.txt");
    assert_eq!(to_lowercase("already"), "already");
    assert_eq!(to_lowercase(""), "");
}

#[test]
fn test_join_and_parent() {
    let joined = join_path("base/dir", "sub/file.txt");
    assert_eq!(joined, "base/dir/sub/file.txt");
    assert_eq!(parent_of(&joined), "base/dir/sub");
    assert_eq!(parent_of("file.txt"), "");
}

#[test]
fn test_store_paths_sharding() {
    let (shard_dir, entry_path) = store_paths("t/files_by_md5", "098f6bcd4621d373cade4e832627b4f6");
    assert_eq!(shard_dir, "t/files_by_md5/09");
    assert_eq!(
        entry_path,
        "t/files_by_md5/09/098f6bcd4621d373cade4e832627b4f6"
    );
}

#[test]
fn test_store_root_path() {
    assert_eq!(store_root_path("target"), "target/files_by_md5");
}

#[test]
fn test_relative_to() {
    assert_eq!(relative_to("a/b/c.txt", "a").unwrap(), "b/c.txt");
    assert_eq!(relative_to("a/b/c.txt", "a/b").unwrap(), "c.txt");
    assert_eq!(relative_to("a/b", "a/b").unwrap(), "");
}

#[test]
fn test_relative_to_outside_root_is_an_error() {
    let err = relative_to("x/y.txt", "z").unwrap_err();
    assert_eq!(err.path, "x/y.txt");
    assert_eq!(err.base, "z");
    assert!(relative_to("abc/file.txt", "ab").is_err());
}

#[test]
fn test_plan_record_nested() {
    let plan = plan_record("source/nested/dir/file.txt", "source", "target/run").unwrap();
    assert_eq!(plan.record_path, "target/run/nested/dir/file.txt");
    assert_eq!(plan.record_dir, "target/run/nested/dir");
}

#[test]
fn test_plan_record_invalid_base() {
    let result = plan_record("elsewhere/file.txt", "/invalid/base", "target/run");
    assert!(result.is_err());
}
