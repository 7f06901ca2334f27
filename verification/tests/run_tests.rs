use file_archiver::config::Config;
use file_archiver::digest::calculate_md5;
use file_archiver::run::{plan_file, process_batch, Candidate, RunOutcome};

fn config_of(raw: &[&str]) -> Config {
    let raw: Vec<String> = raw.iter().map(|s| s.to_string()).collect();
    Config::new(&raw)
}

fn readable(rel_path: &str, content: &[u8]) -> Candidate {
    Candidate {
        rel_path: rel_path.to_string(),
        content: Some(content.to_vec()),
    }
}

fn unreadable(rel_path: &str) -> Candidate {
    Candidate {
        rel_path: rel_path.to_string(),
        content: None,
    }
}

fn run(files: Vec<Candidate>, exts: &[&str]) -> RunOutcome {
    let config = config_of(exts);
    process_batch(&files, &config, "target/files_by_md5", "target/run")
}

#[test]
fn test_identical_content_stored_once() {
    let out = run(
        vec![
            readable("a.txt", b"hello"),
            readable("b.txt", b"hello"),
            readable("c.pdf", b"hello"),
        ],
        &["txt"],
    );

    assert_eq!(out.store_entries.len(), 1);
    assert_eq!(out.store_entries[0].0, "5d41402abc4b2a76b9719d911017c592");
    assert_eq!(out.store_entries[0].1, b"hello".to_vec());

    let entry_path = "target/files_by_md5/5d/5d41402abc4b2a76b9719d911017c592";
    assert_eq!(out.records.len(), 2);
    assert_eq!(out.records[0], ("target/run/a.txt".to_string(), entry_path.to_string()));
    assert_eq!(out.records[1], ("target/run/b.txt".to_string(), entry_path.to_string()));
    assert!(out.failed.is_empty());
}

#[test]
fn test_unaccepted_extension_untouched() {
    let out = run(vec![readable("report.pdf", b"data")], &["txt", "jpg"]);
    assert!(out.store_entries.is_empty());
    assert!(out.records.is_empty());
    assert!(out.failed.is_empty());
}

#[test]
fn test_no_extension_never_selected() {
    let out = run(
        vec![readable("README", b"data"), readable("trailing.", b"data")],
        &["txt"],
    );
    assert!(out.store_entries.is_empty());
    assert!(out.records.is_empty());
}

#[test]
fn test_hidden_files_never_processed() {
    let out = run(
        vec![
            readable(".hidden.txt", b"content"),
            readable("sub/.secret/deep.txt", b"content"),
            readable(".top/nested/file.txt", b"content"),
            readable("visible.txt", b"content"),
        ],
        &["txt"],
    );

    assert_eq!(out.store_entries.len(), 1);
    assert_eq!(out.records.len(), 1);
    assert_eq!(out.records[0].0, "target/run/visible.txt");
    assert!(out.failed.is_empty());
}

#[test]
fn test_empty_source_batch() {
    let out = run(Vec::new(), &["txt"]);
    assert!(out.store_entries.is_empty());
    assert!(out.records.is_empty());
    assert!(out.failed.is_empty());
}

#[test]
fn test_unreadable_file_reported_and_run_continues() {
    let out = run(
        vec![
            readable("first.txt", b"one"),
            unreadable("broken.txt"),
            readable("last.txt", b"two"),
        ],
        &["txt"],
    );

    assert_eq!(out.failed, vec!["broken.txt".to_string()]);
    assert_eq!(out.store_entries.len(), 2);
    assert_eq!(out.records.len(), 2);
    assert_eq!(out.records[0].0, "target/run/first.txt");
    assert_eq!(out.records[1].0, "target/run/last.txt");
}

#[test]
fn test_unreadable_unselected_file_not_reported() {
    let out = run(vec![unreadable(".broken.txt"), unreadable("broken.pdf")], &["txt"]);
    assert!(out.failed.is_empty());
}

#[test]
fn test_store_put_idempotent_across_sources() {
    let out = run(
        vec![readable("one/copy.txt", b"payload"), readable("two/copy.txt", b"payload")],
        &["txt"],
    );

    assert_eq!(out.store_entries.len(), 1);
    assert_eq!(out.records.len(), 2);
    assert_eq!(out.records[0].1, out.records[1].1);
}

#[test]
fn test_record_round_trip() {
    let out = run(
        vec![readable("doc/a.txt", b"alpha"), readable("doc/b.txt", b"beta")],
        &["txt"],
    );

    for (_, content) in &out.records {
        let (fp, bytes) = out
            .store_entries
            .iter()
            .find(|(fp, _)| content.ends_with(fp.as_str()))
            .expect("record points at a stored entry");
        assert_eq!(
            content,
            &format!("target/files_by_md5/{}/{}", &fp[..2], fp)
        );
        assert_eq!(&calculate_md5(bytes), fp);
    }
}

#[test]
fn test_nested_record_path() {
    let plan = plan_file("b/c.txt", &b"hello".to_vec(), "target/files_by_md5", "target/run");
    assert_eq!(plan.record_path, "target/run/b/c.txt");
    assert_eq!(plan.record_dir, "target/run/b");
    assert_eq!(plan.fingerprint, "5d41402abc4b2a76b9719d911017c592");
    assert_eq!(plan.shard_dir, "target/files_by_md5/5d");
    assert_eq!(
        plan.entry_path,
        "target/files_by_md5/5d/5d41402abc4b2a76b9719d911017c592"
    );
}
