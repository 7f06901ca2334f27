use file_archiver::config::Config;

fn config_of(raw: &[&str]) -> Config {
    let raw: Vec<String> = raw.iter().map(|s| s.to_string()).collect();
    Config::new(&raw)
}

#[test]
fn test_valid_config() {
    let config = config_of(&["txt", "jpg", "pdf"]);

    assert_eq!(config.extensions.len(), 3);
    assert!(config.accepts("txt"));
    assert!(config.accepts("jpg"));
    assert!(config.accepts("pdf"));
}

#[test]
fn test_case_insensitive_extensions() {
    let config = config_of(&["TXT", "JPG", "PDF"]);

    assert!(config.accepts("txt"));
    assert!(config.accepts("jpg"));
    assert!(config.accepts("pdf"));
}

#[test]
fn test_empty_extensions() {
    let config = config_of(&[]);
    assert!(config.extensions.is_empty());
}

#[test]
fn test_duplicate_extensions() {
    let config = config_of(&["txt", "TXT", "txt"]);
    assert_eq!(config.extensions.len(), 1);
    assert!(config.accepts("txt"));
}

#[test]
fn test_extensions_stored_lowercase() {
    let config = config_of(&["TXT", "Jpg"]);
    assert_eq!(config.extensions, vec!["txt".to_string(), "jpg".to_string()]);
}

#[test]
fn test_accepts_is_case_insensitive() {
    let config = config_of(&["txt"]);
    assert!(config.accepts("TXT"));
    assert!(config.accepts("tXt"));
    assert!(!config.accepts("pdf"));
}
