use git_repo::cfg::{Configuration, ConfigurationError, RegistryError, Repository};

fn repo(path: &str) -> Repository {
    Repository { path: path.to_string() }
}

fn empty() -> Configuration {
    Configuration::new("/tmp/git-repo/config.toml".to_string())
}

#[test]
fn insert_then_lookup() {
    let mut c = empty();
    assert!(c.insert("foo".to_string(), repo("/src/foo")).is_ok());
    assert!(c.contains("foo"));
    assert_eq!(c.get("foo").unwrap().path, "/src/foo");
    assert!(!c.contains("bar"));
    assert!(c.get("bar").is_none());
}

#[test]
fn insert_same_name_is_refused_without_change() {
    let mut c = empty();
    c.insert("foo".to_string(), repo("/src/foo")).unwrap_or(());
    let r = c.insert("foo".to_string(), repo("/src/other"));
    assert!(matches!(r, Err(RegistryError::NameConflict { ref name }) if name == "foo"));
    assert_eq!(c.get("foo").unwrap().path, "/src/foo");
    assert_eq!(c.to_document().len(), 1);
}

#[test]
fn insert_same_path_is_refused_without_change() {
    let mut c = empty();
    c.insert("foo".to_string(), repo("/src/foo")).unwrap_or(());
    let r = c.insert("bar".to_string(), repo("/src/foo"));
    assert!(matches!(r, Err(RegistryError::PathConflict { ref path }) if path == "/src/foo"));
    assert!(!c.contains("bar"));
    assert_eq!(c.to_document().len(), 1);
}

#[test]
fn name_conflict_is_checked_before_path_conflict() {
    let mut c = empty();
    c.insert("foo".to_string(), repo("/src/foo")).unwrap_or(());
    let r = c.insert("foo".to_string(), repo("/src/foo"));
    assert!(matches!(r, Err(RegistryError::NameConflict { .. })));
}

#[test]
fn remove_absent_name_finds_nothing() {
    let mut c = empty();
    c.insert("foo".to_string(), repo("/src/foo")).unwrap_or(());
    assert!(c.remove("bar").is_none());
    assert!(c.contains("foo"));
}

#[test]
fn remove_present_name_hands_back_its_repository() {
    let mut c = empty();
    c.insert("foo".to_string(), repo("/src/foo")).unwrap_or(());
    c.insert("bar".to_string(), repo("/src/bar")).unwrap_or(());
    let r = c.remove("foo");
    assert_eq!(r.unwrap().path, "/src/foo");
    assert!(!c.contains("foo"));
    assert_eq!(c.get("bar").unwrap().path, "/src/bar");
    assert!(c.remove("foo").is_none());
    // the path is free again
    assert!(c.insert("baz".to_string(), repo("/src/foo")).is_ok());
}

#[test]
fn document_round_trip() {
    let doc = vec![
        ("a".to_string(), "/src/a".to_string()),
        ("b".to_string(), "/src/b".to_string()),
        ("c".to_string(), "/src/c".to_string()),
    ];
    let c = Configuration::from_document("/etc/x".to_string(), doc.clone()).ok().unwrap();
    assert_eq!(c.config_path(), "/etc/x");
    let mut saved = c.to_document();
    saved.sort();
    assert_eq!(saved, doc);
    assert_eq!(c.get("b").unwrap().path, "/src/b");
}

#[test]
fn empty_document_gives_empty_registry() {
    let c = Configuration::from_document("/etc/x".to_string(), Vec::new()).ok().unwrap();
    assert!(c.to_document().is_empty());
    assert!(!c.contains(""));
}

#[test]
fn document_with_duplicate_name_is_refused() {
    let doc = vec![
        ("a".to_string(), "/src/a".to_string()),
        ("a".to_string(), "/src/b".to_string()),
    ];
    let r = Configuration::from_document("/etc/x".to_string(), doc);
    assert!(matches!(r, Err(ConfigurationError::DuplicateName { ref name }) if name == "a"));
}

#[test]
fn document_with_duplicate_path_is_refused() {
    let doc = vec![
        ("a".to_string(), "/src/a".to_string()),
        ("b".to_string(), "/src/a".to_string()),
    ];
    let r = Configuration::from_document("/etc/x".to_string(), doc);
    assert!(matches!(r, Err(ConfigurationError::DuplicatePath { ref path }) if path == "/src/a"));
}
