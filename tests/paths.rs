use git_repo::batch::{command_outcome, FailureKind, Outcome};
use git_repo::path::normalize;

#[test]
fn normalize_drops_empty_and_dot_segments() {
    assert_eq!(normalize("/w/foo/"), "/w/foo");
    assert_eq!(normalize("/w/./foo"), "/w/foo");
    assert_eq!(normalize("//w//foo//"), "/w/foo");
    assert_eq!(normalize("/w/foo/."), "/w/foo");
}

#[test]
fn normalize_resolves_parent_segments() {
    assert_eq!(normalize("/w/sub/../foo"), "/w/foo");
    assert_eq!(normalize("/../w"), "/w");
    assert_eq!(normalize("/w/.."), "/");
    assert_eq!(normalize("/w/..."), "/w/...");
}

#[test]
fn normalize_of_root_and_empty() {
    assert_eq!(normalize("/"), "/");
    assert_eq!(normalize(""), "/");
    assert_eq!(normalize("a/b"), "/a/b");
}

#[test]
fn command_outcomes() {
    assert!(matches!(command_outcome(true, true, "out".to_string()), Outcome::Succeeded { ref detail } if detail == "out"));
    assert!(matches!(
        command_outcome(true, false, "exit 1".to_string()),
        Outcome::Failed { kind: FailureKind::Command, ref message } if message == "exit 1"
    ));
    assert!(matches!(
        command_outcome(false, false, "no such file".to_string()),
        Outcome::Failed { kind: FailureKind::Filesystem, ref message } if message == "no such file"
    ));
}
