use git_repo::batch::FailureKind;
use git_repo::git::{
    classify, extract_name, merge_step, resolve_credentials, AcceptedMethods, CredentialPlan, ErrorClass, ErrorCode,
    MergeStep,
};

#[test]
fn name_from_url_strips_git_suffix() {
    assert_eq!(extract_name("https://example.com/foo.git", &None), Some("foo".to_string()));
}

#[test]
fn name_from_url_without_suffix() {
    assert_eq!(extract_name("https://example.com/team/bar", &None), Some("bar".to_string()));
}

#[test]
fn name_ignores_trailing_slashes() {
    assert_eq!(extract_name("/srv/repos/baz.git//", &None), Some("baz".to_string()));
}

#[test]
fn name_keeps_inner_git_text() {
    assert_eq!(extract_name("git@host:me/dotgit.github.io", &None), Some("dotgit.github.io".to_string()));
}

#[test]
fn explicit_name_wins() {
    assert_eq!(
        extract_name("https://example.com/foo.git", &Some("mine".to_string())),
        Some("mine".to_string())
    );
}

#[test]
fn empty_explicit_name_falls_back_to_origin() {
    assert_eq!(extract_name("https://example.com/foo.git", &Some(String::new())), Some("foo".to_string()));
}

#[test]
fn unusable_origins_give_no_name() {
    assert_eq!(extract_name("", &None), None);
    assert_eq!(extract_name("/", &None), None);
    assert_eq!(extract_name("https://example.com/.git", &None), None);
    assert_eq!(extract_name("../..", &None), None);
    assert_eq!(extract_name("a/.", &None), None);
}

fn accepted(ssh_key: bool, default: bool, user_pass_plaintext: bool) -> AcceptedMethods {
    AcceptedMethods { ssh_key, default, user_pass_plaintext }
}

#[test]
fn ssh_key_without_hint_or_helper_uses_git() {
    let r = resolve_credentials(&accepted(true, false, false), &None, &None);
    assert!(matches!(r, CredentialPlan::SshAgent { ref username } if username == "git"));
}

#[test]
fn ssh_key_prefers_hint_then_helper() {
    let r = resolve_credentials(&accepted(true, true, true), &Some("alice".to_string()), &Some("bob".to_string()));
    assert!(matches!(r, CredentialPlan::SshAgent { ref username } if username == "alice"));
    let r = resolve_credentials(&accepted(true, false, false), &None, &Some("bob".to_string()));
    assert!(matches!(r, CredentialPlan::SshAgent { ref username } if username == "bob"));
}

#[test]
fn default_then_helper_then_unsupported() {
    assert!(matches!(resolve_credentials(&accepted(false, true, true), &None, &None), CredentialPlan::Default));
    assert!(matches!(resolve_credentials(&accepted(false, false, true), &None, &None), CredentialPlan::Helper));
    assert!(matches!(resolve_credentials(&accepted(false, false, false), &None, &None), CredentialPlan::Unsupported));
}

#[test]
fn resolution_keeps_nothing_between_challenges() {
    let first = resolve_credentials(&accepted(true, false, false), &Some("alice".to_string()), &None);
    assert!(matches!(first, CredentialPlan::SshAgent { ref username } if username == "alice"));
    let second = resolve_credentials(&accepted(true, false, false), &None, &None);
    assert!(matches!(second, CredentialPlan::SshAgent { ref username } if username == "git"));
}

#[test]
fn classify_git_failures() {
    assert!(classify(ErrorCode::Auth, ErrorClass::Ssh) == FailureKind::Authentication);
    assert!(classify(ErrorCode::Certificate, ErrorClass::Http) == FailureKind::Network);
    assert!(classify(ErrorCode::NotFastForward, ErrorClass::Repository) == FailureKind::Diverged);
    assert!(classify(ErrorCode::Conflict, ErrorClass::Other) == FailureKind::Diverged);
    assert!(classify(ErrorCode::Exists, ErrorClass::Os) == FailureKind::Filesystem);
    assert!(classify(ErrorCode::NotFound, ErrorClass::Repository) == FailureKind::Open);
    assert!(classify(ErrorCode::Other, ErrorClass::Net) == FailureKind::Network);
    assert!(classify(ErrorCode::Other, ErrorClass::Os) == FailureKind::Filesystem);
    assert!(classify(ErrorCode::NotFound, ErrorClass::Http) == FailureKind::Network);
}

#[test]
fn pull_outcomes_are_told_apart() {
    assert!(merge_step(true, false) == MergeStep::UpToDate);
    assert!(merge_step(true, true) == MergeStep::UpToDate);
    assert!(merge_step(false, true) == MergeStep::FastForward);
    assert!(merge_step(false, false) == MergeStep::Diverged);
}
