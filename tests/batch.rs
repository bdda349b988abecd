use git_repo::batch::{Batch, FailureKind, Operation, Outcome, Target};

fn targets(n: usize) -> Vec<Target> {
    (0..n).map(|i| Target { name: format!("r{}", i), path: format!("/src/r{}", i) }).collect()
}

fn ok() -> Outcome {
    Outcome::Succeeded { detail: String::new() }
}

fn failed(kind: FailureKind) -> Outcome {
    Outcome::Failed { kind, message: "boom".to_string() }
}

#[test]
fn n_targets_k_failures() {
    let mut b = Batch::new(Operation::Pull, targets(5));
    b.record(0, ok());
    b.record(1, failed(FailureKind::Network));
    b.record(2, ok());
    b.record(3, failed(FailureKind::Authentication));
    b.record(4, ok());
    let r = b.finish();
    assert_eq!(r.outcomes.len(), 5);
    assert_eq!(r.targets.len(), 5);
    assert_eq!(r.failed_count(), 2);
    assert!(r.is_failure());
}

#[test]
fn batch_without_failures_succeeds() {
    let mut b = Batch::new(Operation::Sync, targets(3));
    for i in 0..3 {
        b.record(i, ok());
    }
    let r = b.finish();
    assert_eq!(r.outcomes.len(), 3);
    assert_eq!(r.failed_count(), 0);
    assert!(!r.is_failure());
}

#[test]
fn empty_batch_succeeds() {
    let b = Batch::new(Operation::Status { strip: false }, Vec::new());
    assert_eq!(b.len(), 0);
    assert_eq!(b.next_pending(), None);
    let r = b.finish();
    assert!(r.outcomes.is_empty());
    assert!(!r.is_failure());
}

#[test]
fn unfinished_targets_are_cancelled() {
    let mut b = Batch::new(Operation::ForEach { command: "ls".to_string() }, targets(3));
    b.record(1, ok());
    assert_eq!(b.next_pending(), Some(0));
    let r = b.finish();
    assert_eq!(r.outcomes.len(), 3);
    assert!(matches!(r.outcomes[0], Outcome::Failed { kind: FailureKind::Cancelled, ref message } if message == "cancelled"));
    assert!(matches!(r.outcomes[1], Outcome::Succeeded { .. }));
    assert!(matches!(r.outcomes[2], Outcome::Failed { kind: FailureKind::Cancelled, .. }));
    assert_eq!(r.failed_count(), 2);
    assert!(r.is_failure());
    assert_eq!(r.targets[2].name, "r2");
}

#[test]
fn outcomes_may_arrive_in_any_order() {
    let mut b = Batch::new(Operation::Pull, targets(3));
    b.record(2, failed(FailureKind::Diverged));
    b.record(0, ok());
    assert_eq!(b.next_pending(), Some(1));
    b.record(1, ok());
    let r = b.finish();
    assert!(matches!(r.outcomes[2], Outcome::Failed { kind: FailureKind::Diverged, .. }));
    assert_eq!(r.failed_count(), 1);
}
