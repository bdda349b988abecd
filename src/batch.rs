//! Batches: one operation applied to many repositories, each on its own.
use vstd::prelude::*;

verus! {

/// Why a target failed.
#[derive(Debug, PartialEq, Eq, Structural)]
pub enum FailureKind {
    /// Every credential strategy failed, or the method was not supported.
    Authentication,
    /// The transport could not fetch or clone.
    Network,
    /// A pull would need a manual merge.
    Diverged,
    /// A directory could not be created, read or deleted.
    Filesystem,
    /// The path holds no repository.
    Open,
    /// A command run in the repository failed.
    Command,
    /// The batch was stopped before the target finished.
    Cancelled,
}

/// How one target ended.
#[derive(Debug)]
pub enum Outcome {
    Succeeded { detail: String },
    Failed { kind: FailureKind, message: String },
}

/// One repository a batch runs on.
#[derive(Debug)]
pub struct Target {
    pub name: String,
    pub path: String,
}

/// The operation a batch applies to each target.
#[derive(Debug, Clone)]
pub enum Operation {
    Pull,
    Status { strip: bool },
    Sync,
    ForEach { command: String },
}

/// Number of failed outcomes.
pub open spec fn count_failed(s: Seq<Outcome>) -> nat
    decreases s.len(),
{
    if s.len() == 0 {
        0
    } else {
        count_failed(s.drop_last()) + if s.last() is Failed {
            1nat
        } else {
            0nat
        }
    }
}

/// `x` is what a finished batch reports for a target whose slot holds `o`:
/// its outcome, or a cancellation when it never finished.
pub open spec fn reported(o: Option<Outcome>, x: Outcome) -> bool {
    match o {
        Some(y) => x == y,
        None => x matches Outcome::Failed { kind: FailureKind::Cancelled, message: m } && m@
            == cancelled_message(),
    }
}

pub open spec fn cancelled_message() -> Seq<char> {
    seq!['c', 'a', 'n', 'c', 'e', 'l', 'l', 'e', 'd']
}

/// Names and paths of a list of targets.
pub open spec fn target_records(s: Seq<Target>) -> Seq<(Seq<char>, Seq<char>)> {
    s.map_values(|t: Target| (t.name@, t.path@))
}

/// A batch under way: each target pending until its outcome is recorded.
#[derive(Debug)]
pub struct Batch {
    operation: Operation,
    targets: Vec<Target>,
    outcomes: Vec<Option<Outcome>>,
}

/// A finished batch: every target with its outcome, in the batch's order.
#[derive(Debug)]
pub struct BatchReport {
    pub targets: Vec<Target>,
    pub outcomes: Vec<Outcome>,
}

impl Batch {
    /// The batch's targets, as names and paths.
    pub closed spec fn targets(&self) -> Seq<(Seq<char>, Seq<char>)> {
        target_records(self.targets@)
    }

    /// The outcome recorded for each target; `None` while it is pending.
    pub closed spec fn outcomes(&self) -> Seq<Option<Outcome>> {
        self.outcomes@
    }

    /// The operation applied to each target.
    pub closed spec fn spec_operation(&self) -> Operation {
        self.operation
    }

    /// The operation applied to each target.
    pub fn operation(&self) -> (r: &Operation)
        ensures
            *r == self.spec_operation(),
    {
        &self.operation
    }

    /// Every target has one slot for its outcome.
    pub closed spec fn wf(&self) -> bool {
        self.outcomes@.len() == self.targets@.len()
    }

    /// A batch of `targets`, all pending.
    pub fn new(operation: Operation, targets: Vec<Target>) -> (r: Batch)
        ensures
            r.wf(),
            r.spec_operation() == operation,
            r.targets() == target_records(targets@),
            r.outcomes() == Seq::new(targets@.len(), |i: int| None::<Outcome>),
    {
        let mut outcomes: Vec<Option<Outcome>> = Vec::new();
        let mut i: usize = 0;
        while i < targets.len()
            invariant
                i <= targets.len(),
                outcomes@ =~= Seq::new(i as nat, |k: int| None::<Outcome>),
            decreases targets.len() - i,
        {
            outcomes.push(None);
            i += 1;
        }
        Batch { operation, targets, outcomes }
    }

    /// Number of targets.
    pub fn len(&self) -> (r: usize)
        ensures
            r == self.targets().len(),
    {
        self.targets.len()
    }

    /// The target at `i`.
    pub fn target(&self, i: usize) -> (r: &Target)
        requires
            i < self.targets().len(),
        ensures
            (r.name@, r.path@) == self.targets()[i as int],
    {
        &self.targets[i]
    }

    /// The first target still pending, if any.
    pub fn next_pending(&self) -> (r: Option<usize>)
        requires
            self.wf(),
        ensures
            r matches Some(i) ==> i < self.outcomes().len() && self.outcomes()[i as int] is None && forall|
                j: int,
            | 0 <= j < i ==> #[trigger] self.outcomes()[j] is Some,
            r is None ==> forall|j: int| 0 <= j < self.outcomes().len() ==> #[trigger] self.outcomes()[j] is Some,
    {
        let mut i: usize = 0;
        while i < self.outcomes.len()
            invariant
                i <= self.outcomes@.len(),
                forall|j: int| 0 <= j < i ==> #[trigger] self.outcomes()[j] is Some,
            decreases self.outcomes.len() - i,
        {
            if self.outcomes[i].is_none() {
                return Some(i);
            }
            i += 1;
        }
        None
    }

    /// Records how the pending target at `i` ended. A target ends once: a
    /// failed one is not retried within the batch.
    pub fn record(&mut self, i: usize, outcome: Outcome)
        requires
            old(self).wf(),
            i < old(self).outcomes().len(),
            old(self).outcomes()[i as int] is None,
        ensures
            final(self).wf(),
            final(self).spec_operation() == old(self).spec_operation(),
            final(self).targets() == old(self).targets(),
            final(self).outcomes().len() == final(self).targets().len(),
            final(self).outcomes() == old(self).outcomes().update(i as int, Some(outcome)),
    {
        self.outcomes.set(i, Some(outcome));
    }

    /// Ends the batch. A target that never finished is reported as cancelled;
    /// every other keeps its outcome.
    pub fn finish(self) -> (r: BatchReport)
        requires
            self.wf(),
        ensures
            target_records(r.targets@) == self.targets(),
            r.outcomes@.len() == self.outcomes().len(),
            r.outcomes@.len() == r.targets@.len(),
            forall|i: int| 0 <= i < r.outcomes@.len() ==> reported(self.outcomes()[i], #[trigger] r.outcomes@[i]),
    {
        let Batch { operation: _, targets, outcomes } = self;
        let ghost all = outcomes@;
        let mut rest = outcomes;
        let mut done: Vec<Outcome> = Vec::new();
        let n = rest.len();
        while rest.len() > 0
            invariant
                n == all.len(),
                rest@.len() + done@.len() == n,
                rest@ == all.subrange(done@.len() as int, n as int),
                forall|i: int| 0 <= i < done@.len() ==> reported(all[i], #[trigger] done@[i]),
            decreases rest.len(),
        {
            let k = done.len();
            let o = rest.remove(0);
            let x = match o {
                Some(x) => x,
                None => {
                    proof {
                        reveal_strlit("cancelled");
                    }
                    let message = String::from_str("cancelled");
                    assert(message@ =~= cancelled_message());
                    Outcome::Failed { kind: FailureKind::Cancelled, message }
                },
            };
            assert(reported(all[k as int], x));
            done.push(x);
        }
        BatchReport { targets, outcomes: done }
    }
}

impl BatchReport {
    /// Number of failed targets.
    pub fn failed_count(&self) -> (r: usize)
        ensures
            r == count_failed(self.outcomes@),
    {
        let mut count: usize = 0;
        let mut i: usize = 0;
        while i < self.outcomes.len()
            invariant
                i <= self.outcomes@.len(),
                count == count_failed(self.outcomes@.subrange(0, i as int)),
                count <= i,
            decreases self.outcomes.len() - i,
        {
            assert(self.outcomes@.subrange(0, i + 1).drop_last() =~= self.outcomes@.subrange(0, i as int));
            if let Outcome::Failed { .. } = &self.outcomes[i] {
                count += 1;
            }
            i += 1;
        }
        assert(self.outcomes@.subrange(0, i as int) =~= self.outcomes@);
        count
    }

    /// Whether the batch failed: some target failed.
    pub fn is_failure(&self) -> (r: bool)
        ensures
            r == (count_failed(self.outcomes@) > 0),
            r == exists|i: int| 0 <= i < self.outcomes@.len() && #[trigger] self.outcomes@[i] is Failed,
    {
        proof {
            lemma_batch_status(self.outcomes@);
        }
        self.failed_count() > 0
    }
}

/// A batch fails exactly when one of its targets failed, and no more
/// targets are counted failed than there are.
pub proof fn lemma_batch_status(s: Seq<Outcome>)
    ensures
        count_failed(s) <= s.len(),
        count_failed(s) > 0 <==> exists|i: int| 0 <= i < s.len() && #[trigger] s[i] is Failed,
    decreases s.len(),
{
    if s.len() > 0 {
        lemma_batch_status(s.drop_last());
        if exists|i: int| 0 <= i < s.drop_last().len() && #[trigger] s.drop_last()[i] is Failed {
            let i = choose|i: int| 0 <= i < s.drop_last().len() && #[trigger] s.drop_last()[i] is Failed;
            assert(s[i] is Failed);
        }
        if exists|i: int| 0 <= i < s.len() && #[trigger] s[i] is Failed {
            let i = choose|i: int| 0 <= i < s.len() && #[trigger] s[i] is Failed;
            if i < s.len() - 1 {
                assert(s.drop_last()[i] is Failed);
            }
        }
    }
}

/// How a command run in a repository ended: a command that could not be
/// started failed on the filesystem, one that exited unsuccessfully failed
/// as a command, and otherwise it succeeded; `output` is kept either way.
pub fn command_outcome(started: bool, success: bool, output: String) -> (r: Outcome)
    ensures
        !started ==> (r matches Outcome::Failed { kind: FailureKind::Filesystem, message: m } && m@ == output@),
        started && !success ==> (r matches Outcome::Failed { kind: FailureKind::Command, message: m } && m@
            == output@),
        started && success ==> (r matches Outcome::Succeeded { detail: d } && d@ == output@),
{
    if !started {
        Outcome::Failed { kind: FailureKind::Filesystem, message: output }
    } else if !success {
        Outcome::Failed { kind: FailureKind::Command, message: output }
    } else {
        Outcome::Succeeded { detail: output }
    }
}

/// The outcomes held by slots that are all filled.
pub open spec fn recorded(slots: Seq<Option<Outcome>>) -> Seq<Outcome> {
    slots.map_values(|o: Option<Outcome>| o.unwrap())
}

/// A batch of N targets, each with a recorded outcome, K of them failures,
/// reports N outcomes, exactly the recorded ones, so exactly K failed; and
/// the batch has failed exactly when K > 0.
pub proof fn lemma_batch_report(slots: Seq<Option<Outcome>>, report: Seq<Outcome>, k: nat)
    requires
        forall|i: int| 0 <= i < slots.len() ==> #[trigger] slots[i] is Some,
        count_failed(recorded(slots)) == k,
        report.len() == slots.len(),
        forall|i: int| 0 <= i < report.len() ==> reported(slots[i], #[trigger] report[i]),
    ensures
        report == recorded(slots),
        count_failed(report) == k,
        k > 0 <==> exists|i: int| 0 <= i < report.len() && #[trigger] report[i] is Failed,
{
    assert forall|i: int| 0 <= i < report.len() implies report[i] == recorded(slots)[i] by {
        assert(slots[i] is Some);
        assert(reported(slots[i], report[i]));
    }
    assert(report =~= recorded(slots));
    lemma_batch_status(report);
}

} // verus!
