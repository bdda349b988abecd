//! Naming of clones and the choice of credentials for a transport challenge.
use vstd::prelude::*;
use crate::batch::FailureKind;

verus! {

/// `s` without its trailing slashes.
pub open spec fn trim_slashes(s: Seq<char>) -> Seq<char>
    decreases s.len(),
{
    if s.len() > 0 && s.last() == '/' {
        trim_slashes(s.drop_last())
    } else {
        s
    }
}

/// What follows the last slash of `s` (all of `s` when it has none).
pub open spec fn last_segment(s: Seq<char>) -> Seq<char>
    decreases s.len(),
{
    if s.len() == 0 {
        s
    } else if s.last() == '/' {
        Seq::empty()
    } else {
        last_segment(s.drop_last()).push(s.last())
    }
}

/// The suffix `.git`.
pub open spec fn git_suffix() -> Seq<char> {
    seq!['.', 'g', 'i', 't']
}

/// `s` without a trailing `.git`.
pub open spec fn strip_git_suffix(s: Seq<char>) -> Seq<char> {
    if s.len() >= 4 && s.subrange(s.len() - 4, s.len() as int) == git_suffix() {
        s.subrange(0, s.len() - 4)
    } else {
        s
    }
}

/// The name an origin gives: its last path segment without `.git`. A
/// segment `.` or `..`, or one that leaves nothing, gives no name.
pub open spec fn derived_name(origin: Seq<char>) -> Option<Seq<char>> {
    let seg = last_segment(trim_slashes(origin));
    let n = strip_git_suffix(seg);
    if seg == seq!['.'] || seg == seq!['.', '.'] || n.len() == 0 {
        None
    } else {
        Some(n)
    }
}

/// The text an optional string holds.
pub open spec fn text_of(s: Option<String>) -> Option<Seq<char>> {
    match s {
        Some(t) => Some(t@),
        None => None,
    }
}

/// An explicit non-empty name wins; else the name the origin gives.
pub open spec fn chosen_name(origin: Seq<char>, name: Option<Seq<char>>) -> Option<Seq<char>> {
    match name {
        Some(n) => if n.len() > 0 {
            Some(n)
        } else {
            derived_name(origin)
        },
        None => derived_name(origin),
    }
}

proof fn lemma_trim_step(s: Seq<char>, end: int)
    requires
        0 < end <= s.len(),
        s[end - 1] == '/',
    ensures
        trim_slashes(s.subrange(0, end)) == trim_slashes(s.subrange(0, end - 1)),
{
    assert(s.subrange(0, end).drop_last() =~= s.subrange(0, end - 1));
}

proof fn lemma_segment_step(t: Seq<char>, start: int)
    requires
        0 < start <= t.len(),
        t[start - 1] != '/',
    ensures
        last_segment(t.subrange(0, start)) == last_segment(t.subrange(0, start - 1)).push(t[start - 1]),
{
    assert(t.subrange(0, start).drop_last() =~= t.subrange(0, start - 1));
}

/// The name of a repository: `name` when it is given and not empty, else
/// the last path segment of `origin` without a trailing `.git`.
pub fn extract_name(origin: &str, name: &Option<String>) -> (r: Option<String>)
    ensures
        r matches Some(s) ==> chosen_name(origin@, text_of(*name)) == Some(s@),
        r is None ==> chosen_name(origin@, text_of(*name)) is None,
{
    if let Some(n) = name {
        if n.as_str().unicode_len() > 0 {
            return Some(n.clone());
        }
    }
    let ghost s = origin@;
    let len = origin.unicode_len();
    let mut end: usize = len;
    assert(s.subrange(0, len as int) =~= s);
    while end > 0 && origin.get_char(end - 1) == '/'
        invariant
            end <= len == s.len(),
            s == origin@,
            trim_slashes(s) == trim_slashes(s.subrange(0, end as int)),
        decreases end,
    {
        proof {
            lemma_trim_step(s, end as int);
        }
        end -= 1;
    }
    let ghost t = s.subrange(0, end as int);
    assert(trim_slashes(t) == t) by {
        assert(s.subrange(0, len as int) =~= s);
    }
    let mut start: usize = end;
    assert(t.subrange(0, end as int) =~= t);
    assert(s.subrange(end as int, end as int) =~= Seq::<char>::empty());
    assert(last_segment(t) =~= last_segment(t.subrange(0, end as int)) + s.subrange(end as int, end as int));
    while start > 0 && origin.get_char(start - 1) != '/'
        invariant
            start <= end <= len == s.len(),
            s == origin@,
            t == s.subrange(0, end as int),
            last_segment(t) == last_segment(t.subrange(0, start as int)) + s.subrange(start as int, end as int),
        decreases start,
    {
        proof {
            lemma_segment_step(t, start as int);
            assert(s.subrange(start - 1, end as int) =~= seq![s[start - 1]] + s.subrange(start as int, end as int));
            assert(last_segment(t.subrange(0, start - 1)).push(t[start - 1]) + s.subrange(start as int, end as int)
                =~= last_segment(t.subrange(0, start - 1)) + s.subrange(start - 1, end as int));
        }
        start -= 1;
    }
    proof {
        if start > 0 {
            assert(t.subrange(0, start as int).last() == '/');
        }
        assert(last_segment(t.subrange(0, start as int)) =~= Seq::<char>::empty());
        assert(last_segment(t) =~= s.subrange(start as int, end as int));
    }
    let ghost seg = s.subrange(start as int, end as int);
    let seg_len = end - start;
    let mut stop: usize = end;
    if seg_len >= 4 && origin.get_char(end - 4) == '.' && origin.get_char(end - 3) == 'g'
        && origin.get_char(end - 2) == 'i' && origin.get_char(end - 1) == 't' {
        stop = end - 4;
        assert(seg.subrange(seg.len() - 4, seg.len() as int) =~= git_suffix());
        assert(strip_git_suffix(seg) =~= s.subrange(start as int, stop as int));
    } else {
        proof {
            if seg.len() >= 4 && seg.subrange(seg.len() - 4, seg.len() as int) == git_suffix() {
                assert(seg.subrange(seg.len() - 4, seg.len() as int)[0] == '.');
                assert(seg.subrange(seg.len() - 4, seg.len() as int)[1] == 'g');
                assert(seg.subrange(seg.len() - 4, seg.len() as int)[2] == 'i');
                assert(seg.subrange(seg.len() - 4, seg.len() as int)[3] == 't');
            }
        }
        assert(strip_git_suffix(seg) =~= s.subrange(start as int, stop as int));
    }
    if stop == start {
        return None;
    }
    if seg_len == 1 && origin.get_char(start) == '.' {
        assert(seg =~= seq!['.']);
        return None;
    }
    if seg_len == 2 && origin.get_char(start) == '.' && origin.get_char(start + 1) == '.' {
        assert(seg =~= seq!['.', '.']);
        return None;
    }
    proof {
        if seg == seq!['.'] {
            assert(seg[0] == '.');
        }
        if seg == seq!['.', '.'] {
            assert(seg[0] == '.' && seg[1] == '.');
        }
    }
    Some(origin.substring_char(start, stop).to_owned())
}

/// The authentication methods a transport accepts for one challenge.
#[derive(Debug)]
pub struct AcceptedMethods {
    /// A key pair, as an SSH agent holds.
    pub ssh_key: bool,
    /// The platform's default credentials.
    pub default: bool,
    /// A user name and a password in plain text.
    pub user_pass_plaintext: bool,
}

/// How to answer one credential challenge.
#[derive(Debug)]
pub enum CredentialPlan {
    /// Ask the SSH agent for an identity of this user.
    SshAgent { username: String },
    /// Use the platform's default credentials.
    Default,
    /// Ask the credential helper configured for the URL.
    Helper,
    /// None of the accepted methods is one this resolver offers.
    Unsupported,
}

/// The user name git hosts expect when no other is known.
pub open spec fn default_username() -> Seq<char> {
    seq!['g', 'i', 't']
}

/// The user name for an SSH identity: the transport's hint, else the one
/// the credential helper has for the host, else `git`.
pub open spec fn ssh_username(hint: Option<Seq<char>>, helper: Option<Seq<char>>) -> Seq<char> {
    match hint {
        Some(u) => u,
        None => match helper {
            Some(u) => u,
            None => default_username(),
        },
    }
}

/// Picks the strategy for one challenge, in fixed order: an SSH agent
/// identity, then the default credentials, then the credential helper.
/// Each challenge is resolved afresh: nothing is kept between calls.
pub fn resolve_credentials(
    accepted: &AcceptedMethods,
    username_hint: &Option<String>,
    helper_username: &Option<String>,
) -> (r: CredentialPlan)
    ensures
        accepted.ssh_key ==> (r matches CredentialPlan::SshAgent { username: u } && u@ == ssh_username(
            text_of(*username_hint),
            text_of(*helper_username),
        )),
        !accepted.ssh_key && accepted.default ==> r is Default,
        !accepted.ssh_key && !accepted.default && accepted.user_pass_plaintext ==> r is Helper,
        !accepted.ssh_key && !accepted.default && !accepted.user_pass_plaintext ==> r is Unsupported,
{
    if accepted.ssh_key {
        let username = match username_hint {
            Some(u) => u.clone(),
            None => match helper_username {
                Some(u) => u.clone(),
                None => {
                    proof {
                        reveal_strlit("git");
                    }
                    let u = String::from_str("git");
                    assert(u@ =~= default_username());
                    u
                },
            },
        };
        CredentialPlan::SshAgent { username }
    } else if accepted.default {
        CredentialPlan::Default
    } else if accepted.user_pass_plaintext {
        CredentialPlan::Helper
    } else {
        CredentialPlan::Unsupported
    }
}

/// What kind of git failure occurred.
#[derive(Debug, PartialEq, Eq, Structural)]
pub enum ErrorCode {
    /// Authentication was refused.
    Auth,
    /// The server's certificate was refused.
    Certificate,
    /// The target already exists.
    Exists,
    /// Something asked for does not exist.
    NotFound,
    /// A merge left conflicts.
    Conflict,
    /// The reference cannot be fast-forwarded.
    NotFastForward,
    /// Any other code.
    Other,
}

/// Where in git a failure occurred.
#[derive(Debug, PartialEq, Eq, Structural)]
pub enum ErrorClass {
    Net,
    Http,
    Ssh,
    Os,
    Filesystem,
    Repository,
    Other,
}

/// The kind of failure a git error stands for: refused credentials first,
/// then a diverged history, then an existing target or a missing repository,
/// then the part of git that failed; the rest is a transport failure.
pub fn classify(code: ErrorCode, class: ErrorClass) -> (r: FailureKind)
    ensures
        code == ErrorCode::Auth ==> r == FailureKind::Authentication,
        code == ErrorCode::Certificate ==> r == FailureKind::Network,
        (code == ErrorCode::Conflict || code == ErrorCode::NotFastForward) ==> r == FailureKind::Diverged,
        code == ErrorCode::Exists ==> r == FailureKind::Filesystem,
        code == ErrorCode::NotFound && class == ErrorClass::Repository ==> r == FailureKind::Open,
        (code == ErrorCode::Other || (code == ErrorCode::NotFound && class != ErrorClass::Repository)) ==> (r == (
        match class {
            ErrorClass::Os | ErrorClass::Filesystem => FailureKind::Filesystem,
            ErrorClass::Repository => FailureKind::Open,
            _ => FailureKind::Network,
        })),
{
    match code {
        ErrorCode::Auth => FailureKind::Authentication,
        ErrorCode::Certificate => FailureKind::Network,
        ErrorCode::Conflict | ErrorCode::NotFastForward => FailureKind::Diverged,
        ErrorCode::Exists => FailureKind::Filesystem,
        _ => match class {
            ErrorClass::Os | ErrorClass::Filesystem => FailureKind::Filesystem,
            ErrorClass::Repository => FailureKind::Open,
            _ => FailureKind::Network,
        },
    }
}

/// What a pull does once the remote branch is fetched.
#[derive(Debug, PartialEq, Eq, Structural)]
pub enum MergeStep {
    /// Nothing new came in.
    UpToDate,
    /// The branch moves forward to what came in.
    FastForward,
    /// Both sides have commits of their own; a person has to merge.
    Diverged,
}

/// Decides a pull from the merge analysis: up to date first, then a fast
/// forward; anything else has diverged and is reported, never merged.
pub fn merge_step(up_to_date: bool, fast_forward: bool) -> (r: MergeStep)
    ensures
        up_to_date ==> r == MergeStep::UpToDate,
        !up_to_date && fast_forward ==> r == MergeStep::FastForward,
        !up_to_date && !fast_forward ==> r == MergeStep::Diverged,
{
    if up_to_date {
        MergeStep::UpToDate
    } else if fast_forward {
        MergeStep::FastForward
    } else {
        MergeStep::Diverged
    }
}

} // verus!
