//! Commands: what each one decides before, between and after the outside work.
use vstd::prelude::*;
use crate::batch::{target_records, Batch, FailureKind, Operation, Target};
use crate::cfg::{path_taken, registry_of, well_formed, Configuration, RegistryError, Repository};
use crate::git::{chosen_name, extract_name, text_of};
use crate::path::{normal_path, normalize};

verus! {

/// The command line: verbosity, an optional configuration file, a command.
#[derive(Debug)]
pub struct Args {
    pub verbosity: usize,
    pub config: Option<String>,
    pub command: Command,
}

/// One command of the command line.
#[derive(Debug)]
pub enum Command {
    /// Clone `origin` and track it.
    Add { origin: String, path: Option<String>, name: Option<String> },
    /// Delete a tracked clone and stop tracking it.
    Remove { name: String },
    /// Pull one tracked repository, or all of them.
    Pull { name: Option<String> },
    /// Report the status of every tracked repository.
    Status { strip: bool },
    /// Sync one tracked repository, or all of them.
    Sync { name: Option<String> },
    /// Run a command in every tracked repository.
    ForEach { command: String },
}

/// Failures of a command.
#[derive(Debug)]
pub enum CommandError {
    /// The command failed; `message` says why.
    Execution { command: String, message: String },
    /// Neither an explicit name nor the origin gives a name.
    NameRequired,
    /// The name is already tracked.
    NameAlreadyExists { name: String },
    /// Another tracked repository already lives at the path.
    PathAlreadyExists { path: String },
    /// No repository is tracked under the name.
    NotFound { name: String },
    /// The registry changed but could not be saved.
    SaveConfiguration { message: String },
    /// The clone failed, for a reason of the given kind.
    Clone { origin: String, path: String, kind: FailureKind, message: String },
    /// The clone's path could not be resolved.
    ResolvePath { path: String, message: String },
    /// The clone's directory could not be deleted; it stays tracked.
    DeletePath { path: String, message: String },
}

/// Where `add` clones to and under which name it tracks the clone.
#[derive(Debug)]
pub struct Addition {
    pub name: String,
    pub path: String,
}

/// How deleting a clone's directory went.
#[derive(Debug)]
pub enum Deletion {
    /// The directory was deleted.
    Deleted,
    /// There was no directory to delete.
    AlreadyAbsent,
    /// The directory could not be deleted.
    Failed { message: String },
}

/// `path` made absolute against the directory `cwd`.
pub open spec fn absolute(cwd: Seq<char>, path: Seq<char>) -> Seq<char> {
    if path.len() > 0 && path[0] == '/' {
        path
    } else {
        cwd + seq!['/'] + path
    }
}

/// Where a clone named `name` goes: the given path, else a directory named
/// after it, absolute against `cwd` and normalised, so that two spellings
/// of one directory compare equal.
pub open spec fn clone_path(cwd: Seq<char>, path: Option<Seq<char>>, name: Seq<char>) -> Seq<char> {
    match path {
        Some(p) => normal_path(absolute(cwd, p)),
        None => normal_path(absolute(cwd, name)),
    }
}

/// `path` made absolute against `cwd`, then normalised.
fn resolve(cwd: &str, path: &str) -> (r: String)
    ensures
        r@ == normal_path(absolute(cwd@, path@)),
{
    let joined = make_absolute(cwd, path);
    normalize(joined.as_str())
}

fn make_absolute(cwd: &str, path: &str) -> (r: String)
    ensures
        r@ == absolute(cwd@, path@),
{
    if path.unicode_len() > 0 && path.get_char(0) == '/' {
        return path.to_owned();
    }
    let mut r = cwd.to_owned();
    proof {
        reveal_strlit("/");
    }
    r.append("/");
    r.append(path);
    assert(r@ =~= cwd@ + seq!['/'] + path@);
    r
}

/// Checks an addition before any clone: the name (explicit, else from the
/// origin) must be usable and untracked, and the clone's path untracked.
pub fn add(config: &Configuration, cwd: &str, origin: &str, path: &Option<String>, name: &Option<String>) -> (r: Result<
    Addition,
    CommandError,
>)
    requires
        config.wf(),
    ensures
        chosen_name(origin@, text_of(*name)) is None ==> r matches Err(CommandError::NameRequired),
        chosen_name(origin@, text_of(*name)) matches Some(n) ==> {
            let p = clone_path(cwd@, text_of(*path), n);
            &&& config@.contains_key(n) ==> (r matches Err(CommandError::NameAlreadyExists { name: m })
                && m@ == n)
            &&& !config@.contains_key(n) && path_taken(config@, p) ==> (r matches Err(
                CommandError::PathAlreadyExists { path: q },
            ) && q@ == p)
            &&& !config@.contains_key(n) && !path_taken(config@, p) ==> (r matches Ok(a) && a.name@ == n
                && a.path@ == p)
        },
{
    let name = match extract_name(origin, name) {
        Some(n) => n,
        None => {
            return Err(CommandError::NameRequired);
        },
    };
    if config.contains(name.as_str()) {
        return Err(CommandError::NameAlreadyExists { name });
    }
    let target = match path {
        Some(p) => resolve(cwd, p.as_str()),
        None => resolve(cwd, name.as_str()),
    };
    if config.holds_path(&target) {
        return Err(CommandError::PathAlreadyExists { path: target });
    }
    Ok(Addition { name, path: target })
}

/// Tracks a finished clone under `name` at its resolved `path`.
pub fn register(config: &mut Configuration, name: String, path: String) -> (r: Result<(), CommandError>)
    requires
        old(config).wf(),
    ensures
        final(config).wf(),
        final(config).location() == old(config).location(),
        old(config)@.contains_key(name@) ==> (r matches Err(CommandError::NameAlreadyExists { name: n })
            && n@ == name@ && final(config)@ == old(config)@),
        !old(config)@.contains_key(name@) && path_taken(old(config)@, path@) ==> (r matches Err(
            CommandError::PathAlreadyExists { path: p },
        ) && p@ == path@ && final(config)@ == old(config)@),
        !old(config)@.contains_key(name@) && !path_taken(old(config)@, path@) ==> (r is Ok && final(config)@
            == old(config)@.insert(name@, path@)),
{
    match config.insert(name, Repository { path }) {
        Ok(()) => Ok(()),
        Err(RegistryError::NameConflict { name }) => Err(CommandError::NameAlreadyExists { name }),
        Err(RegistryError::PathConflict { path }) => Err(CommandError::PathAlreadyExists { path }),
    }
}

/// The directory to delete to remove `name`; nothing when it is not tracked.
pub fn remove(config: &Configuration, name: &str) -> (r: Option<String>)
    requires
        config.wf(),
    ensures
        r is Some <==> config@.contains_key(name@),
        r matches Some(p) ==> p@ == config@[name@],
{
    match config.get(name) {
        Some(repo) => Some(repo.path.clone()),
        None => None,
    }
}

/// Stops tracking `name` once its directory is gone, deleted now or before.
/// When the deletion failed the entry stays and the failure is returned.
/// An untracked name is no error: nothing is found and nothing changes.
pub fn forget(config: &mut Configuration, name: &str, deletion: Deletion) -> (r: Result<Option<Repository>, CommandError>)
    requires
        old(config).wf(),
    ensures
        final(config).wf(),
        final(config).location() == old(config).location(),
        !old(config)@.contains_key(name@) ==> (r matches Ok(None) && final(config)@ == old(config)@),
        old(config)@.contains_key(name@) && deletion is Failed ==> (r matches Err(
            CommandError::DeletePath { path: p, message: _ },
        ) && p@ == old(config)@[name@] && final(config)@ == old(config)@),
        old(config)@.contains_key(name@) && !(deletion is Failed) ==> (r matches Ok(Some(repo))
            && repo.path@ == old(config)@[name@] && final(config)@ == old(config)@.remove(name@)),
{
    match deletion {
        Deletion::Failed { message } => {
            match config.get(name) {
                Some(repo) => Err(CommandError::DeletePath { path: repo.path.clone(), message }),
                None => Ok(None),
            }
        },
        _ => {
            let r = config.remove(name);
            proof {
                if !old(config)@.contains_key(name@) {
                    assert(old(config)@.remove(name@) =~= old(config)@);
                }
            }
            Ok(r)
        },
    }
}

/// The targets a command names: the one tracked under `name`, or every
/// tracked repository when no name is given.
fn select(config: &Configuration, name: &Option<String>) -> (r: Result<Vec<Target>, CommandError>)
    requires
        config.wf(),
    ensures
        name matches Some(n) ==> {
            &&& !config@.contains_key(n@) ==> (r matches Err(CommandError::NotFound { name: m })
            && m@ == n@)
            &&& config@.contains_key(n@) ==> (r matches Ok(t) && target_records(t@) == seq![
            (n@, config@[n@]),
        ])
        },
        name is None ==> (r matches Ok(t) && well_formed(target_records(t@)) && registry_of(target_records(t@))
            == config@),
{
    match name {
        Some(n) => match config.get(n.as_str()) {
            Some(repo) => {
                let mut t: Vec<Target> = Vec::new();
                t.push(Target { name: n.clone(), path: repo.path.clone() });
                assert(target_records(t@) =~= seq![(n@, config@[n@])]);
                Ok(t)
            },
            None => Err(CommandError::NotFound { name: n.clone() }),
        },
        None => Ok(config.targets()),
    }
}

/// A pull of the repository named `name`, or of every tracked one.
pub fn pull(config: &Configuration, name: &Option<String>) -> (r: Result<Batch, CommandError>)
    requires
        config.wf(),
    ensures
        name matches Some(n) ==> {
            &&& !config@.contains_key(n@) ==> (r matches Err(CommandError::NotFound { name: m })
            && m@ == n@)
            &&& config@.contains_key(n@) ==> (r matches Ok(b) && b.wf() && b.spec_operation()
            is Pull && b.targets() == seq![(n@, config@[n@])])
        },
        name is None ==> (r matches Ok(b) && b.wf() && b.spec_operation() is Pull && well_formed(b.targets())
            && registry_of(b.targets()) == config@),
        r matches Ok(b) ==> b.outcomes().len() == b.targets().len() && forall|i: int|
            0 <= i < b.outcomes().len() ==> #[trigger] b.outcomes()[i] is None,
{
    let targets = select(config, name)?;
    Ok(Batch::new(Operation::Pull, targets))
}

/// A sync of the repository named `name`, or of every tracked one.
pub fn sync(config: &Configuration, name: &Option<String>) -> (r: Result<Batch, CommandError>)
    requires
        config.wf(),
    ensures
        name matches Some(n) ==> {
            &&& !config@.contains_key(n@) ==> (r matches Err(CommandError::NotFound { name: m })
            && m@ == n@)
            &&& config@.contains_key(n@) ==> (r matches Ok(b) && b.wf() && b.spec_operation()
            is Sync && b.targets() == seq![(n@, config@[n@])])
        },
        name is None ==> (r matches Ok(b) && b.wf() && b.spec_operation() is Sync && well_formed(b.targets())
            && registry_of(b.targets()) == config@),
        r matches Ok(b) ==> b.outcomes().len() == b.targets().len() && forall|i: int|
            0 <= i < b.outcomes().len() ==> #[trigger] b.outcomes()[i] is None,
{
    let targets = select(config, name)?;
    Ok(Batch::new(Operation::Sync, targets))
}

/// A status report over every tracked repository.
pub fn status(config: &Configuration, strip: bool) -> (r: Batch)
    requires
        config.wf(),
    ensures
        r.wf(),
        r.spec_operation() == (Operation::Status { strip }),
        well_formed(r.targets()),
        registry_of(r.targets()) == config@,
        r.outcomes().len() == r.targets().len(),
        forall|i: int| 0 <= i < r.outcomes().len() ==> #[trigger] r.outcomes()[i] is None,
{
    Batch::new(Operation::Status { strip }, config.targets())
}

/// `command` to be run in every tracked repository.
pub fn for_each(config: &Configuration, command: &str) -> (r: Batch)
    requires
        config.wf(),
    ensures
        r.wf(),
        r.spec_operation() matches Operation::ForEach { command: c } && c@ == command@,
        well_formed(r.targets()),
        registry_of(r.targets()) == config@,
        r.outcomes().len() == r.targets().len(),
        forall|i: int| 0 <= i < r.outcomes().len() ==> #[trigger] r.outcomes()[i] is None,
{
    Batch::new(Operation::ForEach { command: command.to_owned() }, config.targets())
}

} // verus!
