//! Reading the state of a repository with git.

use vstd::prelude::*;
use vstd::utf8::{decode_utf8, valid_utf8};

use crate::broker::Authorization;
use crate::gate;
use crate::gate::Flaw;
use crate::paths;
use crate::paths::{Canonical, FileKind, IoFault, PathText, Resolution, RootObservation};
use crate::text;

verus! {

/// What git may print at most, on either stream.
pub const MAX_OUTPUT_BYTES: usize = 4_194_304;

#[derive(Debug, PartialEq, Eq)]
pub struct GitOutput {
    pub stdout: String,
    pub stderr: String,
}

#[derive(Debug)]
pub struct GitWorker {
    pub git_executable: PathText,
    pub allowed_roots: Vec<PathText>,
}

#[derive(Debug, PartialEq, Eq)]
pub enum GitError {
    InvalidExecutable,
    NoAllowedRoots,
    UnsafePath,
    OutsideAllowedRoots,
    NotDirectory,
    ReparsePoint(String),
    AuthorizationMismatch,
    ApprovalRequired,
    Denied,
    WrongAction,
    OutputLimitExceeded,
    CommandFailed { code: Option<i32>, stderr: String },
    Io(IoFault),
}

/// An error by what it says.
#[verifier::ext_equal]
pub enum GitFault {
    InvalidExecutable,
    NoAllowedRoots,
    UnsafePath,
    OutsideAllowedRoots,
    NotDirectory,
    ReparsePoint(Seq<char>),
    AuthorizationMismatch,
    ApprovalRequired,
    Denied,
    WrongAction,
    OutputLimitExceeded,
    CommandFailed(Option<i32>, Seq<char>),
    Io(IoFault),
}

impl View for GitError {
    type V = GitFault;

    open spec fn view(&self) -> GitFault {
        match self {
            GitError::InvalidExecutable => GitFault::InvalidExecutable,
            GitError::NoAllowedRoots => GitFault::NoAllowedRoots,
            GitError::UnsafePath => GitFault::UnsafePath,
            GitError::OutsideAllowedRoots => GitFault::OutsideAllowedRoots,
            GitError::NotDirectory => GitFault::NotDirectory,
            GitError::ReparsePoint(path) => GitFault::ReparsePoint(path@),
            GitError::AuthorizationMismatch => GitFault::AuthorizationMismatch,
            GitError::ApprovalRequired => GitFault::ApprovalRequired,
            GitError::Denied => GitFault::Denied,
            GitError::WrongAction => GitFault::WrongAction,
            GitError::OutputLimitExceeded => GitFault::OutputLimitExceeded,
            GitError::CommandFailed { code, stderr } => GitFault::CommandFailed(*code, stderr@),
            GitError::Io(fault) => GitFault::Io(*fault),
        }
    }
}

/// A call of git: its arguments, and what it finds in its environment.
#[derive(Debug)]
pub struct GitCommand {
    pub arguments: Vec<String>,
    pub environment: Vec<(String, String)>,
}

/// What a call of git gave.
#[derive(Debug)]
pub struct GitRun {
    pub success: bool,
    pub code: Option<i32>,
    pub stdout: Vec<u8>,
    pub stderr: Vec<u8>,
}

// ---------------------------------------------------------------------------
// Where git may work

/// Why a path may not be followed, if it may not.
pub open spec fn follow_fault(path: PathText, seen: Resolution) -> Option<GitFault> {
    if !path.absolute || paths::leads_up(path@) {
        Some(GitFault::UnsafePath)
    } else {
        match seen.reparse {
            Err(fault) => Some(GitFault::Io(fault)),
            Ok(Some(component)) => Some(GitFault::ReparsePoint(component@)),
            Ok(None) => match seen.canonical {
                Err(fault) => Some(GitFault::Io(fault)),
                Ok(_) => None,
            },
        }
    }
}

/// Why a repository may not be read, if it may not.
pub open spec fn repository_fault(worker: GitWorker, target: PathText, seen: Resolution) -> Option<
    GitFault,
> {
    if follow_fault(target, seen) is Some {
        follow_fault(target, seen)
    } else if seen.canonical->Ok_0.kind != FileKind::Directory {
        Some(GitFault::NotDirectory)
    } else if !paths::below_some(seen.canonical->Ok_0.path, worker.allowed_roots@) {
        Some(GitFault::OutsideAllowedRoots)
    } else {
        None
    }
}

pub open spec fn flaw_fault(flaw: Flaw) -> GitFault {
    match flaw {
        Flaw::Mismatch => GitFault::AuthorizationMismatch,
        Flaw::ApprovalRequired => GitFault::ApprovalRequired,
        Flaw::Denied => GitFault::Denied,
        Flaw::NotForApproval => GitFault::ApprovalRequired,
        Flaw::WrongAction => GitFault::WrongAction,
    }
}

/// Why a command is refused, if it is.
pub open spec fn command_fault(
    worker: GitWorker,
    authorization: Authorization,
    action: Seq<char>,
    target: PathText,
    seen: Resolution,
) -> Option<GitFault> {
    match gate::auto_flaw(authorization, action, target.text@) {
        Some(flaw) => Some(flaw_fault(flaw)),
        None => repository_fault(worker, target, seen),
    }
}

fn followed<'a>(path: &PathText, seen: &'a Resolution) -> (r: Result<&'a Canonical, GitError>)
    ensures
        r is Err == follow_fault(*path, *seen) is Some,
        r is Err ==> r->Err_0@ == follow_fault(*path, *seen)->0,
        r is Ok ==> *r->Ok_0 == seen.canonical->Ok_0,
{
    if !path.absolute || paths::goes_up(path) {
        return Err(GitError::UnsafePath);
    }
    match &seen.reparse {
        Err(fault) => {
            return Err(GitError::Io(*fault));
        },
        Ok(Some(component)) => {
            return Err(GitError::ReparsePoint(component.clone()));
        },
        Ok(None) => {},
    }
    match &seen.canonical {
        Err(fault) => Err(GitError::Io(*fault)),
        Ok(found) => Ok(found),
    }
}

fn ensure_auto_action(authorization: &Authorization, expected: &str, target: &PathText) -> (r: Result<
    (),
    GitError,
>)
    ensures
        r is Err == gate::auto_flaw(*authorization, expected@, target.text@) is Some,
        r is Err ==> r->Err_0@ == flaw_fault(
            gate::auto_flaw(*authorization, expected@, target.text@)->0,
        ),
{
    match gate::check_auto(authorization, expected, target.text.as_str()) {
        None => Ok(()),
        Some(Flaw::Mismatch) => Err(GitError::AuthorizationMismatch),
        Some(Flaw::ApprovalRequired) => Err(GitError::ApprovalRequired),
        Some(Flaw::Denied) => Err(GitError::Denied),
        Some(Flaw::NotForApproval) => Err(GitError::ApprovalRequired),
        Some(Flaw::WrongAction) => Err(GitError::WrongAction),
    }
}

// ---------------------------------------------------------------------------
// Arguments and output

/// The arguments before those of the command itself.
pub open spec fn leading_arguments(repository: Seq<char>) -> Seq<Seq<char>> {
    seq![
        "-c"@,
        "core.fsmonitor=false"@,
        "-c"@,
        "core.untrackedCache=false"@,
        "-C"@,
        repository,
    ]
}

pub open spec fn status_arguments() -> Seq<Seq<char>> {
    seq!["status"@, "--porcelain=v2"@, "--branch"@, "--untracked-files=all"@]
}

pub open spec fn diff_arguments() -> Seq<Seq<char>> {
    seq!["diff"@, "--no-ext-diff"@, "--no-textconv"@, "--no-color"@, "--"@]
}

/// What git finds in its environment: no locks, no prompts, no configuration but
/// that of the repository.
pub open spec fn is_quiet_environment(environment: Seq<(String, String)>) -> bool {
    &&& environment.len() == 4
    &&& environment[0].0@ == "GIT_OPTIONAL_LOCKS"@ && environment[0].1@ == "0"@
    &&& environment[1].0@ == "GIT_TERMINAL_PROMPT"@ && environment[1].1@ == "0"@
    &&& environment[2].0@ == "GIT_CONFIG_NOSYSTEM"@ && environment[2].1@ == "1"@
    &&& environment[3].0@ == "GIT_CONFIG_GLOBAL"@ && environment[3].1@ == "NUL"@
}

/// The command is a call of git on a repository.
pub open spec fn is_call(command: GitCommand, repository: Seq<char>, arguments: Seq<Seq<char>>) -> bool {
    text::texts(command.arguments@) == leading_arguments(repository) + arguments
        && is_quiet_environment(command.environment@)
}

/// Bytes as text, with the replacement character for what is no text.
pub uninterp spec fn lossy_text(bytes: Seq<u8>) -> Seq<char>;

/// `String::from_utf8_lossy`: the text of some bytes. Of bytes that are UTF-8 it
/// is claimed that their own text comes back; what stands for other bytes is
/// left to the name.
#[verifier::external_body]
fn from_utf8_lossy(bytes: &[u8]) -> (r: String)
    ensures
        r@ == lossy_text(bytes@),
        valid_utf8(bytes@) ==> r@ == decode_utf8(bytes@),
{
    String::from_utf8_lossy(bytes).into_owned()
}

fn quiet_environment() -> (r: Vec<(String, String)>)
    ensures
        is_quiet_environment(r@),
{
    let mut environment: Vec<(String, String)> = Vec::new();
    environment.push((text::copied("GIT_OPTIONAL_LOCKS"), text::copied("0")));
    environment.push((text::copied("GIT_TERMINAL_PROMPT"), text::copied("0")));
    environment.push((text::copied("GIT_CONFIG_NOSYSTEM"), text::copied("1")));
    environment.push((text::copied("GIT_CONFIG_GLOBAL"), text::copied("NUL")));
    environment
}

fn leading(repository: &str) -> (r: Vec<String>)
    ensures
        text::texts(r@) == leading_arguments(repository@),
{
    let mut arguments: Vec<String> = Vec::new();
    arguments.push(text::copied("-c"));
    arguments.push(text::copied("core.fsmonitor=false"));
    arguments.push(text::copied("-c"));
    arguments.push(text::copied("core.untrackedCache=false"));
    arguments.push(text::copied("-C"));
    arguments.push(text::copied(repository));
    proof {
        assert(text::texts(arguments@) =~= leading_arguments(repository@));
    }
    arguments
}

/// Why what git printed is refused, if it is.
pub open spec fn output_fault(run: GitRun) -> Option<GitFault> {
    if run.stdout@.len() > MAX_OUTPUT_BYTES || run.stderr@.len() > MAX_OUTPUT_BYTES {
        Some(GitFault::OutputLimitExceeded)
    } else if !run.success {
        Some(GitFault::CommandFailed(run.code, lossy_text(run.stderr@)))
    } else {
        None
    }
}

/// What git printed, as texts.
pub fn git_output(run: &GitRun) -> (r: Result<GitOutput, GitError>)
    ensures
        r is Err == output_fault(*run) is Some,
        r is Err ==> r->Err_0@ == output_fault(*run)->0,
        r is Ok ==> r->Ok_0.stdout@ == lossy_text(run.stdout@) && r->Ok_0.stderr@ == lossy_text(
            run.stderr@,
        ),
{
    if run.stdout.len() > MAX_OUTPUT_BYTES || run.stderr.len() > MAX_OUTPUT_BYTES {
        return Err(GitError::OutputLimitExceeded);
    }
    let stdout = from_utf8_lossy(run.stdout.as_slice());
    let stderr = from_utf8_lossy(run.stderr.as_slice());
    if !run.success {
        return Err(GitError::CommandFailed { code: run.code, stderr });
    }
    Ok(GitOutput { stdout, stderr })
}

// ---------------------------------------------------------------------------
// The worker

/// Why the first root that is refused is refused, if one is.
pub open spec fn roots_fault(roots: Seq<RootObservation>) -> Option<GitFault>
    decreases roots.len(),
{
    if roots.len() == 0 {
        None
    } else if roots_fault(roots.drop_last()) is Some {
        roots_fault(roots.drop_last())
    } else {
        follow_fault(roots.last().path, roots.last().seen)
    }
}

/// Why a worker cannot be made, if it cannot.
pub open spec fn worker_fault(
    git_executable: PathText,
    is_file: bool,
    canonical: Result<PathText, IoFault>,
    roots: Seq<RootObservation>,
) -> Option<GitFault> {
    if !git_executable.absolute || !is_file {
        Some(GitFault::InvalidExecutable)
    } else if canonical is Err {
        Some(GitFault::Io(canonical->Err_0))
    } else if roots_fault(roots) is Some {
        roots_fault(roots)
    } else if roots.len() == 0 {
        Some(GitFault::NoAllowedRoots)
    } else {
        None
    }
}

proof fn lemma_roots_prefix(roots: Seq<RootObservation>, i: int)
    requires
        0 <= i <= roots.len(),
        roots_fault(roots.take(i)) is Some,
    ensures
        roots_fault(roots) == roots_fault(roots.take(i)),
    decreases roots.len() - i,
{
    if i < roots.len() {
        assert(roots.take(i + 1).drop_last() =~= roots.take(i));
        lemma_roots_prefix(roots, i + 1);
    } else {
        assert(roots.take(i) =~= roots);
    }
}

impl GitWorker {
    /// A worker that calls `git_executable` and works below the roots.
    pub fn new(
        git_executable: &PathText,
        is_file: bool,
        canonical: Result<PathText, IoFault>,
        roots: &Vec<RootObservation>,
    ) -> (r: Result<Self, GitError>)
        ensures
            r is Err == worker_fault(*git_executable, is_file, canonical, roots@) is Some,
            r is Err ==> r->Err_0@ == worker_fault(
                *git_executable,
                is_file,
                canonical,
                roots@,
            )->0,
            r is Ok ==> r->Ok_0.git_executable == canonical->Ok_0 && r->Ok_0.allowed_roots@.len()
                == roots@.len() && forall|i: int|
                0 <= i < roots@.len() ==> (#[trigger] r->Ok_0.allowed_roots@[i])@
                    == roots@[i].seen.canonical->Ok_0.path@,
    {
        if !git_executable.absolute || !is_file {
            return Err(GitError::InvalidExecutable);
        }
        let executable = match canonical {
            Err(fault) => {
                return Err(GitError::Io(fault));
            },
            Ok(path) => path,
        };
        let mut allowed_roots: Vec<PathText> = Vec::new();
        let mut i: usize = 0;
        while i < roots.len()
            invariant
                git_executable.absolute,
                is_file,
                canonical is Ok,
                i <= roots@.len(),
                roots_fault(roots@.take(i as int)) is None,
                allowed_roots@.len() == i,
                forall|k: int|
                    0 <= k < i ==> (#[trigger] allowed_roots@[k])@
                        == roots@[k].seen.canonical->Ok_0.path@,
            decreases roots@.len() - i,
        {
            proof {
                assert(roots@.take(i + 1).drop_last() =~= roots@.take(i as int));
                if roots_fault(roots@.take(i + 1)) is Some {
                    lemma_roots_prefix(roots@, i + 1);
                }
            }
            match followed(&roots[i].path, &roots[i].seen) {
                Err(error) => {
                    return Err(error);
                },
                Ok(found) => {
                    allowed_roots.push(paths::copy_path(&found.path));
                },
            }
            i = i + 1;
        }
        proof {
            assert(roots@.take(i as int) =~= roots@);
        }
        if allowed_roots.len() == 0 {
            return Err(GitError::NoAllowedRoots);
        }
        Ok(GitWorker { git_executable: executable, allowed_roots })
    }

    fn resolve_repo<'a>(&self, target: &PathText, seen: &'a Resolution) -> (r: Result<
        &'a PathText,
        GitError,
    >)
        ensures
            r is Err == repository_fault(*self, *target, *seen) is Some,
            r is Err ==> r->Err_0@ == repository_fault(*self, *target, *seen)->0,
            r is Ok ==> *r->Ok_0 == seen.canonical->Ok_0.path,
    {
        let found = match followed(target, seen) {
            Err(error) => {
                return Err(error);
            },
            Ok(found) => found,
        };
        if found.kind != FileKind::Directory {
            return Err(GitError::NotDirectory);
        }
        if paths::below_any(&found.path, &self.allowed_roots) {
            return Ok(&found.path);
        }
        Err(GitError::OutsideAllowedRoots)
    }

    /// The call that tells the status of the repository a request targets.
    pub fn status(&self, authorization: &Authorization, target: &PathText, seen: &Resolution) -> (r:
        Result<GitCommand, GitError>)
        ensures
            r is Err == command_fault(
                *self,
                *authorization,
                "git.status"@,
                *target,
                *seen,
            ) is Some,
            r is Err ==> r->Err_0@ == command_fault(
                *self,
                *authorization,
                "git.status"@,
                *target,
                *seen,
            )->0,
            r is Ok ==> is_call(
                r->Ok_0,
                seen.canonical->Ok_0.path.text@,
                status_arguments(),
            ),
    {
        if let Err(error) = ensure_auto_action(authorization, "git.status", target) {
            return Err(error);
        }
        let repository = match self.resolve_repo(target, seen) {
            Err(error) => {
                return Err(error);
            },
            Ok(repository) => repository,
        };
        let mut arguments = leading(repository.text.as_str());
        let ghost before = text::texts(arguments@);
        arguments.push(text::copied("status"));
        arguments.push(text::copied("--porcelain=v2"));
        arguments.push(text::copied("--branch"));
        arguments.push(text::copied("--untracked-files=all"));
        proof {
            assert(text::texts(arguments@) =~= before + status_arguments());
        }
        Ok(GitCommand { arguments, environment: quiet_environment() })
    }

    /// The call that tells what differs in the repository a request targets.
    pub fn diff(&self, authorization: &Authorization, target: &PathText, seen: &Resolution) -> (r:
        Result<GitCommand, GitError>)
        ensures
            r is Err == command_fault(*self, *authorization, "git.diff"@, *target, *seen) is Some,
            r is Err ==> r->Err_0@ == command_fault(
                *self,
                *authorization,
                "git.diff"@,
                *target,
                *seen,
            )->0,
            r is Ok ==> is_call(r->Ok_0, seen.canonical->Ok_0.path.text@, diff_arguments()),
    {
        if let Err(error) = ensure_auto_action(authorization, "git.diff", target) {
            return Err(error);
        }
        let repository = match self.resolve_repo(target, seen) {
            Err(error) => {
                return Err(error);
            },
            Ok(repository) => repository,
        };
        let mut arguments = leading(repository.text.as_str());
        let ghost before = text::texts(arguments@);
        arguments.push(text::copied("diff"));
        arguments.push(text::copied("--no-ext-diff"));
        arguments.push(text::copied("--no-textconv"));
        arguments.push(text::copied("--no-color"));
        arguments.push(text::copied("--"));
        proof {
            assert(text::texts(arguments@) =~= before + diff_arguments());
        }
        Ok(GitCommand { arguments, environment: quiet_environment() })
    }
}

// ---------------------------------------------------------------------------
// Laws

/// git is called only below a root that the worker was given.
pub proof fn commands_stay_below_the_roots(
    worker: GitWorker,
    authorization: Authorization,
    action: Seq<char>,
    target: PathText,
    seen: Resolution,
)
    requires
        command_fault(worker, authorization, action, target, seen) is None,
    ensures
        paths::below_some(seen.canonical->Ok_0.path, worker.allowed_roots@),
        gate::auto_flaw(authorization, action, target.text@) is None,
{
}

/// git is called for the target of the authorized request alone.
pub proof fn only_authorized_targets_are_read(
    worker: GitWorker,
    authorization: Authorization,
    action: Seq<char>,
    target: PathText,
    seen: Resolution,
)
    requires
        command_fault(worker, authorization, action, target, seen) is None,
    ensures
        target.text@ == authorization.request.envelope.target@,
        action == authorization.request.envelope.action@,
{
}

/// git is called exactly when the request was decided to go on by itself, is about this
/// action and this path, the path may be tried, and what it leads to is a directory below an
/// allowed root. The flaws of the request come first.
pub proof fn git_is_called_exactly_when_it_may_be(
    worker: GitWorker,
    authorization: Authorization,
    action: Seq<char>,
    target: PathText,
    seen: Resolution,
)
    ensures
        ({
            let flaw = gate::auto_flaw(authorization, action, target.text@);
            let r = command_fault(worker, authorization, action, target, seen);
            &&& r is None <==> {
                &&& flaw is None
                &&& target.absolute
                &&& forall|i: int|
                    0 <= i < target@.parts.len() ==> !((#[trigger] target@.parts[i]) is ParentDir)
                &&& seen.reparse == Ok::<Option<String>, IoFault>(None)
                &&& seen.canonical is Ok
                &&& seen.canonical->Ok_0.kind is Directory
                &&& exists|i: int|
                    0 <= i < worker.allowed_roots@.len() && paths::folded_within(
                        seen.canonical->Ok_0.path.text@,
                        (#[trigger] worker.allowed_roots@[i]).text@,
                    )
            }
            &&& flaw == Some(Flaw::Mismatch) ==> r == Some(GitFault::AuthorizationMismatch)
            &&& flaw == Some(Flaw::ApprovalRequired) ==> r == Some(GitFault::ApprovalRequired)
            &&& flaw == Some(Flaw::Denied) ==> r == Some(GitFault::Denied)
            &&& flaw == Some(Flaw::WrongAction) ==> r == Some(GitFault::WrongAction)
            &&& flaw is None && !target.absolute ==> r == Some(GitFault::UnsafePath)
            &&& flaw is None && follow_fault(target, seen) is None
                && !(seen.canonical->Ok_0.kind is Directory) ==> r == Some(GitFault::NotDirectory)
            &&& flaw is None && follow_fault(target, seen) is None
                && seen.canonical->Ok_0.kind is Directory && r is Some ==> r == Some(
                GitFault::OutsideAllowedRoots,
            )
        }),
{
}

/// git is asked for the state or the differences of the repository, in this form, with
/// everything switched off that would run other programs or ask questions.
pub proof fn git_is_asked_in_this_form(command: GitCommand, repository: Seq<char>)
    ensures
        ({
            let words = text::texts(command.arguments@);
            let quiet = seq![
                "-c"@,
                "core.fsmonitor=false"@,
                "-c"@,
                "core.untrackedCache=false"@,
                "-C"@,
                repository,
            ];
            &&& is_call(command, repository, status_arguments()) ==> words == quiet + seq![
                "status"@,
                "--porcelain=v2"@,
                "--branch"@,
                "--untracked-files=all"@,
            ]
            &&& is_call(command, repository, diff_arguments()) ==> words == quiet + seq![
                "diff"@,
                "--no-ext-diff"@,
                "--no-textconv"@,
                "--no-color"@,
                "--"@,
            ]
            &&& is_quiet_environment(command.environment@) ==> {
                let e = command.environment@;
                &&& e.len() == 4
                &&& e[0].0@ == "GIT_OPTIONAL_LOCKS"@ && e[0].1@ == "0"@
                &&& e[1].0@ == "GIT_TERMINAL_PROMPT"@ && e[1].1@ == "0"@
                &&& e[2].0@ == "GIT_CONFIG_NOSYSTEM"@ && e[2].1@ == "1"@
                &&& e[3].0@ == "GIT_CONFIG_GLOBAL"@ && e[3].1@ == "NUL"@
            }
        }),
{
}

/// What git said is taken exactly when it succeeded and neither output is longer than
/// 4194304 bytes; the length is looked at first.
pub proof fn git_is_heard_exactly_when_it_succeeds(run: GitRun)
    ensures
        ({
            let short = run.stdout@.len() <= 4_194_304 && run.stderr@.len() <= 4_194_304;
            &&& output_fault(run) is None <==> short && run.success
            &&& !short ==> output_fault(run) == Some(GitFault::OutputLimitExceeded)
            &&& short && !run.success ==> output_fault(run) == Some(
                GitFault::CommandFailed(run.code, lossy_text(run.stderr@)),
            )
        }),
{
}

/// A worker is made exactly when the program is a file at an absolute path that can be
/// resolved, there is a root, and each root can be followed.
pub proof fn git_workers_are_made_exactly_when_their_places_hold(
    git_executable: PathText,
    is_file: bool,
    canonical: Result<PathText, IoFault>,
    roots: Seq<RootObservation>,
)
    ensures
        worker_fault(git_executable, is_file, canonical, roots) is None <==> {
            &&& git_executable.absolute
            &&& is_file
            &&& canonical is Ok
            &&& roots.len() > 0
            &&& forall|i: int|
                0 <= i < roots.len() ==> follow_fault(
                    (#[trigger] roots[i]).path,
                    roots[i].seen,
                ) is None
        },
        !git_executable.absolute || !is_file ==> worker_fault(
            git_executable,
            is_file,
            canonical,
            roots,
        ) == Some(GitFault::InvalidExecutable),
{
    lemma_roots(roots);
}

proof fn lemma_roots(roots: Seq<RootObservation>)
    ensures
        roots_fault(roots) is None <==> forall|i: int|
            0 <= i < roots.len() ==> follow_fault((#[trigger] roots[i]).path, roots[i].seen) is None,
    decreases roots.len(),
{
    if roots.len() > 0 {
        let fewer = roots.drop_last();
        lemma_roots(fewer);
        assert(roots[roots.len() - 1] == roots.last());
        assert forall|i: int| 0 <= i < fewer.len() implies fewer[i] == roots[i] by {}
        if roots_fault(roots) is None {
            assert forall|i: int| 0 <= i < roots.len() implies follow_fault(
                (#[trigger] roots[i]).path,
                roots[i].seen,
            ) is None by {
                if i < fewer.len() {
                    assert(fewer[i] == roots[i]);
                }
            }
        }
    }
}

} // verus!
