//! What is known of a child process, and what follows from it.
//!
//! The capture file is the state: a child writes its event stream through a file descriptor it is
//! handed, so an agentmux that dies mid-review loses nothing.
//! While agentmux lives it keeps the child's handle; after a restart all that is left is the pid
//! on disk.
//! A pid is recycled, so it is recorded together with the process's start time, and a process
//! found under that pid is the child only if its start time matches.

use vstd::prelude::*;
use vstd::string::*;

use crate::config::Platform;
use crate::delegate::Invocation;
use crate::text::{signed, signed_number};

verus! {

/// A child process could not be started.
#[derive(Debug, PartialEq, Eq)]
pub enum LaunchError {
    /// A capture file could not be created, or the question file could not be opened.
    Io {
        /// The file involved.
        path: String,
        /// The underlying failure, in the system's words.
        source: String,
    },
    /// The directory the delegate was to read from is not there.
    ///
    /// Reported apart from a spawn failure: the operating system reports both as "not found",
    /// and telling a caller its CLI is missing when its path was mistyped sends it to reinstall a
    /// working tool.
    WorkingDirectory {
        /// The directory that was asked for.
        path: String,
    },
    /// The delegate CLI could not be executed.
    Spawn {
        /// The executable that was not runnable.
        program: String,
        /// The underlying failure, in the system's words.
        source: String,
    },
}

/// How a [`LaunchError`] reads.
pub open spec fn launch_error_text(error: LaunchError) -> Seq<char> {
    match error {
        LaunchError::Io { path, source } => "cannot open "@ + path@ + ": "@ + source@,
        LaunchError::WorkingDirectory { path } => "the working directory "@ + path@
            + " is not a directory"@,
        LaunchError::Spawn { program, source } => "cannot run `"@ + program@ + "`: "@ + source@
            + ". Is it installed and on PATH?"@,
    }
}

impl LaunchError {
    /// The error as a caller reads it.
    pub fn message(&self) -> (r: String)
        ensures
            r@ == launch_error_text(*self),
    {
        match self {
            LaunchError::Io { path, source } => {
                let mut out = "cannot open ".to_owned();
                out.append(path.as_str());
                out.append(": ");
                out.append(source.as_str());
                out
            },
            LaunchError::WorkingDirectory { path } => {
                let mut out = "the working directory ".to_owned();
                out.append(path.as_str());
                out.append(" is not a directory");
                out
            },
            LaunchError::Spawn { program, source } => {
                let mut out = "cannot run `".to_owned();
                out.append(program.as_str());
                out.append("`: ");
                out.append(source.as_str());
                out.append(". Is it installed and on PATH?");
                out
            },
        }
    }
}

/// Everything a launcher needs in order to start one turn's child.
pub struct LaunchSpec<'a> {
    /// What to run, with which arguments and environment.
    pub invocation: &'a Invocation,
    /// The directory the delegate reads the project from.
    pub cwd: &'a str,
    /// File holding the question, opened as the child's stdin.
    pub question: &'a str,
    /// File the child's stdout is redirected to.
    /// This is the event stream.
    pub events: &'a str,
    /// File the child's stderr is redirected to.
    pub stderr: &'a str,
}

/// A started child, identified well enough to check on and to stop later.
#[derive(Debug, Clone, Copy, PartialEq, Eq, Structural)]
pub struct Launched {
    /// The child's process id.
    pub pid: u32,
    /// The process group agentmux created for it, when the platform has process groups.
    ///
    /// Equal to `pid`, because the child is the group leader.
    /// Kept explicitly because it is the address a termination is sent to.
    pub process_group: Option<u32>,
    /// When the child started, in seconds since the epoch, as the operating system reports it.
    ///
    /// A process found under this pid is the child only if it also started at this time.
    pub started: Option<u64>,
}

/// How a child ended, as recorded once it has been reaped.
#[derive(Debug, Clone, Copy, PartialEq, Eq, Structural)]
pub struct ExitStatus {
    /// The exit code, absent when the child was killed by a signal.
    pub code: Option<i32>,
    /// The signal that killed the child, where the platform reports one.
    pub signal: Option<i32>,
}

/// How an exit status reads.
pub open spec fn exit_text(status: ExitStatus) -> Seq<char> {
    match status.code {
        Some(code) => "exit code "@ + signed(code as int),
        None => match status.signal {
            Some(signal) => "signal "@ + signed(signal as int),
            None => "an unknown status"@,
        },
    }
}

/// How a number that may be absent is written in a record.
pub open spec fn optional_number(n: Option<i32>) -> Seq<char> {
    match n {
        Some(n) => "Some("@ + signed(n as int) + ")"@,
        None => "None"@,
    }
}

/// How an exit status is written with its fields.
pub open spec fn status_fields(status: ExitStatus) -> Seq<char> {
    "ExitStatus { code: "@ + optional_number(status.code) + ", signal: "@ + optional_number(
        status.signal,
    ) + " }"@
}

fn optional(n: Option<i32>) -> (r: String)
    ensures
        r@ == optional_number(n),
{
    match n {
        Some(n) => {
            let mut out = "Some(".to_owned();
            out.append(signed_number(n as i64).as_str());
            out.append(")");
            out
        },
        None => "None".to_owned(),
    }
}

impl ExitStatus {
    /// The status with its fields, for the detail of a failure.
    pub fn fields(&self) -> (r: String)
        ensures
            r@ == status_fields(*self),
    {
        let mut out = "ExitStatus { code: ".to_owned();
        out.append(optional(self.code).as_str());
        out.append(", signal: ");
        out.append(optional(self.signal).as_str());
        out.append(" }");
        out
    }

    /// Whether the child exited cleanly.
    pub fn is_success(&self) -> (r: bool)
        ensures
            r == (self.code == Some(0i32) && self.signal is None),
    {
        match self.code {
            Some(code) => code == 0 && self.signal.is_none(),
            None => false,
        }
    }

    /// The status in words.
    pub fn describe(&self) -> (r: String)
        ensures
            r@ == exit_text(*self),
    {
        match self.code {
            Some(code) => {
                let mut out = "exit code ".to_owned();
                out.append(signed_number(code as i64).as_str());
                out
            },
            None => match self.signal {
                Some(signal) => {
                    let mut out = "signal ".to_owned();
                    out.append(signed_number(signal as i64).as_str());
                    out
                },
                None => "an unknown status".to_owned(),
            },
        }
    }
}

impl From<i32> for ExitStatus {
    /// A plain exit code, with no signal.
    fn from(code: i32) -> (r: Self) {
        ExitStatus { code: Some(code), signal: None }
    }
}

impl vstd::std_specs::convert::FromSpecImpl<i32> for ExitStatus {
    open spec fn obeys_from_spec() -> bool {
        true
    }

    open spec fn from_spec(code: i32) -> Self {
        ExitStatus { code: Some(code), signal: None }
    }
}

/// Whether a child is still running.
#[derive(Debug, Clone, Copy, PartialEq, Eq, Structural)]
pub enum Liveness {
    /// The process exists and is the one that was launched.
    Alive,
    /// The process is gone, or the pid now belongs to something else.
    Gone,
    /// This platform cannot answer without the child handle, which an agentmux restart lost.
    Unknown,
}

/// Starts delegate processes.
///
/// Substituted in tests by a scripted fake.
pub trait Launcher {
    /// Start a child for one turn.
    fn launch(&mut self, spec: &LaunchSpec<'_>) -> Result<Launched, LaunchError>;

    /// Whether a previously launched child is still running.
    fn liveness(&mut self, launched: Launched) -> Liveness;

    /// Ask a running child, and everything it spawned, to stop.
    ///
    /// Best effort: a child that has already exited is not an error.
    fn terminate(&mut self, launched: Launched);

    /// Stop a child that did not honour [`Launcher::terminate`].
    fn kill(&mut self, launched: Launched);

    /// Collect the exit status of a child that has finished, without blocking.
    ///
    /// Asking again reports the same status again.
    fn reap(&mut self, launched: Launched) -> Option<ExitStatus>;
}

/// Refuse a launch whose working directory is not there.
pub fn refuse_working_directory(cwd: &str, is_dir: bool) -> (r: Result<(), LaunchError>)
    ensures
        r is Ok == is_dir,
        !is_dir ==> (r matches Err(LaunchError::WorkingDirectory { path }) && path@ == cwd@),
{
    if is_dir {
        Ok(())
    } else {
        Err(LaunchError::WorkingDirectory { path: cwd.to_owned() })
    }
}

/// What came of one attempt to start a program.
#[derive(Debug, PartialEq, Eq)]
pub enum Spawned {
    /// It runs.
    Running {
        /// The process it runs as.
        pid: u32,
        /// When that process started, as far as the operating system says.
        started: Option<u64>,
    },
    /// There is no program of that name.
    Missing {
        /// The failure, in the system's words.
        reason: String,
    },
    /// It could not be started.
    Failed {
        /// The failure, in the system's words.
        reason: String,
    },
}

/// The name to try after a first attempt, where there is one.
///
/// An npm-installed CLI on Windows is a `.cmd` shim, which is not found by its bare name.
pub fn shim(platform: Platform, program: &str, first: &Spawned) -> (r: Option<String>)
    ensures
        r is Some == (platform == Platform::Windows && *first is Missing),
        r matches Some(name) ==> name@ == program@ + ".cmd"@,
{
    match (platform, first) {
        (Platform::Windows, Spawned::Missing { .. }) => {
            let mut name = program.to_owned();
            name.append(".cmd");
            Some(name)
        },
        _ => None,
    }
}

/// A child that runs, as it is recorded: it leads its own process group where there are any.
pub open spec fn led_by(platform: Platform, pid: u32, started: Option<u64>) -> Launched {
    Launched {
        pid,
        process_group: match platform {
            Platform::Unix => Some(pid),
            Platform::Windows => None,
        },
        started,
    }
}

fn leader(platform: Platform, pid: u32, started: Option<u64>) -> (r: Launched)
    ensures
        r == led_by(platform, pid, started),
{
    let process_group: Option<u32> = match platform {
        Platform::Unix => Some(pid),
        Platform::Windows => None,
    };
    Launched { pid, process_group, started }
}

/// What a launch comes to, from its first attempt and the one that may have followed it.
///
/// A launch that failed is told by the program's own name and by what its first attempt met.
pub fn launched(platform: Platform, program: &str, first: Spawned, second: Option<Spawned>) -> (r:
    Result<Launched, LaunchError>)
    ensures
        match (first, second) {
            (Spawned::Running { pid, started }, _) => r == Ok::<_, LaunchError>(
                led_by(platform, pid, started),
            ),
            (_, Some(Spawned::Running { pid, started })) => r == Ok::<_, LaunchError>(
                led_by(platform, pid, started),
            ),
            (Spawned::Missing { reason }, _) | (Spawned::Failed { reason }, _) => {
                &&& r matches Err(LaunchError::Spawn { program: named, source })
                &&& named@ == program@
                &&& source == reason
            },
        },
{
    match (first, second) {
        (Spawned::Running { pid, started }, _) => Ok(leader(platform, pid, started)),
        (_, Some(Spawned::Running { pid, started })) => Ok(leader(platform, pid, started)),
        (Spawned::Missing { reason }, _) => Err(
            LaunchError::Spawn { program: program.to_owned(), source: reason },
        ),
        (Spawned::Failed { reason }, _) => Err(
            LaunchError::Spawn { program: program.to_owned(), source: reason },
        ),
    }
}

/// What one non-blocking wait on a retained handle said.
#[derive(Debug, Clone, Copy, PartialEq, Eq, Structural)]
pub enum Observed {
    /// The child is running.
    Running,
    /// The child has finished.
    Finished(ExitStatus),
    /// The handle could not be waited on, so the platform's own answer has to decide.
    Unobservable,
}

/// What a retained handle says of a child's liveness; nothing where the process table has to say.
pub fn observed_liveness(observed: Option<Observed>) -> (r: Option<Liveness>)
    ensures
        r == match observed {
            Some(Observed::Running) => Some(Liveness::Alive),
            Some(Observed::Finished(_)) => Some(Liveness::Gone),
            _ => None,
        },
{
    match observed {
        Some(Observed::Running) => Some(Liveness::Alive),
        Some(Observed::Finished(_)) => Some(Liveness::Gone),
        Some(Observed::Unobservable) => None,
        None => None,
    }
}

/// The exit status a retained handle reports.
///
/// The status stays collectable: two callers folding the same turn must both see the same status.
pub fn observed_exit(observed: Option<Observed>) -> (r: Option<ExitStatus>)
    ensures
        r == match observed {
            Some(Observed::Finished(status)) => Some(status),
            _ => None,
        },
{
    match observed {
        Some(Observed::Finished(status)) => Some(status),
        _ => None,
    }
}

/// Where a stop request goes.
#[derive(Debug, Clone, Copy, PartialEq, Eq, Structural)]
pub enum Delivery {
    /// To the child, whose handle is held and which is running.
    Child,
    /// To nobody: the child has finished.
    Nobody,
    /// To whatever the process table says is still this child.
    ByIdentity,
}

/// Where a stop request goes, from what the retained handle said.
///
/// A handle that cannot be waited on decides nothing; the process table does.
pub fn delivery(observed: Option<Observed>) -> (r: Delivery)
    ensures
        r == match observed {
            Some(Observed::Running) => Delivery::Child,
            Some(Observed::Finished(_)) => Delivery::Nobody,
            _ => Delivery::ByIdentity,
        },
{
    match observed {
        Some(Observed::Running) => Delivery::Child,
        Some(Observed::Finished(_)) => Delivery::Nobody,
        Some(Observed::Unobservable) => Delivery::ByIdentity,
        None => Delivery::ByIdentity,
    }
}

/// What the system says of a process's group.
#[derive(Debug, Clone, Copy, PartialEq, Eq, Structural)]
pub enum GroupLookup {
    /// The pid is not one the system can be asked about.
    Unrepresentable,
    /// The process leads or belongs to this group.
    Group(i32),
    /// The system knows of no such process.
    Failed,
}

/// What the process table says of a pid.
#[derive(Debug, Clone, Copy, PartialEq, Eq, Structural)]
pub enum ProcessLookup {
    /// The platform has no process table that can be read.
    Unsupported,
    /// No process has the pid.
    Absent,
    /// A process has the pid.
    Present {
        /// Whether it has exited and only waits to be collected.
        exited: bool,
        /// When it started.
        start_time: u64,
        /// Its process group.
        group: GroupLookup,
    },
}

/// Whether a process group is the one a child was launched into.
///
/// With no start time on record, the process group is the next best witness: the child leads its
/// own, and a recycled pid that does too is the residual hazard.
pub open spec fn group_liveness(launched: Launched, group: GroupLookup) -> Liveness {
    match group {
        GroupLookup::Unrepresentable => Liveness::Unknown,
        GroupLookup::Failed => Liveness::Gone,
        GroupLookup::Group(found) => match launched.process_group {
            Some(expected) if expected as int != found as int => Liveness::Gone,
            _ => Liveness::Alive,
        },
    }
}

/// Whether the process found under a child's pid is that child.
///
/// A zombie has exited; it lingers only until a parent that is not us waits on it.
/// The recorded start time is the identity; a pid handed to a different process since is not this
/// child, however much else it has in common.
pub open spec fn identity_liveness(launched: Launched, found: ProcessLookup) -> Liveness {
    match found {
        ProcessLookup::Unsupported => Liveness::Unknown,
        ProcessLookup::Absent => Liveness::Gone,
        ProcessLookup::Present { exited, start_time, group } => if exited {
            Liveness::Gone
        } else {
            match launched.started {
                Some(started) => if started == start_time {
                    Liveness::Alive
                } else {
                    Liveness::Gone
                },
                None => group_liveness(launched, group),
            }
        },
    }
}

/// Whether the process found under a child's pid is that child.
pub fn liveness_by_identity(launched: Launched, found: ProcessLookup) -> (r: Liveness)
    ensures
        r == identity_liveness(launched, found),
{
    match found {
        ProcessLookup::Unsupported => Liveness::Unknown,
        ProcessLookup::Absent => Liveness::Gone,
        ProcessLookup::Present { exited, start_time, group } => {
            if exited {
                return Liveness::Gone;
            }
            match launched.started {
                Some(started) => if started == start_time {
                    Liveness::Alive
                } else {
                    Liveness::Gone
                },
                None => match group {
                    GroupLookup::Unrepresentable => Liveness::Unknown,
                    GroupLookup::Failed => Liveness::Gone,
                    GroupLookup::Group(found) => match launched.process_group {
                        Some(expected) => if expected as i64 != found as i64 {
                            Liveness::Gone
                        } else {
                            Liveness::Alive
                        },
                        None => Liveness::Alive,
                    },
                },
            }
        },
    }
}

/// A recycled pid never passes for the child: where the start time is on record, only a process
/// that started then is alive as this child.
pub proof fn a_recycled_pid_is_not_the_child(launched: Launched, found: ProcessLookup)
    requires
        launched.started is Some,
        identity_liveness(launched, found) == Liveness::Alive,
    ensures
        found matches ProcessLookup::Present { exited, start_time, .. } && !exited && Some(
            start_time,
        ) == launched.started,
{
}

/// How far up the process tree is looked.
pub const MAX_DEPTH: usize = 32;

/// The next ancestor of a walk up the process tree, or nothing where the walk is over.
///
/// pid 0 and pid 1 are the platform's own, and a chain that reaches them is complete; a parent
/// equal to the child would loop.
pub open spec fn next_in_chain(chain: Seq<u32>, pid: u32, parent: Option<u32>) -> Option<u32> {
    match parent {
        Some(parent) if chain.len() < MAX_DEPTH && parent > 1 && parent != pid
            && !chain.contains(parent) => Some(parent),
        _ => None,
    }
}

/// The next ancestor of a walk up the process tree, or nothing where the walk is over.
///
/// `pid` is where the walk stands and `parent` what the process table says its parent is.
pub fn next_ancestor(chain: &Vec<u32>, pid: u32, parent: Option<u32>) -> (r: Option<u32>)
    ensures
        r == next_in_chain(chain@, pid, parent),
{
    match parent {
        Some(parent) => {
            if chain.len() >= MAX_DEPTH || parent <= 1 || parent == pid {
                return None;
            }
            if holds_pid(chain, parent) {
                None
            } else {
                Some(parent)
            }
        },
        None => None,
    }
}

/// Whether a list of pids holds one.
pub fn holds_pid(list: &Vec<u32>, pid: u32) -> (r: bool)
    ensures
        r == list@.contains(pid),
{
    let mut i: usize = 0;
    while i < list.len()
        invariant
            i <= list.len(),
            forall|j: int| 0 <= j < i ==> #[trigger] list@[j] != pid,
        decreases list.len() - i,
    {
        if list[i] == pid {
            assert(list@[i as int] == pid);
            return true;
        }
        i = i + 1;
    }
    false
}

/// A walk up the process tree ends: its chain stays bounded and never names a process twice.
pub proof fn the_walk_is_bounded(chain: Seq<u32>, pid: u32, parent: Option<u32>)
    requires
        chain.len() <= MAX_DEPTH,
        chain.no_duplicates(),
        next_in_chain(chain, pid, parent) is Some,
    ensures
        chain.push(next_in_chain(chain, pid, parent)->Some_0).len() <= MAX_DEPTH,
        chain.push(next_in_chain(chain, pid, parent)->Some_0).no_duplicates(),
{
}

} // verus!
