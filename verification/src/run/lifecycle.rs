//! When a consultation is begun, claimed, continued, swept, removed, cancelled and waited for.
//!
//! Each function takes what was read of the files and the processes and says what to do; the
//! waiting, writing and signalling are the caller's.

use vstd::prelude::*;
use vstd::string::*;

use crate::config::{keys_of, Config, Platform};
use crate::delegate::{
    invocation_of, Delegate, DelegateErrorModel, DelegateModel, Invocation, InvocationModel,
    Isolation, SessionRef, TurnPlan,
};
use crate::launch::{ExitStatus, Liveness};
use crate::ordered::{in_order, TextMap};
use crate::path::{joined_path, DirEntry};
use crate::run::settle::later;
use crate::run::{
    model_of, model_run, pin_defaults, pinned, turn_path, valid_id, ChildRecord, Meta, Retention,
    RunError, RunId, RunStore, StartRequest, TurnDir,
};
use crate::text::{begins_with, copied, lemma_texts_push, texts};
use crate::time::{since, Moment, NANOS};
use crate::transcript::{FailureKind, Outcome, OutcomeModel, Transcript};

verus! {

/// The record a consultation begins with.
///
/// The delegate is resolved now rather than at each launch, so the record names the identity that
/// actually ran and every later turn resumes as the same one.
pub fn begin(
    run_id: RunId,
    request: StartRequest,
    cwd: String,
    config: &Config,
    created_at: Moment,
) -> (r: Meta)
    ensures
        r.run_id == run_id,
        r.delegate@ == pinned(request.delegate@, config@),
        model_of(r.requested_model) == if model_run(request.delegate@, config@)
            == request.delegate@.model {
            None
        } else {
            Some(request.delegate@.model)
        },
        r.cwd == cwd,
        r.retention == request.retention,
        r.created_at == created_at,
        r.env == request.env,
{
    let (delegate, requested_model) = pin_defaults(&request.delegate, config);
    Meta {
        run_id,
        delegate,
        requested_model,
        cwd,
        retention: request.retention,
        created_at,
        env: request.env,
    }
}

/// The delegate a follow-up runs: the recorded one.
///
/// A record from before isolation was pinned could only have run isolated.
pub fn for_follow_up(delegate: Delegate) -> (r: Delegate)
    ensures
        r@ == (DelegateModel {
            isolation: match delegate@.isolation {
                Some(isolation) => Some(isolation),
                None => Some(Isolation::Isolated),
            },
            ..delegate@
        }),
{
    if delegate.isolation().is_none() {
        delegate.with_isolation(Isolation::Isolated)
    } else {
        delegate
    }
}

/// The index of the turn that follows those there are.
pub fn next_index(transcript: &Transcript) -> (r: u32)
    ensures
        r == if transcript@.len() <= u32::MAX {
            transcript@.len() as u32
        } else {
            u32::MAX
        },
{
    let n: usize = transcript.turns.len();
    assert(n == transcript@.len());
    if n <= 4_294_967_295usize {
        n as u32
    } else {
        4_294_967_295u32
    }
}

/// How a turn's directory is come by.
#[derive(Debug, Clone, Copy, PartialEq, Eq, Structural)]
pub enum Claim {
    /// The directory was created just now.
    Fresh,
    /// The directory was there and its claim abandoned: its files are set aside first.
    ///
    /// Set aside rather than deleted: the caller that died may have spawned its child first, and
    /// that child is still writing into these files.
    TakeOver,
}

/// Claim a turn index.
///
/// Creating the directory *is* the claim, and it has to fail if someone else already made it:
/// two callers that both fold a one-turn consultation both choose index 1, and with a forgiving
/// create they would both launch a paid child into the same capture file.
///
/// A directory that exists but holds neither a launch nor an exit record was claimed by a caller
/// that died before recording its child.
/// Under the lock nobody else can be between those two steps, so such a claim is taken over.
pub fn claim_turn(
    run_id: &RunId,
    index: u32,
    exists_already: bool,
    launch_recorded: bool,
    exit_recorded: bool,
) -> (r: Result<Claim, RunError>)
    ensures
        !exists_already ==> r == Ok::<_, RunError>(Claim::Fresh),
        exists_already && !launch_recorded && !exit_recorded ==> r == Ok::<_, RunError>(
            Claim::TakeOver,
        ),
        exists_already && (launch_recorded || exit_recorded) ==> (r matches Err(
            RunError::TurnAlreadyClaimed { run_id: id, index: at },
        ) && id@ == run_id@ && at == index),
{
    if !exists_already {
        return Ok(Claim::Fresh);
    }
    if launch_recorded || exit_recorded {
        return Err(RunError::TurnAlreadyClaimed { run_id: run_id.clone(), index });
    }
    Ok(Claim::TakeOver)
}

/// What was tried, recorded before the spawn so a failed launch still leaves evidence.
///
/// Environment *keys* only.
/// The values are credentials.
pub struct InvocationRecord {
    /// The executable name.
    pub program: String,
    /// The argument vector.
    pub args: Vec<String>,
    /// The names of the variables the child has.
    pub env_keys: Vec<String>,
    /// Where the child runs.
    pub cwd: String,
    /// The session it continues.
    pub resumed_from: Option<SessionRef>,
}

/// A turn that is ready to be launched.
pub struct PreparedTurn {
    /// Where its files live.
    pub dir: TurnDir,
    /// What to run.
    pub invocation: Invocation,
    /// What is recorded of it.
    pub record: InvocationRecord,
}

fn keys(env: &TextMap<String>) -> (r: Vec<String>)
    ensures
        texts(r@) == keys_of(in_order(env@)),
{
    let n: usize = env.len();
    let mut out: Vec<String> = Vec::new();
    let mut i: usize = 0;
    let ghost entries = env.pairs();
    assert(texts(out@) =~= keys_of(entries.take(0)));
    while i < n
        invariant
            i <= n,
            n == entries.len(),
            entries == env.pairs(),
            texts(out@) == keys_of(entries.take(i as int)),
        decreases n - i,
    {
        let key = env.key_at(i).clone();
        proof {
            lemma_texts_push(out@, key);
            assert(keys_of(entries.take(i + 1)) =~= keys_of(entries.take(i as int)).push(key@));
        }
        out.push(key);
        i = i + 1;
    }
    assert(entries.take(i as int) =~= entries);
    out
}

/// The child process of a consultation's turn, or why there is none.
pub open spec fn turn_invocation(
    root: Seq<char>,
    meta: Meta,
    index: u32,
    resume: Option<Seq<char>>,
    config: crate::config::ConfigModel,
    host: Map<Seq<char>, Seq<char>>,
    platform: Platform,
    dir_exists: bool,
) -> Result<InvocationModel, DelegateErrorModel> {
    match invocation_of(
        meta.delegate@,
        resume,
        joined_path(platform, turn_path(platform, root, meta.run_id@, index), "last-message.md"@),
        meta.env@,
        config,
        host,
        platform,
        dir_exists,
    ) {
        Ok(invocation) => Ok(
            InvocationModel {
                env: invocation.env.insert(RunStore::STATE_DIR_ENV@, root),
                ..invocation
            },
        ),
        Err(error) => Err(error),
    }
}

/// The session of a turn, where it continues one.
pub open spec fn session_text(session: Option<&SessionRef>) -> Option<Seq<char>> {
    match session {
        Some(session) => Some(session@),
        None => None,
    }
}

impl RunStore {
    /// Refuse a launch before anything of it is written.
    ///
    /// The refusals stand where a child is actually spawned, so a follow-up is covered as a start
    /// is: a consultation begun from a terminal is not a way to drive a denied vendor from a
    /// server.
    /// The run may have been swept or removed while the caller waited for the lock, and a turn
    /// launched into a directory with no metadata would be a child nothing can reach.
    pub fn refuse_launch(
        &self,
        meta: &Meta,
        inside: bool,
        meta_present: bool,
    ) -> (r: Result<(), RunError>)
        ensures
            r is Ok == (!inside && !self@.denied.contains(meta.delegate@.vendor) && meta_present),
            inside ==> r == Err::<(), _>(RunError::Recursive),
            !inside && self@.denied.contains(meta.delegate@.vendor) ==> r == Err::<(), _>(
                RunError::VendorDenied { vendor: meta.delegate@.vendor },
            ),
            !inside && !self@.denied.contains(meta.delegate@.vendor) && !meta_present ==> (
            r matches Err(RunError::NotFound(id)) && id@ == meta.run_id@),
    {
        match self.refuse_to_spawn(meta.delegate.vendor(), inside) {
            Ok(_) => {},
            Err(error) => return Err(error),
        }
        if !meta_present {
            return Err(RunError::NotFound(meta.run_id.clone()));
        }
        Ok(())
    }

    /// Everything between claiming a turn directory and spawning the child in it: what to run, in
    /// which environment, and what is recorded of that.
    ///
    /// The child is told the store's own root rather than whatever the host exported: an agentmux
    /// started underneath this delegate has to open the same store to recognise the delegate as
    /// its ancestor.
    pub fn prepare_turn(
        &self,
        meta: &Meta,
        index: u32,
        resume: Option<&SessionRef>,
        config: &Config,
        dir_exists: bool,
    ) -> (r: Result<PreparedTurn, RunError>)
        ensures
            match turn_invocation(
                self@.root,
                *meta,
                index,
                session_text(resume),
                config@,
                self@.host_env,
                self@.platform,
                dir_exists,
            ) {
                Ok(expected) => r matches Ok(turn) && {
                    &&& turn.dir.platform == self@.platform
                    &&& turn.dir.root@ == turn_path(self@.platform, self@.root, meta.run_id@, index)
                    &&& turn.invocation@ == expected
                    &&& turn.record.program@ == expected.program
                    &&& texts(turn.record.args@) == expected.args
                    &&& texts(turn.record.env_keys@) == keys_of(in_order(expected.env))
                    &&& turn.record.cwd@ == meta.cwd@
                    &&& crate::stream::session_of(turn.record.resumed_from) == session_text(resume)
                },
                Err(error) => r matches Err(RunError::Delegate(e)) && e@ == error,
            },
    {
        let dir = self.turn_dir(&meta.run_id, index);
        let question_path = dir.question();
        let last_message_path = dir.last_message();
        let plan = TurnPlan {
            question_path: question_path.as_str(),
            last_message_path: last_message_path.as_str(),
            resume,
            extra_env: &meta.env,
        };
        let made = match meta.delegate.invocation(
            &plan,
            self.host_env(),
            config,
            self.platform(),
            dir_exists,
        ) {
            Ok(made) => made,
            Err(error) => return Err(RunError::Delegate(error)),
        };
        let mut env = made.env;
        env.insert(RunStore::STATE_DIR_ENV, self.root().to_owned());
        let record = InvocationRecord {
            program: made.program.clone(),
            args: copied(&made.args),
            env_keys: keys(&env),
            cwd: meta.cwd.clone(),
            resumed_from: match resume {
                Some(session) => Some(session.clone()),
                None => None,
            },
        };
        Ok(
            PreparedTurn {
                dir,
                invocation: Invocation { program: made.program, args: made.args, env },
                record,
            },
        )
    }
}

/// The ids among the names of a directory of runs.
pub open spec fn ids_in(entries: Seq<DirEntry>) -> Seq<Seq<char>>
    decreases entries.len(),
{
    if entries.len() == 0 {
        Seq::empty()
    } else if entries.last().is_dir && valid_id(entries.last().name@) {
        ids_in(entries.drop_last()).push(entries.last().name@)
    } else {
        ids_in(entries.drop_last())
    }
}

/// The ids among the entries of the directory of all runs.
///
/// Lock files sit beside the run directories and carry a `.lock` suffix, which is not an id.
pub fn run_ids(entries: &Vec<DirEntry>) -> (r: Vec<RunId>)
    ensures
        r@.map_values(|id: RunId| id@) == ids_in(entries@),
{
    let mut out: Vec<RunId> = Vec::new();
    let mut i: usize = 0;
    assert(entries@.take(0) =~= Seq::empty());
    assert(out@.map_values(|id: RunId| id@) =~= ids_in(entries@.take(0)));
    while i < entries.len()
        invariant
            i <= entries.len(),
            out@.map_values(|id: RunId| id@) == ids_in(entries@.take(i as int)),
        decreases entries.len() - i,
    {
        let ghost more = entries@.take(i + 1);
        assert(more.drop_last() =~= entries@.take(i as int));
        assert(more.last() == entries@[i as int]);
        if entries[i].is_dir {
            if let Ok(id) = RunId::parse(entries[i].name.as_str()) {
                let ghost had = out@.map_values(|id: RunId| id@);
                out.push(id);
                assert(out@.map_values(|id: RunId| id@) =~= had.push(id@));
            }
        }
        i = i + 1;
    }
    assert(entries@.take(i as int) =~= entries@);
    out
}

/// Which records a turn directory holds.
#[derive(Debug, Clone, Copy, PartialEq, Eq, Structural)]
pub struct TurnRecords {
    /// Whether there is a launch record.
    pub launch: bool,
    /// Whether there is an exit record.
    pub exit: bool,
}

/// How many of the directories, from the first on, are turns.
///
/// Stops at the first directory holding neither record: that is a claim, not a turn, and nothing
/// past it can be one either.
pub fn turns_among(dirs: &Vec<TurnRecords>) -> (r: usize)
    ensures
        r <= dirs@.len(),
        forall|i: int| 0 <= i < r ==> (#[trigger] dirs@[i]).launch || dirs@[i].exit,
        r < dirs@.len() ==> !dirs@[r as int].launch && !dirs@[r as int].exit,
{
    let mut i: usize = 0;
    while i < dirs.len() && (dirs[i].launch || dirs[i].exit)
        invariant
            i <= dirs.len(),
            forall|j: int| 0 <= j < i ==> (#[trigger] dirs@[j]).launch || dirs@[j].exit,
        decreases dirs.len() - i,
    {
        i = i + 1;
    }
    i
}

/// Whether a recorded child is still there.
pub open spec fn still_there(child: ChildRecord) -> bool {
    !child.settled && !child.reaped && child.liveness == Liveness::Alive
}

/// Whether any recorded child is still there.
pub open spec fn some_child_alive(children: Seq<ChildRecord>) -> bool {
    exists|i: int| 0 <= i < children.len() && still_there(#[trigger] children[i])
}

/// Whether any recorded child of a run is still there.
///
/// A turn is terminal the moment its stream says so, and the child behind it can outlive that by
/// a little — Codex writes its closing message file afterwards — or, when it was told to stop and
/// would not, by more.
/// Deleting a run out from under a live child would leave it writing into unlinked files,
/// billing, and unreachable.
pub fn a_child_is_alive(children: &Vec<ChildRecord>) -> (r: bool)
    ensures
        r == some_child_alive(children@),
{
    let mut i: usize = 0;
    while i < children.len()
        invariant
            i <= children.len(),
            forall|j: int| 0 <= j < i ==> !still_there(#[trigger] children@[j]),
        decreases children.len() - i,
    {
        let child = children[i];
        if !child.settled && !child.reaped && child.liveness == Liveness::Alive {
            assert(still_there(children@[i as int]));
            return true;
        }
        i = i + 1;
    }
    false
}

/// Since when nothing has happened to a run: its last write, or its beginning where that is later.
pub open spec fn quiet_since(created_at: Moment, last_write: Option<Moment>) -> Moment {
    match last_write {
        Some(written) => if created_at.at() > written.at() {
            created_at
        } else {
            written
        },
        None => created_at,
    }
}

/// Whether a run is past its retention.
///
/// The clock runs from the last thing the delegate wrote, not from the start: a consultation that
/// ran for longer than the TTL is not stale the moment it ends.
pub open spec fn past_retention(
    retention: Retention,
    created_at: Moment,
    last_write: Option<Moment>,
    at: Moment,
) -> bool {
    retention == Retention::Ttl && at.at() - quiet_since(created_at, last_write).at()
        >= RunStore::TTL * NANOS
}

/// Whether a run is past its retention.
///
/// File times alone decide it, so a young run costs a few looks and no fold.
pub fn expired(
    retention: Retention,
    created_at: Moment,
    last_write: Option<Moment>,
    at: Moment,
) -> (r: bool)
    requires
        created_at.valid(),
        at.valid(),
        last_write matches Some(written) ==> written.valid(),
    ensures
        r == past_retention(retention, created_at, last_write, at),
{
    if retention == Retention::UntilReleased {
        return false;
    }
    let last = match later(last_write, Some(created_at)) {
        Some(last) => last,
        None => created_at,
    };
    match since(at, last) {
        Some(age) => age.seconds >= RunStore::TTL,
        None => false,
    }
}

/// Whether a run may be deleted: its newest turn is over, or there is none, and no child of it is
/// still there.
pub open spec fn deletable(newest: Option<OutcomeModel>, children: Seq<ChildRecord>) -> bool {
    (newest matches Some(outcome) ==> outcome.terminal()) && !some_child_alive(children)
}

/// What an outcome that may be absent says.
pub open spec fn outcome_model(outcome: Option<Outcome>) -> Option<OutcomeModel> {
    match outcome {
        Some(o) => Some(o@),
        None => None,
    }
}

fn may_delete(newest: &Option<Outcome>, children: &Vec<ChildRecord>) -> (r: bool)
    ensures
        r == deletable(outcome_model(*newest), children@),
{
    let over = match newest {
        Some(outcome) => outcome.is_terminal(),
        None => true,
    };
    over && !a_child_is_alive(children)
}

/// Whether the sweep deletes a run.
///
/// A run with a child still alive is never swept, however old: a long review that outlived its TTL
/// is exactly the one worth keeping.
/// A run that never got a turn — a start that failed after the directory was made — is swept like
/// a finished one.
pub fn sweeps(
    meta: &Meta,
    last_write: Option<Moment>,
    at: Moment,
    newest: &Option<Outcome>,
    children: &Vec<ChildRecord>,
) -> (r: bool)
    requires
        meta.created_at.valid(),
        at.valid(),
        last_write matches Some(written) ==> written.valid(),
    ensures
        r == (past_retention(meta.retention, meta.created_at, last_write, at) && deletable(
            outcome_model(*newest),
            children@,
        )),
{
    expired(meta.retention, meta.created_at, last_write, at) && may_delete(newest, children)
}

/// Whether one consultation may be deleted outright, whatever its retention.
///
/// Deleting the record of a running child would leave it running, billing, and unreachable by
/// anything.
pub fn refuse_removal(
    run_id: &RunId,
    newest: &Option<Outcome>,
    children: &Vec<ChildRecord>,
) -> (r: Result<(), RunError>)
    ensures
        r is Ok == deletable(outcome_model(*newest), children@),
        r matches Err(error) ==> (error matches RunError::StillRunning { run_id: id } && id@
            == run_id@),
{
    if may_delete(newest, children) {
        Ok(())
    } else {
        Err(RunError::StillRunning { run_id: run_id.clone() })
    }
}

/// What a sweep deletes was kept only for its time, has been quiet for all of it, is over, and has
/// no child behind it.
pub proof fn a_sweep_spares_what_matters(
    retention: Retention,
    created_at: Moment,
    last_write: Option<Moment>,
    at: Moment,
    newest: Option<OutcomeModel>,
    children: Seq<ChildRecord>,
)
    requires
        past_retention(retention, created_at, last_write, at),
        deletable(newest, children),
    ensures
        retention != Retention::UntilReleased,
        at.at() - created_at.at() >= RunStore::TTL * NANOS,
        last_write matches Some(written) ==> at.at() - written.at() >= RunStore::TTL * NANOS,
        newest matches Some(outcome) ==> !(outcome is Running),
        forall|i: int| 0 <= i < children.len() ==> !still_there(#[trigger] children[i]),
{
}

/// What cancelling a consultation involves.
#[derive(Debug, Clone, Copy, PartialEq, Eq, Structural)]
pub struct CancelPlan {
    /// Whether the newest turn is marked before anything is signalled, and recorded as cancelled
    /// once its child has gone.
    ///
    /// Marked first so that a concurrent reader that sees the child go records the same
    /// cancellation rather than a death.
    pub mark: bool,
    /// Whether a child is to be stopped.
    ///
    /// Also where the turn is already over: a child that survived an earlier stop is still stopped
    /// by the next.
    pub stop: bool,
}

/// What cancelling a consultation involves, from its newest turn.
pub fn cancel_plan(newest: Option<&Outcome>, launched: bool) -> (r: CancelPlan)
    ensures
        r.mark == (newest matches Some(outcome) && !outcome@.terminal()),
        r.stop == (newest is Some && launched),
{
    match newest {
        Some(outcome) => CancelPlan { mark: !outcome.is_terminal(), stop: launched },
        None => CancelPlan { mark: false, stop: false },
    }
}

/// Nanoseconds a cancelled child is given to leave after being asked.
///
/// Both CLIs exit on `SIGTERM` well inside this; what needs the time is a tool subprocess they are
/// waiting on.
pub const TERMINATE_GRACE: u64 = 3_000_000_000;

/// Nanoseconds a killed child is given to actually disappear.
pub const KILL_GRACE: u64 = 2_000_000_000;

/// Nanoseconds between two looks at a child that is being stopped.
pub const STOP_POLL: u64 = 100_000_000;

/// How hard a child is being stopped.
#[derive(Debug, Clone, Copy, PartialEq, Eq, Structural)]
pub enum StopPhase {
    /// It was asked to stop.
    Asked,
    /// It was killed.
    Killed,
}

/// What to do next about a child that is being stopped.
#[derive(Debug, Clone, Copy, PartialEq, Eq, Structural)]
pub enum StopStep {
    /// Nothing: it has gone, or nothing more can be done.
    Done,
    /// Look again after [`STOP_POLL`].
    LookAgain,
    /// Kill it, and wait for that.
    Kill,
}

/// What to do next about a child that is being stopped.
///
/// `waited` is how long ago it was asked or killed.
/// A child that has already gone costs one look.
/// A child that cannot be observed is not waited for, because nothing would ever end the wait.
pub fn stop_step(
    phase: StopPhase,
    status: Option<ExitStatus>,
    liveness: Liveness,
    waited: u64,
) -> (r: StopStep)
    ensures
        status is Some || liveness != Liveness::Alive ==> r == StopStep::Done,
        status is None && liveness == Liveness::Alive ==> r == match phase {
            StopPhase::Asked => if waited >= TERMINATE_GRACE {
                StopStep::Kill
            } else {
                StopStep::LookAgain
            },
            StopPhase::Killed => if waited >= KILL_GRACE {
                StopStep::Done
            } else {
                StopStep::LookAgain
            },
        },
{
    if status.is_some() || liveness != Liveness::Alive {
        return StopStep::Done;
    }
    match phase {
        StopPhase::Asked => if waited >= TERMINATE_GRACE {
            StopStep::Kill
        } else {
            StopStep::LookAgain
        },
        StopPhase::Killed => if waited >= KILL_GRACE {
            StopStep::Done
        } else {
            StopStep::LookAgain
        },
    }
}

/// Nanoseconds of the first interval between polls, so a question answered in a second returns in
/// about a second.
pub const MIN_POLL: u64 = 250_000_000;

/// Nanoseconds of the longest interval a wait backs off to.
pub const MAX_POLL: u64 = 2_000_000_000;

/// How a wait goes on.
#[derive(Debug, Clone, Copy, PartialEq, Eq, Structural)]
pub struct WaitStep {
    /// How long to sleep now.
    pub sleep: u64,
    /// The interval after that.
    pub next: u64,
}

/// How a wait for a consultation goes on, or nothing where it is over.
///
/// `newest` is how the newest turn stands, where there is one: a run with no turn at all has
/// nothing to wait for.
/// `left` is how long the caller still wants to wait; nothing where there is no deadline.
/// The interval backs off towards its ceiling: a quick answer still returns almost immediately,
/// and a ninety-minute review is not looked at several thousand times on its way there.
pub fn wait_step(
    newest: Option<&Outcome>,
    left: Option<u64>,
    interval: u64,
) -> (r: Option<WaitStep>)
    requires
        MIN_POLL <= interval <= MAX_POLL,
    ensures
        r is None == ((newest matches Some(outcome) ==> outcome@.terminal()) || left == Some(0u64)),
        r matches Some(step) ==> {
            &&& step.sleep == match left {
                Some(left) => if interval <= left {
                    interval
                } else {
                    left
                },
                None => interval,
            }
            &&& step.next == if 2 * interval <= MAX_POLL {
                2 * interval
            } else {
                MAX_POLL as int
            }
            &&& MIN_POLL <= step.next <= MAX_POLL
            &&& step.sleep > 0
        },
{
    match newest {
        Some(outcome) => if outcome.is_terminal() {
            return None;
        },
        None => return None,
    }
    let sleep: u64 = match left {
        Some(left) => {
            if left == 0 {
                return None;
            }
            if interval <= left {
                interval
            } else {
                left
            }
        },
        None => interval,
    };
    let next: u64 = if 2 * interval <= MAX_POLL {
        2 * interval
    } else {
        MAX_POLL
    };
    Some(WaitStep { sleep, next })
}

/// Whether the other accounts are asked what they have left: exactly when this consultation was
/// refused for a rate limit.
///
/// The figures cannot then be stale in the way that matters: the window just closed.
pub fn wants_quota(outcome: &Outcome) -> (r: bool)
    ensures
        r == (outcome@ matches OutcomeModel::Failed { kind, .. } && kind
            == FailureKind::RateLimited),
{
    match outcome {
        Outcome::Failed { kind, .. } => *kind == FailureKind::RateLimited,
        _ => false,
    }
}

/// Whether a render is already published: it starts what is.
///
/// The render is append-only, so a snapshot that is a prefix of what is already published is
/// simply older, and skipping it is the correct ordering rule.
pub fn is_published(published: &str, text: &str) -> (r: bool)
    ensures
        r == text@.is_prefix_of(published@),
{
    begins_with(published, text)
}

/// What is published after a render was offered.
pub open spec fn published_after(published: Seq<char>, text: Seq<char>) -> Seq<char> {
    if text.is_prefix_of(published) {
        published
    } else {
        text
    }
}

/// Publication never goes back: of two renders of one consultation, whichever is offered last,
/// what was published stays.
pub proof fn publication_never_goes_back(published: Seq<char>, text: Seq<char>)
    requires
        published.is_prefix_of(text) || text.is_prefix_of(published),
    ensures
        published.is_prefix_of(published_after(published, text)),
        text.is_prefix_of(published_after(published, text)),
{
}

} // verus!
