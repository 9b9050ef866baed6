//! Deciding what happened to a delegate that has stopped speaking.
//!
//! [`super`] says where a consultation lives on disk; this module says what its capture files
//! mean once the child is gone.
//!
//! Terminal state is decided in one order, and the order is the point:
//!
//! 1. a terminal event in the stream, which is authoritative because it survives everything else;
//! 2. the exit record, once the child was reaped, observed gone, or cancelled;
//! 3. process liveness, as a last resort.
//!
//! A settled turn is frozen: the exit record says how much of the capture is part of the
//! consultation, and nothing past that is read, whatever a stray descendant of the child writes.

use vstd::prelude::*;
use vstd::string::*;
use vstd::utf8::encode_utf8;

use crate::delegate::{
    delegate_summary, program_of, DelegateModel, Programs, ProgramsModel, SessionRef, Vendor,
};
use crate::launch::{status_fields, ExitStatus, Liveness};
use crate::run::paging::{tail_bytes, tail_of};
use crate::run::{Meta, NotResumable, NotResumableModel, RunId};
use crate::stream::claude;
use crate::stream::codex;
use crate::stream::{
    classification, classify, countable, fold, folded_session, folded_turn, session_of, Events,
};
use crate::text::{blank, is_blank, same, text_of, trim, trimmed};
use crate::time::{rfc3339, rfc3339_text, Moment};
use crate::transcript::{
    limit_model, newest_outcome, recovery_only_appends, render_turn, running_turn_only_grows,
    spoke, state_name, tally_total, turn_text, FailureKind, MessageModel, Outcome, OutcomeModel,
    RateLimit, Transcript, Turn, TurnModel,
};

verus! {

/// How much of a silent child's stderr is kept as evidence.
pub const STDERR_TAIL: usize = 2000;

/// How a turn's child ended, as far as agentmux could tell.
///
/// Written once and never rewritten: whichever caller observes the departure first settles the
/// turn, and a second observation adopts that record rather than deriving its own.
/// Everything the settlement is derived from is in the record, so a later fold reads the record
/// and not the files it was derived from.
#[derive(Debug, PartialEq, Eq)]
pub enum ExitRecord {
    /// The child was reaped, or observed gone.
    Exited {
        /// Absent when agentmux was not the child's parent by the time it ended.
        status: Option<ExitStatus>,
        /// How much of the capture existed once the child had gone.
        events_len: u64,
        /// The end of what the child wrote to stderr, which is all the evidence a silent exit
        /// leaves.
        stderr_tail: String,
    },
    /// A caller stopped it.
    Cancelled {
        /// How much of the capture existed once the child had gone, or as it stood when the
        /// child could not be made to go.
        events_len: u64,
    },
}

impl ExitRecord {
    /// How much of the capture is part of the consultation; nothing past it is read.
    pub fn events_len(&self) -> (r: u64)
        ensures
            r == match *self {
                ExitRecord::Exited { events_len, .. } => events_len,
                ExitRecord::Cancelled { events_len } => events_len,
            },
    {
        match self {
            ExitRecord::Exited { events_len, .. } => *events_len,
            ExitRecord::Cancelled { events_len } => *events_len,
        }
    }
}

/// What has to be found out before a turn can be settled.
#[derive(Debug, Clone, Copy, PartialEq, Eq, Structural)]
pub enum Look {
    /// Nothing: the stream or the exit record decides, or there is no child to look at.
    Nothing,
    /// Whether the child is still there.
    ///
    /// Collecting its exit status comes first: a finished child that agentmux still parents stays
    /// a zombie until it is waited on, and a zombie keeps its process group, so asking about
    /// liveness first would report it alive forever.
    Child,
}

/// What has to be found out before a turn can be settled, in the order the evidence counts.
pub fn next_look(turn: &Turn, recorded: bool, launched: bool) -> (r: Look)
    ensures
        r == if turn@.outcome.terminal() || recorded || !launched {
            Look::Nothing
        } else {
            Look::Child
        },
{
    if turn.outcome.is_terminal() || recorded || !launched {
        Look::Nothing
    } else {
        Look::Child
    }
}

/// Whether a child that was looked at has left, so that its departure is to be recorded.
///
/// A child that could be reaped has.
/// `Unknown` is not a departure: the platform cannot answer without the child handle, and
/// guessing "dead" would abandon a live review.
pub fn has_departed(status: Option<ExitStatus>, liveness: Liveness) -> (r: bool)
    ensures
        r == (status is Some || liveness == Liveness::Gone),
{
    status.is_some() || liveness == Liveness::Gone
}

/// The record of a departure, from the capture as it stands once the child has gone.
///
/// Where a cancellation was asked for, the departure is that cancellation, whoever observes it.
pub fn departure_record(
    cancelling: bool,
    status: Option<ExitStatus>,
    events_len: u64,
    stderr: &str,
) -> (r: ExitRecord)
    ensures
        match r {
            ExitRecord::Cancelled { events_len: len } => cancelling && len == events_len,
            ExitRecord::Exited { status: how, events_len: len, stderr_tail } => {
                &&& !cancelling
                &&& how == status
                &&& len == events_len
                &&& encode_utf8(stderr_tail@) == tail_bytes(stderr@, STDERR_TAIL as int)
            },
        },
{
    if cancelling {
        ExitRecord::Cancelled { events_len }
    } else {
        ExitRecord::Exited { status, events_len, stderr_tail: tail_of(stderr, STDERR_TAIL) }
    }
}

/// Whether an exit status is a clean exit.
pub open spec fn clean(status: ExitStatus) -> bool {
    status.code == Some(0i32) && status.signal is None
}

/// What is said of a child that exited without a terminal event in its stream.
pub open spec fn silent_exit_text(
    programs: ProgramsModel,
    status: ExitStatus,
    stderr: Seq<char>,
    vendor: Vendor,
    events_path: Seq<char>,
) -> Seq<char> {
    if clean(status) {
        "the "@ + program_of(programs, vendor)
            + " CLI exited successfully but its event stream carried no completion event. Its output format may have changed; the raw stream is at "@
            + events_path
    } else {
        let head = "the "@ + program_of(programs, vendor) + " CLI exited with "@ + status_fields(status);
        if trimmed(stderr).len() == 0 {
            head + " and wrote nothing to stderr"@
        } else {
            head + ": "@ + trimmed(stderr)
        }
    }
}

/// The failure of a child that exited without a terminal event in its stream.
///
/// A clean exit means the CLI's output format changed; otherwise what stderr says decides, and
/// where it says nothing that is known, the launch is what failed.
pub open spec fn silent_exit(
    programs: ProgramsModel,
    status: ExitStatus,
    stderr: Seq<char>,
    vendor: Vendor,
    events_path: Seq<char>,
) -> OutcomeModel {
    let detail = silent_exit_text(programs, status, stderr, vendor, events_path);
    OutcomeModel::Failed {
        kind: if clean(status) {
            FailureKind::Unclassified
        } else if classification(detail) == FailureKind::Unclassified {
            FailureKind::LaunchFailed
        } else {
            classification(detail)
        },
        detail,
    }
}

/// Build a failure for a child that exited without a terminal event in its stream.
///
/// The delegate's stderr is the only remaining evidence, so its tail goes into the detail — this
/// is the difference between "it failed" and a message a caller can act on.
pub fn died_without_saying_so(
    programs: &Programs,
    status: ExitStatus,
    stderr_tail: &str,
    vendor: Vendor,
    events_path: &str,
) -> (r: Outcome)
    ensures
        r@ == silent_exit(programs@, status, stderr_tail@, vendor, events_path@),
{
    let mut detail = "the ".to_owned();
    detail.append(vendor.program(programs));
    if status.is_success() {
        detail.append(
            " CLI exited successfully but its event stream carried no completion event. Its output format may have changed; the raw stream is at ",
        );
        detail.append(events_path);
        return Outcome::Failed { kind: FailureKind::Unclassified, detail };
    }
    detail.append(" CLI exited with ");
    detail.append(status.fields().as_str());
    let said = trim(stderr_tail);
    if said.as_str().is_empty() {
        detail.append(" and wrote nothing to stderr");
    } else {
        detail.append(": ");
        detail.append(said.as_str());
    }
    let kind = match classify(detail.as_str()) {
        FailureKind::Unclassified => FailureKind::LaunchFailed,
        classified => classified,
    };
    Outcome::Failed { kind, detail }
}

/// How a turn stands: what the stream says, then what the exit record says, then whether a child
/// was recorded at all.
pub open spec fn settled_outcome(
    programs: ProgramsModel,
    stream: OutcomeModel,
    exit: Option<ExitRecord>,
    launched: bool,
    vendor: Vendor,
    events_path: Seq<char>,
) -> OutcomeModel {
    if stream.terminal() {
        stream
    } else {
        match exit {
            Some(ExitRecord::Cancelled { .. }) => OutcomeModel::Cancelled,
            Some(ExitRecord::Exited { status, stderr_tail, .. }) => silent_exit(programs,
                match status {
                    Some(status) => status,
                    None => ExitStatus { code: None, signal: None },
                },
                stderr_tail@,
                vendor,
                events_path,
            ),
            None => if launched {
                stream
            } else {
                OutcomeModel::Failed {
                    kind: FailureKind::LaunchFailed,
                    detail: "agentmux recorded no child process for this turn"@,
                }
            },
        }
    }
}

/// Decide the outcome of a turn from what its stream says and what was recorded of its child.
///
/// The stream comes first precisely because it survives everything else; only when it is silent
/// does the exit record get a say, and without one a recorded child counts as running.
pub fn settle_unfinished(
    programs: &Programs,
    stream: Outcome,
    exit: &Option<ExitRecord>,
    launched: bool,
    vendor: Vendor,
    events_path: &str,
) -> (r: Outcome)
    ensures
        r@ == settled_outcome(programs@, stream@, *exit, launched, vendor, events_path@),
{
    if stream.is_terminal() {
        return stream;
    }
    match exit {
        Some(ExitRecord::Cancelled { .. }) => Outcome::Cancelled,
        Some(ExitRecord::Exited { status, stderr_tail, .. }) => {
            let how = match status {
                Some(status) => *status,
                None => ExitStatus { code: None, signal: None },
            };
            died_without_saying_so(programs, how, stderr_tail.as_str(), vendor, events_path)
        },
        None => if launched {
            stream
        } else {
            Outcome::Failed {
                kind: FailureKind::LaunchFailed,
                detail: "agentmux recorded no child process for this turn".to_owned(),
            }
        },
    }
}

/// What one turn's files hold.
pub struct TurnFacts {
    /// Position in the consultation.
    pub index: u32,
    /// The question as asked.
    pub question: String,
    /// What the complete lines of the capture say, as far as the exit record lets it be read.
    pub events: Events,
    /// Where the capture is.
    pub events_path: String,
    /// Whether a launch record is there.
    pub launched: bool,
    /// The exit record, once the child has gone.
    pub exit: Option<ExitRecord>,
    /// The session the turn was to continue, where it was to continue one.
    pub resumed_from: Option<SessionRef>,
    /// The usage window found in the vendor's own session record.
    pub window: Option<RateLimit>,
    /// What was already rendered in place of a reply the stream lost.
    pub recovered: Option<String>,
    /// The closing message the CLI wrote out itself.
    pub last_message: Option<String>,
    /// When the capture was last written.
    pub last_write: Option<Moment>,
}

/// The turn a capture describes, before anything else is known.
pub open spec fn streamed(facts: TurnFacts) -> TurnModel {
    folded_turn(facts.index, facts.question@, facts.events)
}

/// The session a capture announces.
pub open spec fn announced(facts: TurnFacts) -> Option<Seq<char>> {
    folded_session(facts.index, facts.question@, facts.events)
}

/// Whether a turn that asked to continue one conversation opened another.
pub open spec fn lost_session(facts: TurnFacts) -> bool {
    match (session_of(facts.resumed_from), announced(facts)) {
        (Some(asked_for), Some(opened)) => asked_for != opened,
        _ => false,
    }
}

/// Whether a usage window is looked for in the vendor's own session record.
///
/// Codex says nothing about usage on the stream agentmux captures, but records it in the session
/// rollout it writes anyway.
/// Only once the turn is over: a running turn's rollout is still being written.
pub open spec fn wants_window(vendor: Vendor, turn: TurnModel, session: Option<Seq<char>>) -> bool {
    vendor == Vendor::Codex && turn.rate_limit is None && turn.outcome.terminal() && session is Some
}

/// Whether any message is part of the deliverable.
pub open spec fn has_report(messages: Seq<MessageModel>) -> bool {
    exists|i: int| 0 <= i < messages.len() && (#[trigger] messages[i]).is_report()
}

/// A text that says something, where there is one.
pub open spec fn said(text: Option<Seq<char>>) -> Option<Seq<char>> {
    match text {
        Some(t) if !is_blank(t) => Some(t),
        _ => None,
    }
}

/// The reply recovered for a finished turn whose stream carried none.
///
/// What was rendered once stays; a message the CLI wrote out late is recovered only into the
/// newest turn, so it can never land above a turn that followed.
pub open spec fn recovered_reply(
    turn: TurnModel,
    newest: bool,
    recovered: Option<Seq<char>>,
    last_message: Option<Seq<char>>,
) -> Option<Seq<char>> {
    if !turn.outcome.terminal() || has_report(turn.messages) {
        None
    } else if said(recovered) is Some {
        said(recovered)
    } else if newest {
        said(last_message)
    } else {
        None
    }
}

/// The turn that its files amount to.
pub open spec fn settled_turn(
    programs: ProgramsModel,
    vendor: Vendor,
    facts: TurnFacts,
    newest: bool,
) -> TurnModel {
    let stream = streamed(facts);
    let turn = TurnModel {
        outcome: settled_outcome(
            programs,
            stream.outcome,
            facts.exit,
            facts.launched,
            vendor,
            facts.events_path@,
        ),
        rate_limit: if wants_window(vendor, stream, announced(facts)) {
            limit_model(facts.window)
        } else {
            stream.rate_limit
        },
        broke_continuity: lost_session(facts),
        recovered: None,
        ..stream
    };
    TurnModel {
        recovered: recovered_reply(
            turn,
            newest,
            text_of(facts.recovered),
            text_of(facts.last_message),
        ),
        ..turn
    }
}

fn holds_report(turn: &Turn) -> (r: bool)
    ensures
        r == has_report(turn@.messages),
{
    let mut i: usize = 0;
    while i < turn.messages.len()
        invariant
            i <= turn.messages.len(),
            forall|j: int| 0 <= j < i ==> !(#[trigger] turn@.messages[j]).is_report(),
        decreases turn.messages.len() - i,
    {
        assert(turn@.messages[i as int] == turn.messages@[i as int]@);
        if turn.messages[i].is_report_content() {
            return true;
        }
        i = i + 1;
    }
    false
}

fn said_text(text: &Option<String>) -> (r: Option<String>)
    ensures
        text_of(r) == said(text_of(*text)),
{
    match text {
        Some(t) => if blank(t.as_str()) {
            None
        } else {
            Some(t.clone())
        },
        None => None,
    }
}

/// Recover a report the event stream lost but the CLI wrote out anyway.
///
/// Codex's `--output-last-message` file is written by the codex process rather than by the agent,
/// so it survives cases the event stream does not.
/// This only fires when the turn has finished and the stream yielded no report at all.
///
/// The recovered text lands in [`Turn::recovered`] rather than in [`Turn::messages`], because it
/// becomes readable strictly after the terminal event and so must render after the footer.
pub fn recover_from_last_message(
    turn: &Turn,
    newest: bool,
    recovered: &Option<String>,
    last_message: &Option<String>,
) -> (r: Option<String>)
    ensures
        text_of(r) == recovered_reply(turn@, newest, text_of(*recovered), text_of(*last_message)),
{
    if !turn.outcome.is_terminal() || holds_report(turn) {
        return None;
    }
    let kept = said_text(recovered);
    if kept.is_some() {
        return kept;
    }
    if newest {
        said_text(last_message)
    } else {
        None
    }
}

/// Whether the vendor's own session record is to be searched for a usage window.
pub fn wants_rollout(vendor: Vendor, turn: &Turn, session: &Option<SessionRef>) -> (r: bool)
    ensures
        r == wants_window(vendor, turn@, session_of(*session)),
{
    vendor == Vendor::Codex && turn.rate_limit.is_none() && turn.outcome.is_terminal()
        && session.is_some()
}

/// Whether what a turn's files hold can be folded: what was not recognised can be counted, and
/// a window found beside them has a calendar date.
pub open spec fn foldable(facts: TurnFacts) -> bool {
    countable(facts.events) && (facts.window matches Some(window) ==> window@.resets_at.valid())
}

/// One turn folded from its own files.
pub struct SettledTurn {
    /// The turn.
    pub turn: Turn,
    /// The session it announced.
    pub session: Option<SessionRef>,
}

/// Fold one turn from its files.
pub fn fold_turn(
    programs: &Programs,
    vendor: Vendor,
    facts: &TurnFacts,
    newest: bool,
) -> (r: SettledTurn)
    requires
        foldable(*facts),
    ensures
        r.turn@ == settled_turn(programs@, vendor, *facts, newest),
        session_of(r.session) == announced(*facts),
        tally_total(r.turn@.unrecognised) <= u32::MAX,
        r.turn@.rate_limit matches Some(limit) ==> limit.resets_at.valid(),
{
    let folded = fold(facts.index, facts.question.as_str(), &facts.events);
    let session = folded.session;
    let mut turn = folded.turn;
    // Both CLIs accept a resume against a session they no longer hold and answer from an empty
    // context rather than failing, so the only evidence is the identifier they hand back.
    let broke = match (&facts.resumed_from, &session) {
        (Some(asked_for), Some(opened)) => !same(asked_for.as_str(), opened.as_str()),
        _ => false,
    };
    if wants_rollout(vendor, &turn, &session) {
        turn.rate_limit =
        match &facts.window {
            Some(window) => Some(window.clone()),
            None => None,
        };
    }
    turn.broke_continuity = broke;
    turn.recovered = None;
    let stream = turn.outcome.clone();
    turn.outcome =
    settle_unfinished(
        programs,
        stream,
        &facts.exit,
        facts.launched,
        vendor,
        facts.events_path.as_str(),
    );
    let reply = recover_from_last_message(&turn, newest, &facts.recovered, &facts.last_message);
    turn.recovered = reply;
    SettledTurn { turn, session }
}

/// The later of two moments.
pub open spec fn later_of(a: Option<Moment>, b: Option<Moment>) -> Option<Moment> {
    match (a, b) {
        (Some(x), Some(y)) => if y.at() > x.at() {
            Some(y)
        } else {
            Some(x)
        },
        (Some(x), None) => Some(x),
        (None, _) => b,
    }
}

/// The later of two moments, where there are two.
pub fn later(a: Option<Moment>, b: Option<Moment>) -> (r: Option<Moment>)
    requires
        a matches Some(x) ==> x.valid(),
        b matches Some(y) ==> y.valid(),
    ensures
        r == later_of(a, b),
        r matches Some(m) ==> m.valid(),
{
    match (a, b) {
        (Some(x), Some(y)) => {
            if y.seconds > x.seconds || (y.seconds == x.seconds && y.nanos > x.nanos) {
                Some(y)
            } else {
                Some(x)
            }
        },
        (Some(x), None) => Some(x),
        (None, _) => b,
    }
}

/// The turns that a run's files amount to.
pub open spec fn settled_turns(
    programs: ProgramsModel,
    vendor: Vendor,
    files: Seq<TurnFacts>,
) -> Seq<TurnModel> {
    Seq::new(
        files.len(),
        |i: int| settled_turn(programs, vendor, files[i], i == files.len() - 1),
    )
}

/// The session a follow-up would continue: the last one announced.
pub open spec fn last_session(files: Seq<TurnFacts>) -> Option<Seq<char>>
    decreases files.len(),
{
    if files.len() == 0 {
        None
    } else if announced(files.last()) is Some {
        announced(files.last())
    } else {
        last_session(files.drop_last())
    }
}

/// When anything was last written.
pub open spec fn last_written(files: Seq<TurnFacts>) -> Option<Moment>
    decreases files.len(),
{
    if files.len() == 0 {
        None
    } else {
        later_of(last_written(files.drop_last()), files.last().last_write)
    }
}

/// Everything the fold over a run's capture files established.
pub struct RunState {
    /// What was asked and said.
    pub transcript: Transcript,
    /// The delegate's handle on the conversation.
    pub session: Option<SessionRef>,
    /// The index of the newest turn.
    pub newest_turn_index: u32,
    /// When anything was last written.
    pub last_activity: Option<Moment>,
}

/// The index of the newest of a run's turns.
pub open spec fn newest_index(files: Seq<TurnFacts>) -> u32 {
    if files.len() == 0 {
        0
    } else {
        files.last().index
    }
}

/// Rebuild a consultation from its capture files.
///
/// This is the only place a [`Transcript`] comes from.
/// Nothing is cached in memory between calls, which is what makes an agentmux restart mid-review
/// a non-event.
pub fn fold_run(programs: &Programs, vendor: Vendor, files: &Vec<TurnFacts>) -> (r: RunState)
    requires
        forall|i: int| 0 <= i < files@.len() ==> foldable(#[trigger] files@[i]),
        forall|i: int|
            0 <= i < files@.len() ==> ((#[trigger] files@[i]).last_write matches Some(m)
                ==> m.valid()),
    ensures
        r.transcript@ == settled_turns(programs@, vendor, files@),
        session_of(r.session) == last_session(files@),
        r.newest_turn_index == newest_index(files@),
        r.last_activity == last_written(files@),
        r.last_activity matches Some(m) ==> m.valid(),
        forall|i: int|
            0 <= i < r.transcript@.len() ==> tally_total(
                (#[trigger] r.transcript@[i]).unrecognised,
            ) <= u32::MAX,
        forall|i: int|
            0 <= i < r.transcript@.len() ==> ((#[trigger] r.transcript@[i]).rate_limit matches Some(
                limit,
            ) ==> limit.resets_at.valid()),
{
    let mut turns: Vec<Turn> = Vec::new();
    let mut session: Option<SessionRef> = None;
    let mut newest: u32 = 0;
    let mut last_activity: Option<Moment> = None;
    let mut i: usize = 0;
    let ghost all = settled_turns(programs@, vendor, files@);
    assert(files@.take(0) =~= Seq::empty());
    while i < files.len()
        invariant
            i <= files.len(),
            all == settled_turns(programs@, vendor, files@),
            forall|j: int| 0 <= j < files@.len() ==> foldable(#[trigger] files@[j]),
            forall|j: int|
                0 <= j < files@.len() ==> ((#[trigger] files@[j]).last_write matches Some(m)
                    ==> m.valid()),
            turns@.len() == i,
            forall|j: int| 0 <= j < i ==> (#[trigger] turns@[j])@ == all[j],
            forall|j: int|
                0 <= j < i ==> tally_total((#[trigger] turns@[j])@.unrecognised) <= u32::MAX,
            forall|j: int|
                0 <= j < i ==> ((#[trigger] turns@[j])@.rate_limit matches Some(limit)
                    ==> limit.resets_at.valid()),
            session_of(session) == last_session(files@.take(i as int)),
            newest == newest_index(files@.take(i as int)),
            last_activity == last_written(files@.take(i as int)),
            last_activity matches Some(m) ==> m.valid(),
        decreases files.len() - i,
    {
        let facts = &files[i];
        let ghost more = files@.take(i + 1);
        assert(more.drop_last() =~= files@.take(i as int));
        assert(more.last() == files@[i as int]);
        let settled = fold_turn(programs, vendor, facts, i == files.len() - 1);
        last_activity = later(last_activity, facts.last_write);
        newest = facts.index;
        if settled.session.is_some() {
            session = settled.session;
        }
        turns.push(settled.turn);
        i = i + 1;
    }
    assert(files@.take(i as int) =~= files@);
    let transcript = Transcript { turns };
    assert(transcript@ =~= all);
    RunState { transcript, session, newest_turn_index: newest, last_activity }
}

/// The session a follow-up would continue, or why there is none.
pub open spec fn resumable(
    run_id: Seq<char>,
    turns: Seq<TurnModel>,
    session: Option<Seq<char>>,
) -> Result<Seq<char>, NotResumableModel> {
    let outcome = newest_outcome(turns);
    if !outcome.terminal() {
        Err(NotResumableModel::StillRunning { run_id })
    } else if outcome is Cancelled {
        Err(NotResumableModel::Cancelled { run_id })
    } else if !spoke(turns) {
        Err(NotResumableModel::NothingSaid { run_id, state: state_name(outcome) })
    } else {
        match session {
            Some(session) => Ok(session),
            None => Err(NotResumableModel::NoSession { run_id }),
        }
    }
}

/// The session a follow-up would continue, or why there is none.
///
/// The one predicate behind both `follow_up` and `status.resumable`, so what is advertised and
/// what is accepted cannot drift apart.
/// Every condition is evidence rather than a rule about failure categories: a session was
/// announced, the delegate said something worth continuing, and the newest turn is finished and
/// was not interrupted mid-thought.
pub fn resumable_session(run_id: &RunId, state: &RunState) -> (r: Result<SessionRef, NotResumable>)
    ensures
        match r {
            Ok(session) => resumable(
                run_id@,
                state.transcript@,
                session_of(state.session),
            ) == Ok::<_, NotResumableModel>(session@),
            Err(reason) => resumable(
                run_id@,
                state.transcript@,
                session_of(state.session),
            ) == Err::<Seq<char>, _>(reason@),
        },
{
    let outcome = state.transcript.outcome();
    if !outcome.is_terminal() {
        return Err(NotResumable::StillRunning { run_id: run_id.clone() });
    }
    if let Outcome::Cancelled = &outcome {
        return Err(NotResumable::Cancelled { run_id: run_id.clone() });
    }
    if !state.transcript.has_delegate_content() {
        return Err(NotResumable::NothingSaid { run_id: run_id.clone(), state: outcome.state() });
    }
    match &state.session {
        Some(session) => Ok(session.clone()),
        None => Err(NotResumable::NoSession { run_id: run_id.clone() }),
    }
}

/// The turns of a consultation, one after the other.
pub open spec fn turns_text(turns: Seq<TurnModel>) -> Seq<char>
    decreases turns.len(),
{
    if turns.len() == 0 {
        Seq::empty()
    } else {
        turns_text(turns.drop_last()) + turn_text(turns.last())
    }
}

/// How a consultation opens.
///
/// Built only from values fixed when the consultation was created.
pub open spec fn consultation_head(
    programs: ProgramsModel,
    run_id: Seq<char>,
    delegate: DelegateModel,
    cwd: Seq<char>,
    created_at: Moment,
) -> Seq<char> {
    "# Consultation "@ + run_id + "\n\n- delegate: "@ + delegate_summary(programs, delegate)
        + "\n- working directory: `"@ + cwd + "`\n- started: "@ + rfc3339_text(
        created_at.seconds,
        created_at.nanos,
    ) + "\n"@
}

/// How a whole consultation reads.
pub open spec fn consultation_text(
    programs: ProgramsModel,
    meta: Meta,
    turns: Seq<TurnModel>,
) -> Seq<char> {
    consultation_head(programs, meta.run_id@, meta.delegate@, meta.cwd@, meta.created_at)
        + turns_text(turns)
}

/// Render the whole consultation as Markdown.
///
/// The result is **append-only for the life of the consultation**, which is the contract a page is
/// read by byte offset under and a cursor is handed back under.
/// Two things make that true: the header is built only from values fixed when the consultation was
/// created, and each turn's body grows only at its end.
pub fn render(programs: &Programs, meta: &Meta, transcript: &Transcript) -> (r: String)
    requires
        meta.created_at.valid(),
        forall|i: int|
            0 <= i < transcript@.len() ==> tally_total((#[trigger] transcript@[i]).unrecognised)
                <= u32::MAX,
    ensures
        r@ == consultation_text(programs@, *meta, transcript@),
{
    let mut out = "# Consultation ".to_owned();
    out.append(meta.run_id.as_str());
    out.append("\n\n- delegate: ");
    out.append(meta.delegate.summary(programs).as_str());
    out.append("\n- working directory: `");
    out.append(meta.cwd.as_str());
    out.append("`\n- started: ");
    out.append(rfc3339(meta.created_at).as_str());
    out.append("\n");
    let ghost head = out@;
    let mut i: usize = 0;
    assert(transcript@.take(0) =~= Seq::empty());
    assert(head + turns_text(transcript@.take(0)) =~= head);
    while i < transcript.turns.len()
        invariant
            i <= transcript.turns.len(),
            out@ == head + turns_text(transcript@.take(i as int)),
            forall|j: int|
                0 <= j < transcript@.len() ==> tally_total(
                    (#[trigger] transcript@[j]).unrecognised,
                ) <= u32::MAX,
        decreases transcript.turns.len() - i,
    {
        let ghost more = transcript@.take(i + 1);
        assert(more.drop_last() =~= transcript@.take(i as int));
        assert(more.last() == transcript@[i as int]);
        assert(transcript@[i as int] == transcript.turns@[i as int]@);
        let text = render_turn(&transcript.turns[i]);
        let ghost had = turns_text(transcript@.take(i as int));
        out.append(text.as_str());
        assert(out@ =~= head + (had + text@));
        i = i + 1;
    }
    assert(transcript@.take(i as int) =~= transcript@);
    out
}

/// Whether a capture only gained lines.
pub open spec fn events_grow(before: Events, after: Events) -> bool {
    match (before, after) {
        (Events::Claude(a), Events::Claude(b)) => a@.is_prefix_of(b@),
        (Events::Codex(a), Events::Codex(b)) => a@.is_prefix_of(b@),
        _ => false,
    }
}

/// Whether what a turn's files hold later is what it can be, given what they held before.
///
/// The capture only gains lines; a turn with an exit record gains none and keeps the record; what
/// was rendered as recovered is kept; and a recorded launch stays recorded.
pub open spec fn follows(
    programs: ProgramsModel,
    vendor: Vendor,
    before: TurnFacts,
    newest: bool,
    after: TurnFacts,
) -> bool {
    &&& after.index == before.index
    &&& after.question@ == before.question@
    &&& after.events_path@ == before.events_path@
    &&& events_grow(before.events, after.events)
    &&& before.launched || before.exit is Some
    &&& before.launched ==> after.launched
    &&& before.exit is Some ==> after.exit == before.exit && after.events == before.events
    &&& settled_turn(programs, vendor, before, newest).recovered matches Some(text) ==> text_of(
        after.recovered,
    ) == Some(text)
}

/// What a later reading says of a turn starts with what an earlier one said.
proof fn lemma_turn_grows(
    programs: ProgramsModel,
    vendor: Vendor,
    before: TurnFacts,
    was_newest: bool,
    after: TurnFacts,
    is_newest: bool,
)
    requires
        follows(programs, vendor, before, was_newest, after),
        streamed(before).outcome.terminal() || before.exit is Some,
    ensures
        turn_text(settled_turn(programs, vendor, before, was_newest)).is_prefix_of(
            turn_text(settled_turn(programs, vendor, after, is_newest)),
        ),
{
    lemma_stream_ends(before, after);
    let a = settled_turn(programs, vendor, before, was_newest);
    let b = settled_turn(programs, vendor, after, is_newest);
    assert(streamed(after) == streamed(before));
    assert(a.outcome == b.outcome);
    assert(a.messages == b.messages);
    let plain = TurnModel { recovered: None, ..a };
    let gained = TurnModel { recovered: b.recovered, ..a };
    assert(turn_text(gained) == turn_text(b));
    if a.recovered is None {
        assert(plain == a);
        recovery_only_appends(a, gained);
    } else {
        assert(b.recovered == a.recovered);
    }
}

proof fn lemma_stream_ends(before: TurnFacts, after: TurnFacts)
    requires
        after.index == before.index,
        after.question@ == before.question@,
        events_grow(before.events, after.events),
        streamed(before).outcome.terminal() || after.events == before.events,
    ensures
        streamed(after) == streamed(before),
{
    if after.events != before.events {
        match (before.events, after.events) {
            (Events::Claude(a), Events::Claude(b)) => {
                assert(b@.take(a@.len() as int) =~= a@);
                claude::nothing_follows_the_end(
                    before.index,
                    before.question@,
                    b@,
                    a@.len() as int,
                );
            },
            (Events::Codex(a), Events::Codex(b)) => {
                assert(b@.take(a@.len() as int) =~= a@);
                codex::nothing_follows_the_end(
                    before.index,
                    before.question@,
                    b@,
                    a@.len() as int,
                );
            },
            _ => {},
        }
    }
}

proof fn lemma_messages_kept(before: TurnFacts, after: TurnFacts)
    requires
        after.index == before.index,
        after.question@ == before.question@,
        events_grow(before.events, after.events),
    ensures
        streamed(before).messages.is_prefix_of(streamed(after).messages),
        streamed(before).index == streamed(after).index,
        streamed(before).question == streamed(after).question,
{
    match (before.events, after.events) {
        (Events::Claude(a), Events::Claude(b)) => {
            assert(b@.take(a@.len() as int) =~= a@);
            claude::messages_are_kept(before.index, before.question@, b@, a@.len() as int);
            claude::lemma_same_question(before.index, before.question@, a@);
            claude::lemma_same_question(before.index, before.question@, b@);
        },
        (Events::Codex(a), Events::Codex(b)) => {
            assert(b@.take(a@.len() as int) =~= a@);
            codex::messages_are_kept(before.index, before.question@, b@, a@.len() as int);
            codex::lemma_same_question(before.index, before.question@, a@);
            codex::lemma_same_question(before.index, before.question@, b@);
        },
        _ => {},
    }
}

/// A turn only grows: whatever its capture gains, whoever settles it and whatever is recovered for
/// it, what was rendered of it stands unchanged at the start of what is rendered later.
pub proof fn a_turn_only_grows(
    programs: ProgramsModel,
    vendor: Vendor,
    before: TurnFacts,
    was_newest: bool,
    after: TurnFacts,
    is_newest: bool,
)
    requires
        follows(programs, vendor, before, was_newest, after),
    ensures
        turn_text(settled_turn(programs, vendor, before, was_newest)).is_prefix_of(
            turn_text(settled_turn(programs, vendor, after, is_newest)),
        ),
{
    if streamed(before).outcome.terminal() || before.exit is Some {
        lemma_turn_grows(programs, vendor, before, was_newest, after, is_newest);
    } else {
        lemma_messages_kept(before, after);
        running_turn_only_grows(
            settled_turn(programs, vendor, before, was_newest),
            settled_turn(programs, vendor, after, is_newest),
        );
    }
}

proof fn lemma_turns_grow(a: Seq<TurnModel>, b: Seq<TurnModel>)
    requires
        a.len() <= b.len(),
        forall|i: int| 0 <= i < a.len() - 1 ==> turn_text(#[trigger] a[i]) == turn_text(b[i]),
        a.len() > 0 ==> turn_text(a.last()).is_prefix_of(turn_text(b[a.len() - 1])),
    ensures
        turns_text(a).is_prefix_of(turns_text(b)),
    decreases b.len(),
{
    if a.len() == 0 {
    } else if a.len() < b.len() {
        assert(forall|i: int| 0 <= i < a.len() ==> b.drop_last()[i] == b[i]);
        lemma_turns_grow(a, b.drop_last());
    } else {
        lemma_same_text(a.drop_last(), b.drop_last());
        let head = turns_text(a.drop_last());
        let x = turn_text(a.last());
        let y = turn_text(b.last());
        assert(head + y =~= (head + x) + y.skip(x.len() as int));
    }
}

proof fn lemma_same_text(a: Seq<TurnModel>, b: Seq<TurnModel>)
    requires
        a.len() == b.len(),
        forall|i: int| 0 <= i < a.len() ==> turn_text(#[trigger] a[i]) == turn_text(b[i]),
    ensures
        turns_text(a) == turns_text(b),
    decreases a.len(),
{
    if a.len() > 0 {
        assert(a.last() == a[a.len() - 1]);
        assert(forall|i: int| 0 <= i < a.len() - 1 ==> a.drop_last()[i] == a[i]);
        lemma_same_text(a.drop_last(), b.drop_last());
    }
}

/// Every cursor stays valid: a consultation read again — with more in its newest capture, with
/// that turn settled, with its lost reply recovered, or with further turns — starts with
/// everything that was rendered of it before.
///
/// A turn that has been followed by another has been settled, so its files hold what they held.
pub proof fn the_transcript_only_grows(
    programs: ProgramsModel,
    meta: Meta,
    vendor: Vendor,
    before: Seq<TurnFacts>,
    after: Seq<TurnFacts>,
)
    requires
        before.len() <= after.len(),
        forall|i: int| 0 <= i < before.len() - 1 ==> #[trigger] before[i] == after[i],
        before.len() > 0 ==> follows(
            programs,
            vendor,
            before.last(),
            true,
            after[before.len() - 1],
        ),
    ensures
        consultation_text(programs, meta, settled_turns(programs, vendor, before)).is_prefix_of(
            consultation_text(programs, meta, settled_turns(programs, vendor, after)),
        ),
{
    let a = settled_turns(programs, vendor, before);
    let b = settled_turns(programs, vendor, after);
    if before.len() > 0 {
        let n = before.len() - 1;
        a_turn_only_grows(programs, vendor, before.last(), true, after[n], n == after.len() - 1);
        assert forall|i: int| 0 <= i < a.len() - 1 implies turn_text(#[trigger] a[i]) == turn_text(
            b[i],
        ) by {
            assert(before[i] == after[i]);
        }
    }
    lemma_turns_grow(a, b);
    let head = consultation_head(programs, meta.run_id@, meta.delegate@, meta.cwd@, meta.created_at);
    let x = turns_text(a);
    let y = turns_text(b);
    assert(head + y =~= (head + x) + y.skip(x.len() as int));
}

/// A terminal event in the stream is authoritative: neither an exit record nor what is known of
/// the child changes what it says.
pub proof fn the_stream_is_authoritative(
    programs: ProgramsModel,
    stream: OutcomeModel,
    exit: Option<ExitRecord>,
    launched: bool,
    vendor: Vendor,
    events_path: Seq<char>,
)
    requires
        stream.terminal(),
    ensures
        settled_outcome(programs, stream, exit, launched, vendor, events_path) == stream,
{
}

/// A failure keeps what was collected: settling a turn, however it ended, leaves its messages as
/// the stream had them.
pub proof fn a_failure_keeps_the_work(
    programs: ProgramsModel,
    vendor: Vendor,
    facts: TurnFacts,
    newest: bool,
)
    ensures
        settled_turn(programs, vendor, facts, newest).messages == streamed(facts).messages,
        settled_turn(programs, vendor, facts, newest).question == streamed(facts).question,
{
}

/// An exit record settles a turn for good: once it is there, the turn is over.
pub proof fn a_recorded_exit_ends_the_turn(
    programs: ProgramsModel,
    vendor: Vendor,
    facts: TurnFacts,
    newest: bool,
)
    requires
        facts.exit is Some,
    ensures
        settled_turn(programs, vendor, facts, newest).outcome.terminal(),
{
}

} // verus!
