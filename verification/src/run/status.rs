//! What a caller is told of a consultation.

use vstd::prelude::*;
use vstd::string::*;

use crate::delegate::{delegate_summary, Delegate, Isolation, Programs};
use crate::ordered::{before, lemma_precedes_irreflexive, lemma_precedes_transitive, precedes};
use crate::path::joined_path;
use crate::quota::AccountQuota;
use crate::run::paging::{first_line, headline, page_of, page_end, page_start, TranscriptPage};
use crate::run::settle::{resumable, resumable_session, RunState};
use crate::run::{
    model_of, run_path, turn_path, HookReopening, Meta, RunId, RunStore,
};
use crate::stream::session_of;
use crate::text::text_of;
use crate::time::{since, Moment, Span, NANOS};
use crate::transcript::{
    all_messages, count_over, earlier_failure_of, limit_model, newest_outcome, reopened, tally_over,
    usage_over, Cost, FailureKind, Outcome, OutcomeModel, RateLimit, RateLimitModel, Transcript,
    TurnModel, UnrecognisedEvents, Usage,
};

verus! {

/// A consultation as a caller sees it.
pub struct RunStatus {
    /// The consultation's id.
    pub run_id: RunId,
    /// Who is being consulted.
    pub delegate: Delegate,
    /// The model the caller asked for, where this machine's configuration exchanged it.
    pub requested_model: Option<String>,
    /// The model the vendor says it ran, where it says so.
    pub resolved_model: Option<String>,
    /// The directory the delegate is reading the project from.
    ///
    /// Reported because getting it wrong is silent: a delegate pointed at the wrong worktree
    /// returns a confident review of code that was never under review.
    pub cwd: String,
    /// `running`, `completed`, `failed` or `cancelled`, with the detail of a failure.
    pub outcome: Outcome,
    /// When `start` was called.
    pub created_at: Moment,
    /// How long the consultation has been going, or how long it took.
    pub elapsed: Span,
    /// How many turns the consultation has.
    pub turns: u32,
    /// How many messages the transcript holds across every turn.
    ///
    /// Counts hook injections and agentmux's own notes alongside the delegate's replies, because
    /// a caller polling this wants to know that *something* arrived.
    pub message_count: usize,
    /// Token accounting so far.
    pub usage: Usage,
    /// Reported dollar cost so far, where the vendor reports one.
    pub cost_usd: Option<Cost>,
    /// Event types the parser met but does not model.
    pub unrecognised: UnrecognisedEvents,
    /// What it means that a hook reopened a finished turn, when one did.
    ///
    /// Decided here rather than by each front end, because the same event means opposite things
    /// depending on what the run loaded and every reader has to say the same thing about it.
    pub hook_reopening: Option<HookReopening>,
    /// An earlier turn that failed, when the newest turn is not the one that failed.
    ///
    /// Without this a follow-up onto a failed turn would report the consultation as `completed`
    /// and leave the failure visible only deep inside the transcript body.
    pub earlier_failure: Option<(u32, FailureKind)>,
    /// What each account of this vendor had left, when the consultation was rate limited.
    ///
    /// Empty for every other outcome: probing costs a process, and the answer is only actionable
    /// when the caller has just been refused.
    pub quota: Vec<AccountQuota>,
    /// The most recent usage window the delegate reported, when it reported one.
    ///
    /// Carried out of the transcript because the right response to a rate limit depends on how
    /// long the window has left.
    pub rate_limit: Option<RateLimit>,
    /// Whether any turn asked to continue a session and silently opened a new one instead.
    pub broke_continuity: bool,
    /// Where the rendered transcript is written.
    pub transcript_path: String,
    /// Where the delegate's raw event stream for the newest turn is written.
    pub events_path: String,
    /// Where the delegate's stderr for the newest turn is written.
    pub stderr_path: String,
    /// The size of the rendered transcript, which is also the cursor a `tail` would end at.
    pub transcript_bytes: u64,
    /// Whether a follow-up is possible: the delegate announced a resumable session.
    pub resumable: bool,
}

impl RunStatus {
    /// Whether nothing more can arrive.
    pub fn is_terminal(&self) -> (r: bool)
        ensures
            r == self.outcome@.terminal(),
    {
        self.outcome.is_terminal()
    }
}

/// One line about a consultation, for `list`.
pub struct RunSummary {
    /// The consultation's id.
    pub run_id: RunId,
    /// A one-line description of the delegate.
    pub delegate: String,
    /// How the consultation stands.
    pub outcome: Outcome,
    /// When `start` was called.
    pub created_at: Moment,
    /// The first line of the question, truncated.
    pub question: String,
}

/// When a consultation's clock stops: at the last write once it is over, and not before.
pub open spec fn clock_end(over: bool, last_activity: Option<Moment>, at: Moment) -> Moment {
    match last_activity {
        Some(last) if over => last,
        _ => at,
    }
}

/// How long a consultation has been going, or how long it took.
///
/// A finished consultation's clock stops at the last write to a capture file rather than at now,
/// so a run collected an hour after it finished does not report a one-hour duration.
/// A clock that went backwards gives no time at all.
pub fn elapsed_since(
    created_at: Moment,
    over: bool,
    last_activity: Option<Moment>,
    at: Moment,
) -> (r: Span)
    requires
        created_at.valid(),
        at.valid(),
        last_activity matches Some(last) ==> last.valid(),
    ensures
        r.nanos < NANOS,
        ({
            let end = clock_end(over, last_activity, at).at();
            r.length() == if end < created_at.at() {
                0
            } else {
                end - created_at.at()
            }
        }),
{
    let end = match last_activity {
        Some(last) => if over {
            last
        } else {
            at
        },
        None => at,
    };
    match since(end, created_at) {
        Some(span) => span,
        None => Span { seconds: 0, nanos: 0 },
    }
}

/// The newest usage window any turn disclosed.
///
/// An earlier turn's reading is stale the moment another arrives.
pub open spec fn newest_limit(turns: Seq<TurnModel>) -> Option<RateLimitModel>
    decreases turns.len(),
{
    if turns.len() == 0 {
        None
    } else if turns.last().rate_limit is Some {
        turns.last().rate_limit
    } else {
        newest_limit(turns.drop_last())
    }
}

/// The newest model any turn was answered by, as the vendor says.
pub open spec fn newest_model(turns: Seq<TurnModel>) -> Option<Seq<char>>
    decreases turns.len(),
{
    if turns.len() == 0 {
        None
    } else if turns.last().resolved_model is Some {
        turns.last().resolved_model
    } else {
        newest_model(turns.drop_last())
    }
}

fn find_limit(transcript: &Transcript) -> (r: Option<RateLimit>)
    ensures
        limit_model(r) == newest_limit(transcript@),
{
    let mut i: usize = transcript.turns.len();
    assert(transcript@.take(i as int) =~= transcript@);
    while i > 0
        invariant
            i <= transcript.turns.len(),
            newest_limit(transcript@.take(i as int)) == newest_limit(transcript@),
        decreases i,
    {
        assert(transcript@.take(i as int).last() == transcript.turns@[i - 1]@);
        assert(transcript@.take(i as int).drop_last() =~= transcript@.take(i - 1));
        if let Some(limit) = &transcript.turns[i - 1].rate_limit {
            return Some(limit.clone());
        }
        i = i - 1;
    }
    None
}

fn find_model(transcript: &Transcript) -> (r: Option<String>)
    ensures
        text_of(r) == newest_model(transcript@),
{
    let mut i: usize = transcript.turns.len();
    assert(transcript@.take(i as int) =~= transcript@);
    while i > 0
        invariant
            i <= transcript.turns.len(),
            newest_model(transcript@.take(i as int)) == newest_model(transcript@),
        decreases i,
    {
        assert(transcript@.take(i as int).last() == transcript.turns@[i - 1]@);
        assert(transcript@.take(i as int).drop_last() =~= transcript@.take(i - 1));
        if let Some(model) = &transcript.turns[i - 1].resolved_model {
            return Some(model.clone());
        }
        i = i - 1;
    }
    None
}

fn lost_continuity(transcript: &Transcript) -> (r: bool)
    ensures
        r == exists|i: int|
            0 <= i < transcript@.len() && (#[trigger] transcript@[i]).broke_continuity,
{
    let mut i: usize = 0;
    while i < transcript.turns.len()
        invariant
            i <= transcript.turns.len(),
            forall|j: int| 0 <= j < i ==> !(#[trigger] transcript@[j]).broke_continuity,
        decreases transcript.turns.len() - i,
    {
        assert(transcript@[i as int] == transcript.turns@[i as int]@);
        if transcript.turns[i].broke_continuity {
            return true;
        }
        i = i + 1;
    }
    false
}

/// What is known of a consultation beside its record and its fold.
pub struct Reading {
    /// How many bytes the whole render has.
    pub rendered_bytes: u64,
    /// What every completed turn together cost, where the vendor says.
    pub cost_usd: Option<Cost>,
    /// What the accounts of the vendor have left.
    pub quota: Vec<AccountQuota>,
    /// When this is.
    pub at: Moment,
}

/// Whether a hook reopened any turn.
pub open spec fn any_reopened(turns: Seq<TurnModel>) -> bool {
    exists|i: int| 0 <= i < turns.len() && reopened((#[trigger] turns[i]).messages)
}

/// What a reopening means for a run, where there was one.
pub open spec fn reopening_of(happened: bool, isolation: Option<Isolation>) -> Option<
    HookReopening,
> {
    if !happened {
        None
    } else if isolation == Some(Isolation::Inherit) {
        Some(HookReopening::Expected)
    } else {
        Some(HookReopening::Unexpected)
    }
}

/// How many turns there are, as far as that can be counted.
pub open spec fn turn_count(turns: Seq<TurnModel>) -> u32 {
    if turns.len() <= u32::MAX {
        turns.len() as u32
    } else {
        u32::MAX
    }
}

/// Describe a consultation from one reading of its files.
///
/// One fold serves the state and the page, so the two describe the same instant.
/// A follow-up is advertised only when it would actually work, because the caller that takes the
/// recommendation pays for the turn.
pub fn describe(store: &RunStore, meta: &Meta, state: &RunState, reading: Reading) -> (r: RunStatus)
    requires
        meta.created_at.valid(),
        reading.at.valid(),
        state.last_activity matches Some(last) ==> last.valid(),
        forall|kind: Seq<char>| #[trigger] count_over(state.transcript@, kind) <= u32::MAX,
    ensures
        r.run_id@ == meta.run_id@,
        r.delegate@ == meta.delegate@,
        text_of(r.requested_model) == model_of(meta.requested_model),
        text_of(r.resolved_model) == newest_model(state.transcript@),
        r.cwd@ == meta.cwd@,
        r.outcome@ == newest_outcome(state.transcript@),
        r.created_at == meta.created_at,
        r.elapsed.nanos < NANOS,
        ({
            let end = clock_end(
                newest_outcome(state.transcript@).terminal(),
                state.last_activity,
                reading.at,
            ).at();
            r.elapsed.length() == if end < meta.created_at.at() {
                0
            } else {
                end - meta.created_at.at()
            }
        }),
        r.turns == turn_count(state.transcript@),
        r.message_count == all_messages(state.transcript@).len(),
        r.usage == usage_over(state.transcript@),
        r.cost_usd == reading.cost_usd,
        r.unrecognised@ == tally_over(state.transcript@),
        r.hook_reopening == reopening_of(
            any_reopened(state.transcript@),
            meta.delegate@.isolation,
        ),
        r.earlier_failure == earlier_failure_of(state.transcript@),
        r.quota == reading.quota,
        limit_model(r.rate_limit) == newest_limit(state.transcript@),
        r.broke_continuity == exists|i: int|
            0 <= i < state.transcript@.len() && (
            #[trigger] state.transcript@[i]).broke_continuity,
        r.transcript_path@ == joined_path(
            store@.platform,
            run_path(store@.platform, store@.root, meta.run_id@),
            "transcript.md"@,
        ),
        r.events_path@ == joined_path(
            store@.platform,
            turn_path(store@.platform, store@.root, meta.run_id@, state.newest_turn_index),
            "events.jsonl"@,
        ),
        r.stderr_path@ == joined_path(
            store@.platform,
            turn_path(store@.platform, store@.root, meta.run_id@, state.newest_turn_index),
            "stderr.log"@,
        ),
        r.transcript_bytes == reading.rendered_bytes,
        r.resumable == resumable(
            meta.run_id@,
            state.transcript@,
            session_of(state.session),
        ) is Ok,
{
    let outcome = state.transcript.outcome();
    let over = outcome.is_terminal();
    let turn = store.turn_dir(&meta.run_id, state.newest_turn_index);
    let messages = state.transcript.messages();
    let message_count: usize = messages.len();
    assert(message_count == all_messages(state.transcript@).len()) by {
        assert(messages@.map_values(|m: &crate::transcript::Message| m@).len() == messages@.len());
    }
    let count: usize = state.transcript.turns.len();
    let turns: u32 = if count <= 4_294_967_295usize {
        count as u32
    } else {
        4_294_967_295u32
    };
    RunStatus {
        run_id: meta.run_id.clone(),
        delegate: meta.delegate.clone(),
        requested_model: match &meta.requested_model {
            Some(model) => Some(model.as_str().to_owned()),
            None => None,
        },
        resolved_model: find_model(&state.transcript),
        cwd: meta.cwd.clone(),
        elapsed: elapsed_since(meta.created_at, over, state.last_activity, reading.at),
        created_at: meta.created_at,
        turns,
        message_count,
        usage: state.transcript.usage(),
        cost_usd: reading.cost_usd,
        unrecognised: state.transcript.unrecognised(),
        hook_reopening: HookReopening::of(
            state.transcript.was_reopened_by_hook(),
            meta.delegate.isolation(),
        ),
        earlier_failure: state.transcript.earlier_failure(),
        quota: reading.quota,
        rate_limit: find_limit(&state.transcript),
        broke_continuity: lost_continuity(&state.transcript),
        transcript_path: store.transcript_path(&meta.run_id),
        events_path: turn.events(),
        stderr_path: turn.stderr(),
        transcript_bytes: reading.rendered_bytes,
        resumable: resumable_session(&meta.run_id, state).is_ok(),
        outcome,
    }
}

/// What is advertised is what is accepted: a status says that a follow-up is possible exactly where
/// the session it would continue is there to be handed over.
pub proof fn an_advertised_follow_up_is_accepted(
    run_id: Seq<char>,
    turns: Seq<TurnModel>,
    session: Option<Seq<char>>,
)
    ensures
        resumable(run_id, turns, session) is Ok ==> resumable(run_id, turns, session)
            == Ok::<_, crate::run::NotResumableModel>(session->Some_0),
        resumable(run_id, turns, session) is Ok == (newest_outcome(turns).terminal()
            && !(newest_outcome(turns) is Cancelled) && crate::transcript::spoke(turns)
            && session is Some),
{
}

impl RunStore {
    /// One page of a rendered transcript.
    pub fn page(&self, full: &str, offset: u64, max_bytes: usize) -> (r: TranscriptPage)
        ensures
            r.total_bytes == vstd::utf8::encode_utf8(full@).len(),
            r.offset == page_start(vstd::utf8::encode_utf8(full@), offset as int),
            r.next_offset == page_end(
                vstd::utf8::encode_utf8(full@),
                r.offset as int,
                max_bytes as int,
            ),
            r.at_end == (r.next_offset >= r.total_bytes),
            vstd::utf8::encode_utf8(r.text@) == vstd::utf8::encode_utf8(full@).subrange(
                r.offset as int,
                r.next_offset as int,
            ),
    {
        page_of(full, offset, max_bytes)
    }
}

/// How many characters of a question's first line are shown in a list.
pub const HEADLINE: usize = 120;

/// One line about a consultation.
///
/// The outcome is the newest turn's, and the question is the first turn's own file; neither needs
/// the whole consultation folded.
pub fn summarise_run(
    programs: &Programs,
    meta: &Meta,
    outcome: Option<Outcome>,
    question: Option<&str>,
) -> (r:
    RunSummary)
    ensures
        r.run_id@ == meta.run_id@,
        r.delegate@ == delegate_summary(programs@, meta.delegate@),
        r.outcome@ == match outcome {
            Some(o) => o@,
            None => OutcomeModel::Running,
        },
        r.created_at == meta.created_at,
        r.question@ == match question {
            Some(q) => headline(q@, HEADLINE as nat),
            None => Seq::empty(),
        },
{
    RunSummary {
        run_id: meta.run_id.clone(),
        delegate: meta.delegate.summary(programs),
        outcome: match outcome {
            Some(outcome) => outcome,
            None => Outcome::Running,
        },
        created_at: meta.created_at,
        question: match question {
            Some(question) => first_line(question, HEADLINE),
            None => String::new(),
        },
    }
}

/// Whether one consultation is listed before another: the one that began later is, and of two
/// that began at once the one whose id comes later.
pub open spec fn newer(a: Meta, b: Meta) -> bool {
    a.created_at.at() > b.created_at.at() || (a.created_at.at() == b.created_at.at() && precedes(
        b.run_id@,
        a.run_id@,
    ))
}

/// Whether consultations are listed newest first.
pub open spec fn newest_first(metas: Seq<Meta>) -> bool {
    forall|i: int, j: int|
        0 <= i < j < metas.len() ==> !newer(#[trigger] metas[j], #[trigger] metas[i])
}

fn is_newer(a: &Meta, b: &Meta) -> (r: bool)
    requires
        a.created_at.nanos < NANOS,
        b.created_at.nanos < NANOS,
    ensures
        r == newer(*a, *b),
{
    if a.created_at.seconds != b.created_at.seconds {
        a.created_at.seconds > b.created_at.seconds
    } else if a.created_at.nanos != b.created_at.nanos {
        a.created_at.nanos > b.created_at.nanos
    } else {
        before(b.run_id.as_str(), a.run_id.as_str())
    }
}

proof fn lemma_newer_transitive(a: Meta, b: Meta, c: Meta)
    requires
        newer(a, b),
        newer(b, c),
    ensures
        newer(a, c),
        !newer(a, a),
{
    lemma_precedes_irreflexive(a.run_id@);
    if a.created_at.at() == b.created_at.at() && b.created_at.at() == c.created_at.at() {
        lemma_precedes_transitive(c.run_id@, b.run_id@, a.run_id@);
    }
}

fn insert_newest_first(list: &mut Vec<Meta>, meta: Meta)
    requires
        newest_first(old(list)@),
        forall|i: int| 0 <= i < old(list)@.len() ==> (#[trigger] old(list)@[i]).created_at.nanos < NANOS,
        meta.created_at.nanos < NANOS,
    ensures
        newest_first(final(list)@),
        forall|i: int|
            0 <= i < final(list)@.len() ==> (#[trigger] final(list)@[i]).created_at.nanos < NANOS,
        final(list)@.to_multiset() == old(list)@.to_multiset().insert(meta),
        final(list)@.len() == old(list)@.len() + 1,
{
    let mut at: usize = 0;
    while at < list.len() && !is_newer(&meta, &list[at])
        invariant
            at <= list.len(),
            list@ == old(list)@,
            forall|i: int| 0 <= i < list@.len() ==> (#[trigger] list@[i]).created_at.nanos < NANOS,
            meta.created_at.nanos < NANOS,
            forall|j: int| 0 <= j < at ==> !newer(meta, #[trigger] list@[j]),
        decreases list.len() - at,
    {
        at = at + 1;
    }
    let ghost had = list@;
    list.insert(at, meta);
    proof {
        let now = list@;
        assert(now =~= had.insert(at as int, meta));
        assert forall|i: int, j: int| 0 <= i < j < now.len() implies !newer(
            #[trigger] now[j],
            #[trigger] now[i],
        ) by {
            if j < at {
                assert(now[i] == had[i] && now[j] == had[j]);
            } else if j == at {
                assert(now[i] == had[i]);
            } else if i < at {
                assert(now[i] == had[i] && now[j] == had[j - 1]);
            } else if i == at {
                assert(now[j] == had[j - 1]);
                assert(newer(meta, had[at as int]));
                if newer(had[j - 1], meta) {
                    lemma_newer_transitive(had[j - 1], meta, had[at as int]);
                    if j - 1 > at {
                        assert(!newer(had[j - 1], had[at as int]));
                    }
                }
            } else {
                assert(now[i] == had[i - 1] && now[j] == had[j - 1]);
            }
        }
        assert forall|i: int| 0 <= i < now.len() implies (#[trigger] now[i]).created_at.nanos
            < NANOS by {
            if i < at {
                assert(now[i] == had[i]);
            } else if i > at {
                assert(now[i] == had[i - 1]);
            }
        }
        vstd::seq_lib::to_multiset_insert(had, at as int, meta);
    }
}

/// Whether a list holds the newest of others: they are all there in order before the rest is cut
/// off.
pub open spec fn newest_of(listed: Seq<Meta>, metas: Seq<Meta>, limit: int) -> bool {
    exists|all: Seq<Meta>|
        {
            &&& #[trigger] newest_first(all)
            &&& all.to_multiset() == metas.to_multiset()
            &&& listed == all.take(
                if limit < all.len() {
                    limit
                } else {
                    all.len() as int
                },
            )
        }
}

/// Recent consultations, newest first.
///
/// Ordered by the recorded creation time, not by the id.
/// Ids lead with a second-precision timestamp, so two consultations started in the same second
/// would otherwise be ordered by their random suffix.
pub fn recent(metas: Vec<Meta>, limit: usize) -> (r: Vec<Meta>)
    requires
        forall|i: int| 0 <= i < metas@.len() ==> (#[trigger] metas@[i]).created_at.nanos < NANOS,
    ensures
        newest_of(r@, metas@, limit as int),
        newest_first(r@),
{
    let mut rest = metas;
    let mut out: Vec<Meta> = Vec::new();
    let ghost whole = rest@.to_multiset();
    proof {
        broadcast use vstd::seq_lib::group_to_multiset_ensures;

        assert(whole =~= rest@.to_multiset().add(out@.to_multiset()));
    }
    while rest.len() > 0
        invariant
            newest_first(out@),
            forall|i: int| 0 <= i < rest@.len() ==> (#[trigger] rest@[i]).created_at.nanos < NANOS,
            forall|i: int| 0 <= i < out@.len() ==> (#[trigger] out@[i]).created_at.nanos < NANOS,
            whole == rest@.to_multiset().add(out@.to_multiset()),
        decreases rest.len(),
    {
        let ghost had = rest@;
        let ghost listed = out@;
        let last: usize = rest.len() - 1;
        let meta = rest.remove(last);
        assert(meta == had.last());
        assert(rest@ =~= had.drop_last());
        assert forall|i: int| 0 <= i < rest@.len() implies (#[trigger] rest@[i]).created_at.nanos
            < NANOS by {
            assert(rest@[i] == had[i]);
        }
        insert_newest_first(&mut out, meta);
        proof {
            broadcast use vstd::seq_lib::group_to_multiset_ensures;

            assert(had =~= rest@.push(meta));
            assert(had.to_multiset() =~= rest@.to_multiset().insert(meta));
            assert(whole =~= rest@.to_multiset().add(out@.to_multiset()));
        }
    }
    let ghost all = out@;
    proof {
        broadcast use vstd::seq_lib::group_to_multiset_ensures;

        assert(rest@ =~= Seq::empty());
        assert(all.to_multiset() =~= whole);
    }
    if limit < out.len() {
        out.truncate(limit);
    }
    assert(out@ =~= all.take(
        if limit < all.len() {
            limit as int
        } else {
            all.len() as int
        },
    ));
    assert(newest_first(all));
    out
}

} // verus!
