//! The vendor-neutral record of what a delegate said.
//!
//! Every historical loss in this problem space has the same shape: something returned the *last*
//! message where the *whole* transcript was required.
//! No type here has a field meaning "the answer"; [`Transcript::final_message`] derives one on
//! demand and nothing stores it.
//! [`Outcome::Failed`] sits *beside* [`Turn::messages`], so a failure cannot discard the work that
//! preceded it.
//!
//! Nothing in this module knows which vendor produced a message.

use vstd::prelude::*;
use vstd::string::*;

use crate::ordered::{
    in_order, lemma_walk_empty, lemma_walk_insert, walkable, TextMap,
};
use crate::text::{
    decimal, join, joined, lemma_texts_push, number, one_line, single_line, text_of, texts,
    trim_end, trimmed_end,
};
use crate::time::{since, Moment, Span, NANOS};

verus! {

/// Who produced a message.
#[derive(Debug, Clone, Copy, PartialEq, Eq, Structural)]
pub enum Role {
    /// The delegate model.
    Assistant,
    /// A turn input: the question, or something injected into the conversation.
    User,
    /// The delegate CLI speaking for itself rather than for the model.
    System,
}

/// Where a message came from, which is not the same question as who it is attributed to.
///
/// A blocking `Stop` hook injects a synthetic `user` message and reopens a finished turn.
/// That message is attributed to the user by the vendor but was written by neither party, and a
/// reader who cannot tell the difference will mistake the reopened turn's output for the report.
#[derive(Debug, Clone, Copy, PartialEq, Eq, Structural)]
pub enum MessageSource {
    /// Genuinely part of the consultation: the question, or the model's reply.
    Delegate,
    /// Injected by a hook in the delegate's own environment, reopening a finished turn.
    HookInjection,
    /// Injected by a hook while the delegate was still working, so nothing was reopened.
    HookContext,
    /// Written by agentmux to record something the event stream implied but did not say.
    Synthetic,
}

/// One message in a consultation.
#[derive(Debug, PartialEq, Eq)]
pub struct Message {
    /// Who the message is attributed to.
    pub role: Role,
    /// The message text, exactly as the delegate emitted it.
    pub text: String,
    /// How the message entered the conversation.
    pub source: MessageSource,
}

/// What a [`Message`] says.
#[verifier::ext_equal]
pub struct MessageModel {
    /// Who the message is attributed to.
    pub role: Role,
    /// Its characters.
    pub text: Seq<char>,
    /// How it entered the conversation.
    pub source: MessageSource,
}

impl View for Message {
    type V = MessageModel;

    open spec fn view(&self) -> MessageModel {
        MessageModel { role: self.role, text: self.text@, source: self.source }
    }
}

impl MessageModel {
    /// Whether the message counts as part of the deliverable.
    pub open spec fn is_report(self) -> bool {
        self.role == Role::Assistant && self.source == MessageSource::Delegate
    }
}

impl Message {
    /// A message the delegate genuinely produced.
    pub fn delegate(role: Role, text: &str) -> (r: Self)
        ensures
            r@ == (MessageModel { role, text: text@, source: MessageSource::Delegate }),
    {
        Message { role, text: text.to_owned(), source: MessageSource::Delegate }
    }

    /// A `user` message a hook injected to reopen a finished turn.
    pub fn hook_injection(text: &str) -> (r: Self)
        ensures
            r@ == (MessageModel {
                role: Role::User,
                text: text@,
                source: MessageSource::HookInjection,
            }),
    {
        Message { role: Role::User, text: text.to_owned(), source: MessageSource::HookInjection }
    }

    /// A `user` message a hook injected while the delegate was still working.
    pub fn hook_context(text: &str) -> (r: Self)
        ensures
            r@ == (MessageModel {
                role: Role::User,
                text: text@,
                source: MessageSource::HookContext,
            }),
    {
        Message { role: Role::User, text: text.to_owned(), source: MessageSource::HookContext }
    }

    /// A note agentmux wrote itself, such as a non-fatal warning the delegate reported.
    pub fn synthetic(text: &str) -> (r: Self)
        ensures
            r@ == (MessageModel {
                role: Role::System,
                text: text@,
                source: MessageSource::Synthetic,
            }),
    {
        Message { role: Role::System, text: text.to_owned(), source: MessageSource::Synthetic }
    }

    /// Whether this message counts as part of the deliverable.
    ///
    /// Assistant text the delegate produced is the report.
    /// Hook injections and agentmux's own notes are context around it.
    pub fn is_report_content(&self) -> (r: bool)
        ensures
            r == self@.is_report(),
    {
        self.role == Role::Assistant && self.source == MessageSource::Delegate
    }
}

/// Token accounting for one turn, in the union of what both vendors report.
///
/// Every field is optional because neither vendor promises to report all of them, and a missing
/// count must stay distinguishable from a zero count.
#[derive(Debug, Clone, Copy, PartialEq, Eq, Structural)]
pub struct Usage {
    /// Prompt tokens billed at the full rate.
    pub input_tokens: Option<u64>,
    /// Prompt tokens served from the provider's cache.
    pub cached_input_tokens: Option<u64>,
    /// Prompt tokens written into the provider's cache.
    pub cache_write_input_tokens: Option<u64>,
    /// Tokens the model emitted, including reasoning where the vendor folds it in.
    pub output_tokens: Option<u64>,
    /// Reasoning tokens, where the vendor reports them separately.
    pub reasoning_output_tokens: Option<u64>,
}

/// Accounting in which nothing was reported.
pub open spec fn no_usage() -> Usage {
    Usage {
        input_tokens: None,
        cached_input_tokens: None,
        cache_write_input_tokens: None,
        output_tokens: None,
        reasoning_output_tokens: None,
    }
}

impl Default for Usage {
    fn default() -> (r: Self)
        ensures
            r == no_usage(),
    {
        Usage {
            input_tokens: None,
            cached_input_tokens: None,
            cache_write_input_tokens: None,
            output_tokens: None,
            reasoning_output_tokens: None,
        }
    }
}

/// Why a turn ended badly.
///
/// [`FailureKind::Unclassified`] exists because the alternative is silently mapping an unfamiliar
/// vendor error onto a familiar one.
#[derive(Debug, Clone, Copy, PartialEq, Eq, Structural)]
pub enum FailureKind {
    /// The requested model does not exist, or this account cannot reach it.
    ModelUnavailable,
    /// A provider guardrail refused the request or blocked the closing message.
    ContentFlagged,
    /// The account is over a rate limit or usage window.
    RateLimited,
    /// The account is out of credit or over a spend cap.
    BudgetExceeded,
    /// The delegate hit its own maximum number of turns.
    TurnLimit,
    /// The child process could not be started, or died before saying anything.
    LaunchFailed,
    /// The delegate reported an error agentmux does not recognise.
    /// `detail` carries it verbatim.
    Unclassified,
}

/// The label of each kind of failure.
pub open spec fn failure_label(kind: FailureKind) -> Seq<char> {
    match kind {
        FailureKind::ModelUnavailable => "model unavailable"@,
        FailureKind::ContentFlagged => "content flagged"@,
        FailureKind::RateLimited => "rate limited"@,
        FailureKind::BudgetExceeded => "budget exceeded"@,
        FailureKind::TurnLimit => "turn limit"@,
        FailureKind::LaunchFailed => "launch failed"@,
        FailureKind::Unclassified => "error"@,
    }
}

impl FailureKind {
    /// A short human-facing label.
    pub fn label(self) -> (r: &'static str)
        ensures
            r@ == failure_label(self),
    {
        match self {
            FailureKind::ModelUnavailable => "model unavailable",
            FailureKind::ContentFlagged => "content flagged",
            FailureKind::RateLimited => "rate limited",
            FailureKind::BudgetExceeded => "budget exceeded",
            FailureKind::TurnLimit => "turn limit",
            FailureKind::LaunchFailed => "launch failed",
            FailureKind::Unclassified => "error",
        }
    }
}

/// A dollar amount as a vendor reported it.
///
/// Amounts are not computed with here: `bits` carries the reported number through unchanged, and
/// `text` is the same amount written out to four decimal places.
#[derive(Debug, PartialEq, Eq)]
pub struct Cost {
    /// The reported number, as the bits of an IEEE double.
    pub bits: u64,
    /// The amount to four decimal places.
    pub text: String,
}

/// What a [`Cost`] says.
#[verifier::ext_equal]
pub struct CostModel {
    /// The reported number.
    pub bits: u64,
    /// The amount to four decimal places.
    pub text: Seq<char>,
}

impl View for Cost {
    type V = CostModel;

    open spec fn view(&self) -> CostModel {
        CostModel { bits: self.bits, text: self.text@ }
    }
}

/// How a turn ended.
///
/// `Failed` carries only the reason.
/// The messages collected before the failure stay in [`Turn::messages`].
#[derive(Debug, PartialEq, Eq)]
pub enum Outcome {
    /// The delegate has not finished, or agentmux has not yet seen it finish.
    Running,
    /// The delegate finished its turn.
    Completed {
        /// Token accounting, empty if the vendor reported none.
        usage: Usage,
        /// Dollar cost, where the vendor reports it.
        cost_usd: Option<Cost>,
    },
    /// The turn ended badly.
    /// The messages collected so far are still in the turn.
    Failed {
        /// What went wrong, classified.
        kind: FailureKind,
        /// The vendor's own words, verbatim.
        detail: String,
    },
    /// A caller stopped the consultation.
    Cancelled,
}

/// What an [`Outcome`] says.
#[verifier::ext_equal]
pub enum OutcomeModel {
    /// The delegate has not finished.
    Running,
    /// The delegate finished its turn.
    Completed {
        /// Token accounting.
        usage: Usage,
        /// Dollar cost, where there is one.
        cost_usd: Option<CostModel>,
    },
    /// The turn ended badly.
    Failed {
        /// What went wrong.
        kind: FailureKind,
        /// The vendor's own words.
        detail: Seq<char>,
    },
    /// A caller stopped the consultation.
    Cancelled,
}

/// What an optional cost says.
pub open spec fn cost_model(cost: Option<Cost>) -> Option<CostModel> {
    match cost {
        Some(c) => Some(c@),
        None => None,
    }
}

impl View for Outcome {
    type V = OutcomeModel;

    open spec fn view(&self) -> OutcomeModel {
        match self {
            Outcome::Running => OutcomeModel::Running,
            Outcome::Completed { usage, cost_usd } => OutcomeModel::Completed {
                usage: *usage,
                cost_usd: cost_model(*cost_usd),
            },
            Outcome::Failed { kind, detail } => OutcomeModel::Failed {
                kind: *kind,
                detail: detail@,
            },
            Outcome::Cancelled => OutcomeModel::Cancelled,
        }
    }
}

impl OutcomeModel {
    /// Whether no further messages can arrive.
    pub open spec fn terminal(self) -> bool {
        self !is Running
    }
}

/// The one-word name of each state.
pub open spec fn state_name(outcome: OutcomeModel) -> Seq<char> {
    match outcome {
        OutcomeModel::Running => "running"@,
        OutcomeModel::Completed { .. } => "completed"@,
        OutcomeModel::Failed { .. } => "failed"@,
        OutcomeModel::Cancelled => "cancelled"@,
    }
}

impl Clone for Cost {
    fn clone(&self) -> (r: Self)
        ensures
            r@ == self@,
    {
        Cost { bits: self.bits, text: self.text.clone() }
    }
}

impl Outcome {
    /// Whether no further messages can arrive for this turn.
    pub fn is_terminal(&self) -> (r: bool)
        ensures
            r == self@.terminal(),
    {
        match self {
            Outcome::Running => false,
            _ => true,
        }
    }

    /// A one-word state name, stable enough for a caller to branch on.
    pub fn state(&self) -> (r: &'static str)
        ensures
            r@ == state_name(self@),
    {
        match self {
            Outcome::Running => "running",
            Outcome::Completed { .. } => "completed",
            Outcome::Failed { .. } => "failed",
            Outcome::Cancelled => "cancelled",
        }
    }
}

impl Clone for Outcome {
    fn clone(&self) -> (r: Self)
        ensures
            r@ == self@,
    {
        match self {
            Outcome::Running => Outcome::Running,
            Outcome::Completed { usage, cost_usd } => Outcome::Completed {
                usage: *usage,
                cost_usd: match cost_usd {
                    Some(cost) => Some(cost.clone()),
                    None => None,
                },
            },
            Outcome::Failed { kind, detail } => Outcome::Failed {
                kind: *kind,
                detail: detail.clone(),
            },
            Outcome::Cancelled => Outcome::Cancelled,
        }
    }
}

/// How often a type was counted.
pub open spec fn tally_count(tally: Map<Seq<char>, u32>, kind: Seq<char>) -> int {
    if tally.contains_key(kind) {
        tally[kind] as int
    } else {
        0
    }
}

/// The sum of the counts of a list of entries.
pub open spec fn counts_sum(entries: Seq<(Seq<char>, u32)>) -> int
    decreases entries.len(),
{
    if entries.len() == 0 {
        0
    } else {
        counts_sum(entries.drop_last()) + entries.last().1
    }
}

/// The sum of all counts of a tally.
pub open spec fn tally_total(tally: Map<Seq<char>, u32>) -> int {
    counts_sum(in_order(tally))
}

/// A tally after one more sighting of a type.
pub open spec fn tally_record(tally: Map<Seq<char>, u32>, kind: Seq<char>) -> Map<Seq<char>, u32> {
    tally.insert(kind, (tally_count(tally, kind) + 1) as u32)
}

/// Two tallies added up.
pub open spec fn tally_merge(
    a: Map<Seq<char>, u32>,
    b: Map<Seq<char>, u32>,
) -> Map<Seq<char>, u32> {
    Map::new(
        |kind: Seq<char>| a.contains_key(kind) || b.contains_key(kind),
        |kind: Seq<char>| (tally_count(a, kind) + tally_count(b, kind)) as u32,
    )
}

/// Whether two tallies can be added up with every count still a count.
pub open spec fn tallies_fit(a: Map<Seq<char>, u32>, b: Map<Seq<char>, u32>) -> bool {
    forall|kind: Seq<char>|
        #[trigger]
        tally_count(a, kind) + tally_count(b, kind) <= u32::MAX
}

/// How one entry of a tally is written.
pub open spec fn tally_entry(entry: (Seq<char>, u32)) -> Seq<char> {
    entry.0 + " x"@ + decimal(entry.1 as nat)
}

/// How a tally is written: its entries in the order of their types.
pub open spec fn tally_summary(tally: Map<Seq<char>, u32>) -> Option<Seq<char>> {
    if tally == Map::<Seq<char>, u32>::empty() {
        None
    } else {
        Some(
            joined(
                in_order(tally).map_values(|entry: (Seq<char>, u32)| tally_entry(entry)),
                ", "@,
            ),
        )
    }
}

proof fn lemma_sum_step(entries: Seq<(Seq<char>, u32)>, i: int)
    requires
        0 <= i < entries.len(),
    ensures
        counts_sum(entries.take(i + 1)) == counts_sum(entries.take(i)) + entries[i].1,
{
    assert(entries.take(i + 1).drop_last() =~= entries.take(i));
}

proof fn lemma_sum_prefix(entries: Seq<(Seq<char>, u32)>, i: int)
    requires
        0 <= i <= entries.len(),
    ensures
        0 <= counts_sum(entries.take(i)) <= counts_sum(entries),
    decreases entries.len(),
{
    if i == entries.len() {
        assert(entries.take(i) =~= entries);
        if i > 0 {
            lemma_sum_prefix(entries.drop_last(), i - 1);
        }
    } else {
        assert(entries.drop_last().take(i) =~= entries.take(i));
        lemma_sum_prefix(entries.drop_last(), i);
    }
}

proof fn lemma_sum_insert(entries: Seq<(Seq<char>, u32)>, at: int, e: (Seq<char>, u32))
    requires
        0 <= at <= entries.len(),
    ensures
        counts_sum(entries.insert(at, e)) == counts_sum(entries) + e.1,
    decreases entries.len(),
{
    let after = entries.insert(at, e);
    if at == entries.len() {
        assert(after.drop_last() =~= entries);
    } else {
        assert(after.drop_last() =~= entries.drop_last().insert(at, e));
        lemma_sum_insert(entries.drop_last(), at, e);
    }
}

proof fn lemma_sum_update(entries: Seq<(Seq<char>, u32)>, at: int, e: (Seq<char>, u32))
    requires
        0 <= at < entries.len(),
    ensures
        counts_sum(entries.update(at, e)) == counts_sum(entries) - entries[at].1 + e.1,
    decreases entries.len(),
{
    let after = entries.update(at, e);
    if at == entries.len() - 1 {
        assert(after.drop_last() =~= entries.drop_last());
    } else {
        assert(after.drop_last() =~= entries.drop_last().update(at, e));
        lemma_sum_update(entries.drop_last(), at, e);
    }
}

/// A tally of nothing sums up to zero.
pub proof fn lemma_total_empty()
    ensures
        walkable(Map::<Seq<char>, u32>::empty()),
        tally_total(Map::<Seq<char>, u32>::empty()) == 0,
{
    lemma_walk_empty::<u32>();
}

/// No count of a tally is larger than the sum of all of them.
pub proof fn lemma_count_within_total(tally: Map<Seq<char>, u32>, kind: Seq<char>)
    requires
        walkable(tally),
    ensures
        0 <= tally_count(tally, kind) <= tally_total(tally),
{
    let p = in_order(tally);
    lemma_sum_prefix(p, 0);
    if tally.contains_key(kind) {
        let i = choose|i: int| 0 <= i < p.len() && (#[trigger] p[i]).0 == kind;
        crate::ordered::lemma_entry(p, i);
        lemma_sum_step(p, i);
        lemma_sum_prefix(p, i);
        lemma_sum_prefix(p, i + 1);
    }
}

/// Every sighting is counted: one more record makes the total one larger.
pub proof fn lemma_record_counts(tally: Map<Seq<char>, u32>, kind: Seq<char>)
    requires
        walkable(tally),
        tally_total(tally) < u32::MAX,
    ensures
        walkable(tally_record(tally, kind)),
        tally_total(tally_record(tally, kind)) == tally_total(tally) + 1,
{
    lemma_count_within_total(tally, kind);
    let n = (tally_count(tally, kind) + 1) as u32;
    let at = lemma_walk_insert(tally, kind, n);
    if tally.contains_key(kind) {
        lemma_sum_update(in_order(tally), at, (kind, n));
    } else {
        lemma_sum_insert(in_order(tally), at, (kind, n));
    }
}

/// Event types the parser met but does not model, counted rather than skipped.
///
/// A parser that silently ignores what it does not recognise will one day silently ignore the
/// report.
/// Counting turns schema drift into something loud.
pub struct UnrecognisedEvents {
    counts: TextMap<u32>,
}

impl View for UnrecognisedEvents {
    type V = Map<Seq<char>, u32>;

    closed spec fn view(&self) -> Map<Seq<char>, u32> {
        self.counts@
    }
}

impl Default for UnrecognisedEvents {
    fn default() -> (r: Self)
        ensures
            r@ == Map::<Seq<char>, u32>::empty(),
    {
        UnrecognisedEvents { counts: TextMap::new() }
    }
}

impl UnrecognisedEvents {
    /// Record one sighting of an event type the parser does not model.
    pub fn record(&mut self, kind: &str)
        requires
            tally_count(old(self)@, kind@) < u32::MAX,
        ensures
            final(self)@ == tally_record(old(self)@, kind@),
    {
        let seen: u32 = match self.counts.get(kind) {
            Some(count) => *count,
            None => 0,
        };
        self.counts.insert(kind, seen + 1);
    }

    /// Total sightings across all unrecognised types.
    pub fn total(&self) -> (r: u32)
        requires
            tally_total(self@) <= u32::MAX,
        ensures
            r == tally_total(self@),
    {
        let n: usize = self.counts.len();
        let ghost p = self.counts.pairs();
        let mut sum: u32 = 0;
        let mut i: usize = 0;
        while i < n
            invariant
                i <= n,
                n == p.len(),
                p == self.counts.pairs(),
                sum == counts_sum(p.take(i as int)),
                counts_sum(p) <= u32::MAX,
            decreases n - i,
        {
            proof {
                lemma_sum_step(p, i as int);
                lemma_sum_prefix(p, i + 1);
            }
            sum = sum + *self.counts.value_at(i);
            i = i + 1;
        }
        assert(p.take(n as int) =~= p);
        sum
    }

    /// Whether every event in the stream was understood.
    pub fn is_empty(&self) -> (r: bool)
        ensures
            r == (self@ == Map::<Seq<char>, u32>::empty()),
    {
        self.counts.is_empty()
    }

    /// The counted types with their counts, ascending by name.
    pub fn iter(&self) -> (r: Vec<(String, u32)>)
        ensures
            r@.len() == in_order(self@).len(),
            forall|i: int|
                0 <= i < r@.len() ==> (#[trigger] r@[i]).0@ == in_order(self@)[i].0 && r@[i].1
                    == in_order(self@)[i].1,
            walkable(self@),
    {
        let n: usize = self.counts.len();
        let mut out: Vec<(String, u32)> = Vec::new();
        let mut i: usize = 0;
        while i < n
            invariant
                i <= n,
                n == self.counts.pairs().len(),
                in_order(self.counts@) == self.counts.pairs(),
                out@.len() == i,
                forall|j: int|
                    0 <= j < i ==> (#[trigger] out@[j]).0@ == self.counts.pairs()[j].0 && out@[j].1
                        == self.counts.pairs()[j].1,
            decreases n - i,
        {
            out.push((self.counts.key_at(i).clone(), *self.counts.value_at(i)));
            i = i + 1;
        }
        out
    }

    /// Fold another tally into this one.
    pub fn merge(&mut self, other: &Self)
        requires
            tallies_fit(old(self)@, other@),
        ensures
            final(self)@ == tally_merge(old(self)@, other@),
    {
        let entries = other.iter();
        let ghost p = in_order(other@);
        let ghost a = self@;
        let ghost b = other@;
        let mut i: usize = 0;
        proof {
            assert(crate::ordered::map_of(p.take(0)) =~= Map::empty());
            assert(a =~= tally_merge(a, crate::ordered::map_of(p.take(0))));
        }
        while i < entries.len()
            invariant
                i <= entries.len(),
                entries@.len() == p.len(),
                crate::ordered::ascending(p),
                crate::ordered::map_of(p) == b,
                forall|j: int|
                    0 <= j < entries@.len() ==> (#[trigger] entries@[j]).0@ == p[j].0
                        && entries@[j].1 == p[j].1,
                tallies_fit(a, b),
                self@ == tally_merge(a, crate::ordered::map_of(p.take(i as int))),
            decreases entries.len() - i,
        {
            let ghost done = p.take(i as int);
            let ghost more = p.take(i + 1);
            proof {
                crate::ordered::lemma_entry(p, i as int);
                assert(more.drop_last() =~= done);
                crate::ordered::lemma_without_last(more);
                crate::ordered::lemma_entry(more, i as int);
                assert(tally_count(a, p[i as int].0) + tally_count(b, p[i as int].0) <= u32::MAX);
            }
            let seen: u32 = match self.counts.get(entries[i].0.as_str()) {
                Some(count) => *count,
                None => 0,
            };
            self.counts.insert(entries[i].0.as_str(), seen + entries[i].1);
            i = i + 1;
            proof {
                let m = crate::ordered::map_of(more);
                let k = p[i - 1].0;
                assert(!crate::ordered::map_of(done).contains_key(k));
                assert forall|x: Seq<char>| x != k implies tally_count(
                    crate::ordered::map_of(done),
                    x,
                ) == #[trigger] tally_count(m, x) by {
                    assert(m.remove(k).contains_key(x) == m.contains_key(x));
                }
                assert(self@ =~= tally_merge(a, m));
            }
        }
        assert(p.take(i as int) =~= p);
    }

    /// A compact `type xN, type xM` summary, or `None` when nothing was unrecognised.
    pub fn summary(&self) -> (r: Option<String>)
        ensures
            text_of(r) == tally_summary(self@),
    {
        if self.is_empty() {
            return None;
        }
        let entries = self.iter();
        let ghost p = in_order(self@);
        let mut parts: Vec<String> = Vec::new();
        let mut i: usize = 0;
        assert(texts(parts@) =~= p.take(0).map_values(|e: (Seq<char>, u32)| tally_entry(e)));
        while i < entries.len()
            invariant
                i <= entries.len(),
                entries@.len() == p.len(),
                forall|j: int|
                    0 <= j < entries@.len() ==> (#[trigger] entries@[j]).0@ == p[j].0
                        && entries@[j].1 == p[j].1,
                texts(parts@) == p.take(i as int).map_values(
                    |e: (Seq<char>, u32)| tally_entry(e),
                ),
            decreases entries.len() - i,
        {
            let mut part = entries[i].0.clone();
            part.append(" x");
            part.append(number(entries[i].1 as u64).as_str());
            proof {
                lemma_texts_push(parts@, part);
                assert(p.take(i + 1).map_values(|e: (Seq<char>, u32)| tally_entry(e))
                    =~= p.take(i as int).map_values(
                    |e: (Seq<char>, u32)| tally_entry(e),
                ).push(tally_entry(p[i as int])));
            }
            parts.push(part);
            i = i + 1;
        }
        assert(p.take(i as int) =~= p);
        Some(join(&parts, ", "))
    }
}

/// When a vendor's usage window reopens, as the vendor disclosed it.
#[derive(Debug, PartialEq, Eq)]
pub struct RateLimit {
    /// When the window reopens.
    pub resets_at: Moment,
    /// Which window it is, where the vendor names it.
    pub window: Option<String>,
}

/// What a [`RateLimit`] says.
#[verifier::ext_equal]
pub struct RateLimitModel {
    /// When the window reopens.
    pub resets_at: Moment,
    /// Which window it is.
    pub window: Option<Seq<char>>,
}

impl View for RateLimit {
    type V = RateLimitModel;

    open spec fn view(&self) -> RateLimitModel {
        RateLimitModel { resets_at: self.resets_at, window: text_of(self.window) }
    }
}

/// What an optional rate limit says.
pub open spec fn limit_model(limit: Option<RateLimit>) -> Option<RateLimitModel> {
    match limit {
        Some(l) => Some(l@),
        None => None,
    }
}

impl RateLimit {
    /// How long until the window reopens, or `None` once it has.
    pub fn reopens_in(&self, now: Moment) -> (r: Option<Span>)
        requires
            self.resets_at.valid(),
            now.valid(),
        ensures
            r is Some == (now.at() < self.resets_at.at()),
            r matches Some(span) ==> span.length() == self.resets_at.at() - now.at() && span.nanos
                < NANOS,
    {
        match since(self.resets_at, now) {
            Some(span) => if span.seconds == 0 && span.nanos == 0 {
                None
            } else {
                Some(span)
            },
            None => None,
        }
    }
}

impl Clone for RateLimit {
    fn clone(&self) -> (r: Self)
        ensures
            r@ == self@,
    {
        RateLimit { resets_at: self.resets_at, window: self.window.clone() }
    }
}

/// One question put to the delegate and everything that came back.
pub struct Turn {
    /// Position in the consultation, from zero.
    pub index: u32,
    /// The question as asked.
    pub question: String,
    /// Everything the delegate said, in order, including hook injections.
    pub messages: Vec<Message>,
    /// How the turn ended.
    pub outcome: Outcome,
    /// Event types the parser met but does not model.
    pub unrecognised: UnrecognisedEvents,
    /// The usage window the vendor disclosed during this turn.
    pub rate_limit: Option<RateLimit>,
    /// The model the vendor says it ran, where it says so.
    pub resolved_model: Option<String>,
    /// Whether this turn was meant to continue an earlier session but did not.
    ///
    /// Both CLIs accept a resume against a session they no longer hold, and answer from an empty
    /// context instead of failing.
    /// The delegate then replies confidently with no memory of the brief, which reads as a
    /// continuation and is not one.
    pub broke_continuity: bool,
    /// A reply recovered from outside the event stream, once the turn was over.
    ///
    /// Only ever set when the turn is terminal *and* the stream carried no reply at all.
    /// Deliberately not a [`Message`]: it becomes available strictly after the terminal event, so
    /// it renders last, after everything whose content is final at the terminal event.
    pub recovered: Option<String>,
}

/// What a [`Turn`] says.
#[verifier::ext_equal]
pub struct TurnModel {
    /// Position in the consultation.
    pub index: u32,
    /// The question as asked.
    pub question: Seq<char>,
    /// Everything the delegate said.
    pub messages: Seq<MessageModel>,
    /// How the turn ended.
    pub outcome: OutcomeModel,
    /// What was not recognised.
    pub unrecognised: Map<Seq<char>, u32>,
    /// The usage window disclosed.
    pub rate_limit: Option<RateLimitModel>,
    /// The model the vendor says it ran.
    pub resolved_model: Option<Seq<char>>,
    /// Whether the session was lost.
    pub broke_continuity: bool,
    /// A reply recovered from outside the stream.
    pub recovered: Option<Seq<char>>,
}

/// What a list of messages says.
pub open spec fn messages_of(list: Seq<Message>) -> Seq<MessageModel> {
    list.map_values(|m: Message| m@)
}

/// Appending a message to a list appends what it says.
pub proof fn lemma_messages_push(list: Seq<Message>, m: Message)
    ensures
        messages_of(list.push(m)) == messages_of(list).push(m@),
{
    assert(messages_of(list.push(m)) =~= messages_of(list).push(m@));
}

impl View for Turn {
    type V = TurnModel;

    open spec fn view(&self) -> TurnModel {
        TurnModel {
            index: self.index,
            question: self.question@,
            messages: messages_of(self.messages@),
            outcome: self.outcome@,
            unrecognised: self.unrecognised@,
            rate_limit: limit_model(self.rate_limit),
            resolved_model: text_of(self.resolved_model),
            broke_continuity: self.broke_continuity,
            recovered: text_of(self.recovered),
        }
    }
}

/// A turn of which nothing is known but its question.
pub open spec fn new_turn(index: u32, question: Seq<char>) -> TurnModel {
    TurnModel {
        index,
        question,
        messages: Seq::empty(),
        outcome: OutcomeModel::Running,
        unrecognised: Map::empty(),
        rate_limit: None,
        resolved_model: None,
        broke_continuity: false,
        recovered: None,
    }
}

/// Whether a hook reopened the turn somewhere in a list of messages.
pub open spec fn reopened(messages: Seq<MessageModel>) -> bool {
    exists|i: int|
        0 <= i < messages.len() && (#[trigger] messages[i]).source == MessageSource::HookInjection
}

impl Turn {
    /// An empty turn that has not produced anything yet.
    pub fn new(index: u32, question: &str) -> (r: Self)
        ensures
            r@ == new_turn(index, question@),
    {
        let r = Turn {
            index,
            question: question.to_owned(),
            messages: Vec::new(),
            outcome: Outcome::Running,
            unrecognised: UnrecognisedEvents::default(),
            rate_limit: None,
            resolved_model: None,
            broke_continuity: false,
            recovered: None,
        };
        assert(r@.messages =~= Seq::empty());
        r
    }

    /// Whether a hook reopened this turn after the delegate had finished speaking.
    pub fn was_reopened_by_hook(&self) -> (r: bool)
        ensures
            r == reopened(self@.messages),
    {
        let mut i: usize = 0;
        while i < self.messages.len()
            invariant
                i <= self.messages.len(),
                forall|j: int|
                    0 <= j < i ==> (#[trigger] self@.messages[j]).source
                        != MessageSource::HookInjection,
            decreases self.messages.len() - i,
        {
            assert(self@.messages[i as int] == self.messages@[i as int]@);
            if self.messages[i].source == MessageSource::HookInjection {
                return true;
            }
            i = i + 1;
        }
        false
    }
}

/// A consultation: every question put to one delegate, and everything it said back.
///
/// This is the deliverable.
/// Everything else in the crate is metadata about how it was obtained.
pub struct Transcript {
    /// The turns, in order.
    pub turns: Vec<Turn>,
}

impl View for Transcript {
    type V = Seq<TurnModel>;

    open spec fn view(&self) -> Seq<TurnModel> {
        self.turns@.map_values(|t: Turn| t@)
    }
}

/// The last reply of the delegate in a list of messages.
pub open spec fn last_report(messages: Seq<MessageModel>) -> Option<Seq<char>>
    decreases messages.len(),
{
    if messages.len() == 0 {
        None
    } else if messages.last().is_report() {
        Some(messages.last().text)
    } else {
        last_report(messages.drop_last())
    }
}

/// What a turn has in the way of a reply.
pub open spec fn turn_reply(turn: TurnModel) -> Option<Seq<char>> {
    match last_report(turn.messages) {
        Some(text) => Some(text),
        None => turn.recovered,
    }
}

/// The reply of the newest turn that has one.
pub open spec fn last_reply(turns: Seq<TurnModel>) -> Option<Seq<char>>
    decreases turns.len(),
{
    if turns.len() == 0 {
        None
    } else {
        match turn_reply(turns.last()) {
            Some(text) => Some(text),
            None => last_reply(turns.drop_last()),
        }
    }
}

/// The first turn of a list that failed, and how.
pub open spec fn first_failure(turns: Seq<TurnModel>) -> Option<(u32, FailureKind)>
    decreases turns.len(),
{
    if turns.len() == 0 {
        None
    } else {
        match turns[0].outcome {
            OutcomeModel::Failed { kind, .. } => Some((turns[0].index, kind)),
            _ => first_failure(turns.drop_first()),
        }
    }
}

/// The first failed turn before the newest one.
pub open spec fn earlier_failure_of(turns: Seq<TurnModel>) -> Option<(u32, FailureKind)> {
    if turns.len() == 0 {
        None
    } else {
        first_failure(turns.drop_last())
    }
}

/// The outcome of the newest turn.
pub open spec fn newest_outcome(turns: Seq<TurnModel>) -> OutcomeModel {
    if turns.len() == 0 {
        OutcomeModel::Running
    } else {
        turns.last().outcome
    }
}

/// Every message of every turn, in order.
pub open spec fn all_messages(turns: Seq<TurnModel>) -> Seq<MessageModel>
    decreases turns.len(),
{
    if turns.len() == 0 {
        Seq::empty()
    } else {
        all_messages(turns.drop_last()) + turns.last().messages
    }
}

/// Whether the delegate ever said anything.
pub open spec fn spoke(turns: Seq<TurnModel>) -> bool {
    exists|i: int| 0 <= i < turns.len() && turn_reply(#[trigger] turns[i]) is Some
}

/// How often a type was counted over all turns.
pub open spec fn count_over(turns: Seq<TurnModel>, kind: Seq<char>) -> int
    decreases turns.len(),
{
    if turns.len() == 0 {
        0
    } else {
        count_over(turns.drop_last(), kind) + tally_count(turns.last().unrecognised, kind)
    }
}

/// The tallies of all turns added up.
pub open spec fn tally_over(turns: Seq<TurnModel>) -> Map<Seq<char>, u32>
    decreases turns.len(),
{
    if turns.len() == 0 {
        Map::empty()
    } else {
        tally_merge(tally_over(turns.drop_last()), turns.last().unrecognised)
    }
}

/// A count with a part added, where there is one; the sum stays at the largest count once there.
pub open spec fn plus_count(total: Option<u64>, part: Option<u64>) -> Option<u64> {
    match part {
        None => total,
        Some(n) => {
            let sum = (match total {
                Some(t) => t as int,
                None => 0,
            }) + n;
            Some(
                if sum > u64::MAX {
                    u64::MAX
                } else {
                    sum as u64
                },
            )
        },
    }
}

/// Accounting with another turn's accounting added, field by field.
pub open spec fn plus_usage(total: Usage, part: Usage) -> Usage {
    Usage {
        input_tokens: plus_count(total.input_tokens, part.input_tokens),
        cached_input_tokens: plus_count(total.cached_input_tokens, part.cached_input_tokens),
        cache_write_input_tokens: plus_count(
            total.cache_write_input_tokens,
            part.cache_write_input_tokens,
        ),
        output_tokens: plus_count(total.output_tokens, part.output_tokens),
        reasoning_output_tokens: plus_count(
            total.reasoning_output_tokens,
            part.reasoning_output_tokens,
        ),
    }
}

/// The accounting of every completed turn added up.
pub open spec fn usage_over(turns: Seq<TurnModel>) -> Usage
    decreases turns.len(),
{
    if turns.len() == 0 {
        no_usage()
    } else {
        match turns.last().outcome {
            OutcomeModel::Completed { usage, .. } => plus_usage(
                usage_over(turns.drop_last()),
                usage,
            ),
            _ => usage_over(turns.drop_last()),
        }
    }
}

fn add_count(total: Option<u64>, part: Option<u64>) -> (r: Option<u64>)
    ensures
        r == plus_count(total, part),
{
    match part {
        None => total,
        Some(n) => {
            let t: u64 = match total {
                Some(t) => t,
                None => 0,
            };
            Some(t.saturating_add(n))
        },
    }
}

proof fn lemma_count_over_grows(turns: Seq<TurnModel>, n: int, kind: Seq<char>)
    requires
        0 <= n <= turns.len(),
    ensures
        0 <= count_over(turns.take(n), kind) <= count_over(turns, kind),
    decreases turns.len(),
{
    if n == turns.len() {
        assert(turns.take(n) =~= turns);
        if n > 0 {
            lemma_count_over_grows(turns.drop_last(), n - 1, kind);
            assert(turns.drop_last().take(n - 1) =~= turns.drop_last());
        }
    } else {
        assert(turns.drop_last().take(n) =~= turns.take(n));
        lemma_count_over_grows(turns.drop_last(), n, kind);
    }
}

/// The merged tally of all turns holds, for every type, how often all turns together counted it.
pub proof fn lemma_tally_over(turns: Seq<TurnModel>, kind: Seq<char>)
    requires
        forall|k: Seq<char>| #[trigger] count_over(turns, k) <= u32::MAX,
    ensures
        tally_count(tally_over(turns), kind) == count_over(turns, kind),
    decreases turns.len(),
{
    if turns.len() > 0 {
        let before = turns.drop_last();
        assert(before =~= turns.take(turns.len() - 1));
        assert forall|k: Seq<char>| #[trigger] count_over(before, k) <= u32::MAX by {
            lemma_count_over_grows(turns, turns.len() - 1, k);
            assert(count_over(turns, k) <= u32::MAX);
        }
        lemma_tally_over(before, kind);
        lemma_count_over_grows(turns, turns.len() - 1, kind);
        assert(count_over(turns, kind) <= u32::MAX);
    }
}

impl Transcript {
    /// The text of the delegate's last substantive reply.
    ///
    /// Derived on every call and stored nowhere, so it can never be recorded *instead of* the
    /// transcript.
    /// When a hook reopened the turn, the last message is the reopened turn's output and the
    /// report is further up; [`Transcript::was_reopened_by_hook`] says when to distrust it.
    ///
    /// Falls back to [`Turn::recovered`], so a run whose reply was recovered from outside the
    /// event stream does not report a visibly non-empty transcript and no final message.
    pub fn final_message(&self) -> (r: Option<String>)
        ensures
            text_of(r) == last_reply(self@),
    {
        let mut t: usize = self.turns.len();
        assert(self@.take(t as int) =~= self@);
        while t > 0
            invariant
                t <= self.turns.len(),
                last_reply(self@) == last_reply(self@.take(t as int)),
            decreases t,
        {
            let turn = &self.turns[t - 1];
            assert(self@.take(t as int).last() == turn@);
            assert(self@.take(t as int).drop_last() =~= self@.take(t - 1));
            let mut m: usize = turn.messages.len();
            assert(turn@.messages.take(m as int) =~= turn@.messages);
            while m > 0
                invariant
                    0 < t <= self.turns.len(),
                    turn == self.turns@[t - 1],
                    m <= turn.messages.len(),
                    self@.take(t as int).last() == turn@,
                    last_reply(self@) == last_reply(self@.take(t as int)),
                    last_report(turn@.messages) == last_report(turn@.messages.take(m as int)),
                decreases m,
            {
                let ghost some = turn@.messages.take(m as int);
                assert(some.last() == turn.messages@[m - 1]@);
                assert(some.drop_last() =~= turn@.messages.take(m - 1));
                if turn.messages[m - 1].is_report_content() {
                    return Some(turn.messages[m - 1].text.clone());
                }
                m = m - 1;
            }
            if turn.recovered.is_some() {
                return turn.recovered.clone();
            }
            t = t - 1;
        }
        None
    }

    /// The first turn that failed, when it is not the turn that decides [`Self::outcome`].
    ///
    /// [`Self::outcome`] reports the newest turn, which is what a caller polling for "is it done"
    /// needs.
    /// On its own that lets a follow-up hide a failure: turn one is refused, turn two succeeds,
    /// and the consultation reports `completed` with the refusal buried in the body.
    pub fn earlier_failure(&self) -> (r: Option<(u32, FailureKind)>)
        ensures
            r == earlier_failure_of(self@),
    {
        if self.turns.len() == 0 {
            return None;
        }
        let last: usize = self.turns.len() - 1;
        let ghost before = self@.drop_last();
        let mut i: usize = 0;
        assert(before.skip(0) =~= before);
        while i < last
            invariant
                i <= last,
                last == self.turns.len() - 1,
                before == self@.drop_last(),
                first_failure(before) == first_failure(before.skip(i as int)),
            decreases last - i,
        {
            assert(before.skip(i as int)[0] == self.turns@[i as int]@);
            assert(before.skip(i as int).drop_first() =~= before.skip(i + 1));
            if let Outcome::Failed { kind, .. } = &self.turns[i].outcome {
                return Some((self.turns[i].index, *kind));
            }
            i = i + 1;
        }
        None
    }

    /// Whether the delegate ever said anything, across every turn.
    ///
    /// This is the evidence that there is a conversation worth continuing, and it is deliberately
    /// evidence rather than a rule about failure categories.
    pub fn has_delegate_content(&self) -> (r: bool)
        ensures
            r == spoke(self@),
    {
        let mut t: usize = 0;
        while t < self.turns.len()
            invariant
                t <= self.turns.len(),
                forall|j: int| 0 <= j < t ==> turn_reply(#[trigger] self@[j]) is None,
            decreases self.turns.len() - t,
        {
            let turn = &self.turns[t];
            assert(self@[t as int] == turn@);
            let mut m: usize = turn.messages.len();
            assert(turn@.messages.take(m as int) =~= turn@.messages);
            while m > 0
                invariant
                    t < self.turns.len(),
                    turn == self.turns@[t as int],
                    self@[t as int] == turn@,
                    m <= turn.messages.len(),
                    last_report(turn@.messages) == last_report(turn@.messages.take(m as int)),
                decreases m,
            {
                let ghost some = turn@.messages.take(m as int);
                assert(some.last() == turn.messages@[m - 1]@);
                assert(some.drop_last() =~= turn@.messages.take(m - 1));
                if turn.messages[m - 1].is_report_content() {
                    assert(turn_reply(self@[t as int]) is Some);
                    return true;
                }
                m = m - 1;
            }
            if turn.recovered.is_some() {
                assert(turn_reply(self@[t as int]) is Some);
                return true;
            }
            t = t + 1;
        }
        false
    }

    /// Whether any turn was reopened by a hook, which makes [`Self::final_message`] untrustworthy.
    pub fn was_reopened_by_hook(&self) -> (r: bool)
        ensures
            r == exists|i: int| 0 <= i < self@.len() && reopened((#[trigger] self@[i]).messages),
    {
        let mut t: usize = 0;
        while t < self.turns.len()
            invariant
                t <= self.turns.len(),
                forall|j: int| 0 <= j < t ==> !reopened((#[trigger] self@[j]).messages),
            decreases self.turns.len() - t,
        {
            assert(self@[t as int] == self.turns@[t as int]@);
            if self.turns[t].was_reopened_by_hook() {
                return true;
            }
            t = t + 1;
        }
        false
    }

    /// How the consultation currently stands: the last turn's outcome.
    pub fn outcome(&self) -> (r: Outcome)
        ensures
            r@ == newest_outcome(self@),
    {
        if self.turns.len() == 0 {
            Outcome::Running
        } else {
            assert(self@.last() == self.turns@.last()@);
            self.turns[self.turns.len() - 1].outcome.clone()
        }
    }

    /// Every message across every turn, in order.
    pub fn messages(&self) -> (r: Vec<&Message>)
        ensures
            r@.map_values(|m: &Message| m@) == all_messages(self@),
    {
        let mut out: Vec<&Message> = Vec::new();
        let mut t: usize = 0;
        assert(out@.map_values(|m: &Message| m@) =~= all_messages(self@.take(0)));
        while t < self.turns.len()
            invariant
                t <= self.turns.len(),
                out@.map_values(|m: &Message| m@) == all_messages(self@.take(t as int)),
            decreases self.turns.len() - t,
        {
            let turn = &self.turns[t];
            let ghost before = all_messages(self@.take(t as int));
            assert(self@.take(t + 1).last() == turn@);
            assert(self@.take(t + 1).drop_last() =~= self@.take(t as int));
            let mut m: usize = 0;
            assert(before + turn@.messages.take(0) =~= before);
            while m < turn.messages.len()
                invariant
                    t < self.turns.len(),
                    turn == self.turns@[t as int],
                    m <= turn.messages.len(),
                    out@.map_values(|m: &Message| m@) == before + turn@.messages.take(m as int),
                decreases turn.messages.len() - m,
            {
                let message = &turn.messages[m];
                let ghost had = out@;
                out.push(message);
                assert(out@.map_values(|m: &Message| m@) =~= had.map_values(
                    |m: &Message| m@,
                ).push(message@));
                assert(turn@.messages.take(m + 1) =~= turn@.messages.take(m as int).push(message@));
                assert(before + turn@.messages.take(m + 1) =~= (before + turn@.messages.take(
                    m as int,
                )).push(message@));
                m = m + 1;
            }
            assert(turn@.messages.take(m as int) =~= turn@.messages);
            t = t + 1;
        }
        assert(self@.take(t as int) =~= self@);
        out
    }

    /// Unrecognised event types across the whole consultation.
    pub fn unrecognised(&self) -> (r: UnrecognisedEvents)
        requires
            forall|kind: Seq<char>| #[trigger] count_over(self@, kind) <= u32::MAX,
        ensures
            r@ == tally_over(self@),
    {
        let mut merged = UnrecognisedEvents::default();
        let mut t: usize = 0;
        assert(self@.take(0) =~= Seq::empty());
        while t < self.turns.len()
            invariant
                t <= self.turns.len(),
                forall|kind: Seq<char>| #[trigger] count_over(self@, kind) <= u32::MAX,
                merged@ == tally_over(self@.take(t as int)),
            decreases self.turns.len() - t,
        {
            let ghost some = self@.take(t as int);
            let ghost more = self@.take(t + 1);
            assert(more.last() == self.turns@[t as int]@);
            assert(more.drop_last() =~= some);
            proof {
                assert forall|kind: Seq<char>| #[trigger] count_over(some, kind) <= u32::MAX by {
                    lemma_count_over_grows(self@, t as int, kind);
                    assert(count_over(self@, kind) <= u32::MAX);
                }
                assert forall|kind: Seq<char>|
                    #[trigger] tally_count(merged@, kind) + tally_count(
                        self.turns@[t as int].unrecognised@,
                        kind,
                    ) <= u32::MAX by {
                    lemma_tally_over(some, kind);
                    lemma_count_over_grows(self@, t + 1, kind);
                    assert(count_over(more, kind) == count_over(some, kind) + tally_count(
                        more.last().unrecognised,
                        kind,
                    ));
                    assert(count_over(self@, kind) <= u32::MAX);
                }
            }
            merged.merge(&self.turns[t].unrecognised);
            t = t + 1;
        }
        assert(self@.take(t as int) =~= self@);
        merged
    }

    /// Total token accounting across every turn that reported any.
    pub fn usage(&self) -> (r: Usage)
        ensures
            r == usage_over(self@),
    {
        let mut total = Usage::default();
        let mut t: usize = 0;
        assert(self@.take(0) =~= Seq::empty());
        while t < self.turns.len()
            invariant
                t <= self.turns.len(),
                total == usage_over(self@.take(t as int)),
            decreases self.turns.len() - t,
        {
            assert(self@.take(t + 1).last() == self.turns@[t as int]@);
            assert(self@.take(t + 1).drop_last() =~= self@.take(t as int));
            if let Outcome::Completed { usage, .. } = &self.turns[t].outcome {
                total =
                Usage {
                    input_tokens: add_count(total.input_tokens, usage.input_tokens),
                    cached_input_tokens: add_count(
                        total.cached_input_tokens,
                        usage.cached_input_tokens,
                    ),
                    cache_write_input_tokens: add_count(
                        total.cache_write_input_tokens,
                        usage.cache_write_input_tokens,
                    ),
                    output_tokens: add_count(total.output_tokens, usage.output_tokens),
                    reasoning_output_tokens: add_count(
                        total.reasoning_output_tokens,
                        usage.reasoning_output_tokens,
                    ),
                };
            }
            t = t + 1;
        }
        assert(self@.take(t as int) =~= self@);
        total
    }
}

/// The number a turn is shown under.
pub open spec fn turn_number(index: u32) -> nat {
    if index == u32::MAX {
        u32::MAX as nat
    } else {
        (index + 1) as nat
    }
}

/// One count of an accounting line, where it was reported.
pub open spec fn count_part(count: Option<u64>, unit: Seq<char>) -> Seq<Seq<char>> {
    match count {
        Some(n) => seq![decimal(n as nat) + unit],
        None => Seq::empty(),
    }
}

/// The parts of an accounting line.
///
/// Zero reasoning tokens is the common case and is not mentioned.
pub open spec fn accounting_parts(usage: Usage, cost: Option<CostModel>) -> Seq<Seq<char>> {
    count_part(usage.input_tokens, " in"@) + count_part(usage.output_tokens, " out"@) + (
    match usage.reasoning_output_tokens {
        Some(n) if n > 0 => seq![decimal(n as nat) + " reasoning"@],
        _ => Seq::empty(),
    }) + (match cost {
        Some(c) => seq!["$"@ + c.text],
        None => Seq::empty(),
    })
}

/// What a completed turn says of its accounting.
pub open spec fn accounting_text(usage: Usage, cost: Option<CostModel>) -> Seq<char> {
    if accounting_parts(usage, cost).len() == 0 {
        Seq::empty()
    } else {
        " — "@ + joined(accounting_parts(usage, cost), ", "@)
    }
}

/// How a turn opens: its number and its question.
pub open spec fn turn_head(index: u32, question: Seq<char>) -> Seq<char> {
    "\n## Turn "@ + decimal(turn_number(index)) + " — question\n\n"@ + trimmed_end(question)
        + "\n"@
}

/// The heading of a message, given whether a hook reopened the turn before it.
pub open spec fn message_label(role: Role, after_reopening: bool) -> Seq<char> {
    match role {
        Role::Assistant => if after_reopening {
            "assistant (after hook reopen — not the answer)"@
        } else {
            "assistant"@
        },
        Role::User => "user"@,
        Role::System => "system"@,
    }
}

/// How one message reads, given whether a hook reopened the turn before it.
pub open spec fn message_text(message: MessageModel, after_reopening: bool) -> Seq<char> {
    match message.source {
        MessageSource::HookInjection => "\n> [!WARNING]\n> **A hook in the delegate's environment reopened this finished turn.**\n> Everything below is the reopened turn, not the answer. The answer is above.\n>\n> Injected text: "@
            + one_line(message.text) + "\n"@,
        MessageSource::HookContext => "\n> [!NOTE]\n> A hook in the delegate's environment added context while the delegate was working.\n>\n> Injected text: "@
            + one_line(message.text) + "\n"@,
        MessageSource::Synthetic => "\n> [!NOTE]\n> "@ + one_line(message.text) + "\n"@,
        MessageSource::Delegate => "\n### "@ + message_label(message.role, after_reopening)
            + "\n\n"@ + trimmed_end(message.text) + "\n"@,
    }
}

/// How a list of messages reads.
pub open spec fn messages_text(messages: Seq<MessageModel>) -> Seq<char>
    decreases messages.len(),
{
    if messages.len() == 0 {
        Seq::empty()
    } else {
        messages_text(messages.drop_last()) + message_text(
            messages.last(),
            reopened(messages.drop_last()),
        )
    }
}

/// What is written of how a turn ended; nothing while it is running.
pub open spec fn outcome_text(index: u32, outcome: OutcomeModel) -> Seq<char> {
    match outcome {
        OutcomeModel::Running => Seq::empty(),
        OutcomeModel::Completed { usage, cost_usd } => "\n---\n\n_Turn "@ + decimal(
            turn_number(index),
        ) + " completed"@ + accounting_text(usage, cost_usd) + "_\n"@,
        OutcomeModel::Failed { kind, detail } => "\n---\n\n_Turn "@ + decimal(turn_number(index))
            + " failed: "@ + failure_label(kind) + " — "@ + one_line(detail)
            + "_\n\nAnything the delegate said before the failure is above and is not affected by it.\n"@,
        OutcomeModel::Cancelled => "\n---\n\n_Turn "@ + decimal(turn_number(index))
            + " cancelled. Everything collected before the cancellation is above._\n"@,
    }
}

/// What is written of events that were not recognised.
pub open spec fn drift_text(tally: Map<Seq<char>, u32>) -> Seq<char> {
    match tally_summary(tally) {
        Some(summary) => "\n> [!NOTE]\n> agentmux did not recognise "@ + decimal(
            tally_total(tally) as nat,
        ) + " event(s) in this turn's stream: "@ + summary
            + ".\n> The delegate CLI may have changed its output format. The raw stream is kept.\n"@,
        None => Seq::empty(),
    }
}

/// What is written of a reply recovered from outside the stream.
pub open spec fn recovered_text(recovered: Option<Seq<char>>) -> Seq<char> {
    match recovered {
        Some(text) => "\n> [!NOTE]\n> The delegate's event stream carried no reply, so agentmux recovered the text below\n> from the file the CLI writes directly.\n> Anything the delegate said earlier in the turn is not in that file.\n\n### assistant (recovered)\n\n"@
            + trimmed_end(text) + "\n"@,
        None => Seq::empty(),
    }
}

/// How a turn reads.
pub open spec fn turn_text(turn: TurnModel) -> Seq<char> {
    let body = turn_head(turn.index, turn.question) + messages_text(turn.messages);
    if turn.outcome.terminal() {
        body + outcome_text(turn.index, turn.outcome) + drift_text(turn.unrecognised)
            + recovered_text(turn.recovered)
    } else {
        body
    }
}

fn accounting(usage: &Usage, cost_usd: &Option<Cost>) -> (r: String)
    ensures
        r@ == accounting_text(*usage, cost_model(*cost_usd)),
{
    let mut parts: Vec<String> = Vec::new();
    let ghost empty = Seq::<Seq<char>>::empty();
    assert(texts(parts@) =~= empty);
    if let Some(input) = usage.input_tokens {
        let mut part = number(input);
        part.append(" in");
        proof {
            lemma_texts_push(parts@, part);
        }
        parts.push(part);
    }
    let ghost a = count_part(usage.input_tokens, " in"@);
    assert(texts(parts@) =~= a);
    if let Some(output) = usage.output_tokens {
        let mut part = number(output);
        part.append(" out");
        proof {
            lemma_texts_push(parts@, part);
        }
        parts.push(part);
    }
    let ghost b = a + count_part(usage.output_tokens, " out"@);
    assert(texts(parts@) =~= b);
    if let Some(reasoning) = usage.reasoning_output_tokens {
        if reasoning > 0 {
            let mut part = number(reasoning);
            part.append(" reasoning");
            proof {
                lemma_texts_push(parts@, part);
            }
            parts.push(part);
        }
    }
    let ghost c = b + (match usage.reasoning_output_tokens {
        Some(n) if n > 0 => seq![decimal(n as nat) + " reasoning"@],
        _ => Seq::empty(),
    });
    assert(texts(parts@) =~= c);
    if let Some(cost) = cost_usd {
        let mut part = "$".to_owned();
        part.append(cost.text.as_str());
        proof {
            lemma_texts_push(parts@, part);
        }
        parts.push(part);
    }
    assert(texts(parts@) =~= accounting_parts(*usage, cost_model(*cost_usd)));
    if parts.len() == 0 {
        String::new()
    } else {
        let mut out = " — ".to_owned();
        out.append(join(&parts, ", ").as_str());
        out
    }
}

fn render_message(message: &Message, after_reopening: bool) -> (r: String)
    ensures
        r@ == message_text(message@, after_reopening),
{
    match message.source {
        MessageSource::HookInjection => {
            let mut out = "\n> [!WARNING]\n> **A hook in the delegate's environment reopened this finished turn.**\n> Everything below is the reopened turn, not the answer. The answer is above.\n>\n> Injected text: ".to_owned();
            out.append(single_line(message.text.as_str()).as_str());
            out.append("\n");
            out
        },
        MessageSource::HookContext => {
            let mut out = "\n> [!NOTE]\n> A hook in the delegate's environment added context while the delegate was working.\n>\n> Injected text: ".to_owned();
            out.append(single_line(message.text.as_str()).as_str());
            out.append("\n");
            out
        },
        MessageSource::Synthetic => {
            let mut out = "\n> [!NOTE]\n> ".to_owned();
            out.append(single_line(message.text.as_str()).as_str());
            out.append("\n");
            out
        },
        MessageSource::Delegate => {
            let label = match message.role {
                Role::Assistant => if after_reopening {
                    "assistant (after hook reopen — not the answer)"
                } else {
                    "assistant"
                },
                Role::User => "user",
                Role::System => "system",
            };
            let mut out = "\n### ".to_owned();
            out.append(label);
            out.append("\n\n");
            out.append(trim_end(message.text.as_str()).as_str());
            out.append("\n");
            out
        },
    }
}

fn render_outcome(index: u32, outcome: &Outcome) -> (r: String)
    ensures
        r@ == outcome_text(index, outcome@),
{
    let turn = number(index.saturating_add(1) as u64);
    match outcome {
        Outcome::Running => String::new(),
        Outcome::Completed { usage, cost_usd } => {
            let mut out = "\n---\n\n_Turn ".to_owned();
            out.append(turn.as_str());
            out.append(" completed");
            out.append(accounting(usage, cost_usd).as_str());
            out.append("_\n");
            out
        },
        Outcome::Failed { kind, detail } => {
            let mut out = "\n---\n\n_Turn ".to_owned();
            out.append(turn.as_str());
            out.append(" failed: ");
            out.append(kind.label());
            out.append(" — ");
            out.append(single_line(detail.as_str()).as_str());
            out.append(
                "_\n\nAnything the delegate said before the failure is above and is not affected by it.\n",
            );
            out
        },
        Outcome::Cancelled => {
            let mut out = "\n---\n\n_Turn ".to_owned();
            out.append(turn.as_str());
            out.append(" cancelled. Everything collected before the cancellation is above._\n");
            out
        },
    }
}

fn render_drift(unrecognised: &UnrecognisedEvents) -> (r: String)
    requires
        tally_total(unrecognised@) <= u32::MAX,
    ensures
        r@ == drift_text(unrecognised@),
{
    match unrecognised.summary() {
        Some(summary) => {
            let mut out = "\n> [!NOTE]\n> agentmux did not recognise ".to_owned();
            out.append(number(unrecognised.total() as u64).as_str());
            out.append(" event(s) in this turn's stream: ");
            out.append(summary.as_str());
            out.append(
                ".\n> The delegate CLI may have changed its output format. The raw stream is kept.\n",
            );
            out
        },
        None => String::new(),
    }
}

fn render_recovered(recovered: &Option<String>) -> (r: String)
    ensures
        r@ == recovered_text(text_of(*recovered)),
{
    match recovered {
        Some(text) => {
            let mut out = "\n> [!NOTE]\n> The delegate's event stream carried no reply, so agentmux recovered the text below\n> from the file the CLI writes directly.\n> Anything the delegate said earlier in the turn is not in that file.\n\n### assistant (recovered)\n\n".to_owned();
            out.append(trim_end(text.as_str()).as_str());
            out.append("\n");
            out
        },
        None => String::new(),
    }
}

/// Render one turn as Markdown.
///
/// The result is append-only with respect to the event prefix it was folded from: appending
/// events to the stream can only append text here, never rewrite earlier text.
/// Everything after the messages is therefore written only once the outcome is terminal.
pub fn render_turn(turn: &Turn) -> (r: String)
    requires
        tally_total(turn@.unrecognised) <= u32::MAX,
    ensures
        r@ == turn_text(turn@),
{
    let mut out = "\n## Turn ".to_owned();
    out.append(number(turn.index.saturating_add(1) as u64).as_str());
    out.append(" — question\n\n");
    out.append(trim_end(turn.question.as_str()).as_str());
    out.append("\n");
    let ghost head = turn_head(turn.index, turn.question@);
    assert(out@ == head);

    let mut reopened_so_far = false;
    let mut i: usize = 0;
    let ghost all = turn@.messages;
    assert(all.take(0) =~= Seq::empty());
    assert(head + messages_text(all.take(0)) =~= head);
    while i < turn.messages.len()
        invariant
            i <= turn.messages.len(),
            all == messages_of(turn.messages@),
            reopened_so_far == reopened(all.take(i as int)),
            out@ == head + messages_text(all.take(i as int)),
        decreases turn.messages.len() - i,
    {
        let message = &turn.messages[i];
        let ghost some = all.take(i as int);
        let ghost more = all.take(i + 1);
        assert(more.drop_last() =~= some);
        assert(more.last() == message@);
        let text = render_message(message, reopened_so_far);
        let ghost had = out@;
        out.append(text.as_str());
        assert(out@ =~= head + (messages_text(some) + text@));
        proof {
            if message@.source == MessageSource::HookInjection {
                assert(more[i as int].source == MessageSource::HookInjection);
            }
            if reopened(some) {
                let j = choose|j: int|
                    0 <= j < some.len() && (#[trigger] some[j]).source
                        == MessageSource::HookInjection;
                assert(more[j].source == MessageSource::HookInjection);
            }
            if reopened(more) {
                let j = choose|j: int|
                    0 <= j < more.len() && (#[trigger] more[j]).source
                        == MessageSource::HookInjection;
                if j < i {
                    assert(some[j].source == MessageSource::HookInjection);
                }
            }
        }
        if message.source == MessageSource::HookInjection {
            reopened_so_far = true;
        }
        i = i + 1;
    }
    assert(all.take(i as int) =~= all);
    if !turn.outcome.is_terminal() {
        return out;
    }
    out.append(render_outcome(turn.index, &turn.outcome).as_str());
    out.append(render_drift(&turn.unrecognised).as_str());
    out.append(render_recovered(&turn.recovered).as_str());
    out
}

/// What was rendered stays: a turn that is still running and later has more messages, or has come
/// to its end, reads as before with more behind it.
pub proof fn running_turn_only_grows(before: TurnModel, after: TurnModel)
    requires
        before.index == after.index,
        before.question == after.question,
        before.messages.is_prefix_of(after.messages),
        before.outcome is Running,
    ensures
        turn_text(before).is_prefix_of(turn_text(after)),
{
    lemma_messages_grow(before.messages, after.messages);
    let head = turn_head(before.index, before.question);
    let x = messages_text(before.messages);
    let y = messages_text(after.messages);
    assert((head + x).is_prefix_of(head + y)) by {
        assert(head + y =~= (head + x) + y.skip(x.len() as int));
    }
}

/// A recovered reply and nothing else is what a finished turn can still gain, and it is written
/// behind everything that was there.
pub proof fn recovery_only_appends(before: TurnModel, after: TurnModel)
    requires
        before.recovered is None,
        after == (TurnModel { recovered: after.recovered, ..before }),
        before.outcome.terminal(),
    ensures
        turn_text(before).is_prefix_of(turn_text(after)),
{
    assert(turn_text(before) + recovered_text(after.recovered) =~= turn_text(after));
}

proof fn lemma_messages_grow(a: Seq<MessageModel>, b: Seq<MessageModel>)
    requires
        a.is_prefix_of(b),
    ensures
        messages_text(a).is_prefix_of(messages_text(b)),
    decreases b.len(),
{
    if a.len() == b.len() {
        assert(a =~= b);
    } else {
        assert(a.is_prefix_of(b.drop_last()));
        lemma_messages_grow(a, b.drop_last());
    }
}

} // verus!
