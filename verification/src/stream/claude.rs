//! Folds the `stream-json` event stream into a turn.
//!
//! # What this fold knows that the CLI does not document
//!
//! - `result.result` is **not** the answer.
//!   When a `Stop` hook blocks, the CLI reopens the finished turn and `result.result` becomes
//!   whatever the reopened turn produced — in a measured run, the empty string, while the real
//!   report sat two messages further up.
//!   Every `assistant` message is therefore captured and `result.result` is never read as the
//!   deliverable.
//! - `result.subtype` is unreliable and is not modelled.
//!   Branch on `is_error`.
//! - Assistant events with empty text are routine (a thinking-only step) and are dropped.
//! - `parent_tool_use_id` is non-null for subagent chatter, which is not part of the answer.
//! - Tool results arrive as `user` events whose content blocks are `tool_result`, never `text`.
//!   That is what makes the reopening test below structural: in `--print` mode the *only* way a
//!   `user` message carrying a `text` block reaches the main conversation is an injection.
//!   Whether that injection *reopened* a finished turn or merely added context mid-turn is
//!   decided by what the delegate was doing when it arrived: after a message that called a
//!   tool, the turn was still under way; after a message that did not, the turn had ended.

use vstd::prelude::*;
use vstd::string::*;

use crate::delegate::{token_fault, Alphabet, SessionRef};
use crate::ordered::walkable;
use crate::stream::{
    classification, classify, newline_at, session_of, Fold, MALFORMED_LINE,
};
use crate::text::{
    blank, chars_of, contains, is_blank, lowercase, occurs, same, text_between, text_of, texts,
    to_lowercase,
};
use crate::time::{from_timestamp_secs, rfc3339, rfc3339_text, Moment, FIRST_SECOND, LAST_SECOND};
use crate::transcript::{
    cost_model, lemma_count_within_total, lemma_messages_push, lemma_record_counts,
    lemma_total_empty, messages_of, new_turn, no_usage, reopened, running_turn_only_grows,
    tally_record, tally_total, turn_text, Cost, FailureKind, Message, MessageModel, MessageSource,
    Outcome, OutcomeModel, RateLimit, RateLimitModel, Role, Turn, TurnModel, UnrecognisedEvents,
    Usage,
};

verus! {

/// What a `system` event says.
pub struct SystemEvent {
    /// Which system event it is.
    pub subtype: Option<String>,
    /// The session the CLI opened.
    pub session_id: Option<String>,
}

/// What an `assistant` or `user` event says.
pub struct MessageEvent {
    /// What was said.
    pub content: Content,
    /// The model the vendor actually ran, which need not be the identifier that was asked for.
    pub model: Option<String>,
    /// Present on a message from inside a subagent rather than the main conversation.
    pub parent_tool_use_id: Option<String>,
}

/// `content` is a bare string on some events and a block list on others.
///
/// There is deliberately no catch-all variant: a third shape fails the whole event and is counted
/// as drift, which is the loud outcome.
pub enum Content {
    /// A bare string.
    Text(String),
    /// A list of blocks.
    Blocks(Vec<ContentBlock>),
}

impl Default for Content {
    fn default() -> (r: Self)
        ensures
            content_texts(r).len() == 0,
            content_unknown(r).len() == 0,
            !content_calls_a_tool(r),
    {
        Content::Blocks(Vec::new())
    }
}

/// One block of a message.
pub struct ContentBlock {
    /// What the block is.
    pub kind: String,
    /// Absent on every non-text block; absent on a *text* block only if the vendor renamed it,
    /// which is counted rather than read as an empty message.
    pub text: Option<String>,
}

/// What the terminal `result` event says.
pub struct ResultEvent {
    /// The authoritative success flag.
    pub is_error: bool,
    /// Why the turn ended.
    pub terminal_reason: Option<String>,
    /// The status the provider answered with.
    pub api_error_status: Option<i64>,
    /// The reopened turn's text when a hook blocked.
    /// Read only as failure detail, never as the answer.
    pub result: Option<String>,
    /// Token accounting.
    pub usage: Option<ClaudeUsage>,
    /// Dollar cost.
    pub total_cost_usd: Option<Cost>,
}

/// Token accounting in Anthropic's terms.
pub struct ClaudeUsage {
    /// Prompt tokens billed at the full rate.
    pub input_tokens: Option<u64>,
    /// Tokens the model emitted.
    pub output_tokens: Option<u64>,
    /// Prompt tokens served from the cache.
    pub cache_read_input_tokens: Option<u64>,
    /// Prompt tokens written into the cache.
    pub cache_creation_input_tokens: Option<u64>,
    /// Thinking tokens, from the details of the output.
    pub thinking_tokens: Option<u64>,
}

/// Anthropic's accounting in the vendor-neutral terms.
pub open spec fn usage_of(usage: ClaudeUsage) -> Usage {
    Usage {
        input_tokens: usage.input_tokens,
        cached_input_tokens: usage.cache_read_input_tokens,
        cache_write_input_tokens: usage.cache_creation_input_tokens,
        output_tokens: usage.output_tokens,
        reasoning_output_tokens: usage.thinking_tokens,
    }
}

/// What a `rate_limit_event` says.
pub struct RateLimitInfo {
    /// Whether the account may go on.
    pub status: Option<String>,
    /// Unix seconds at which the window reopens.
    pub resets_at: Option<i64>,
    /// Which window it is.
    pub rate_limit_type: Option<String>,
}

/// What one complete line of the stream says.
///
/// An event whose type is known but whose shape is not arrives without its event.
pub enum ClaudeLine {
    /// The line is not an event at all.
    Malformed,
    /// A `system` event.
    System(Option<SystemEvent>),
    /// An `assistant` event.
    Assistant(Option<MessageEvent>),
    /// A `user` event.
    User(Option<MessageEvent>),
    /// A `rate_limit_event`.
    RateLimit(Option<RateLimitInfo>),
    /// A `result` event.
    Result(Option<ResultEvent>),
    /// An event of a type that is not modelled.
    Other(String),
}

/// Which of the modelled shapes an event type has.
#[derive(Debug, Clone, Copy, PartialEq, Eq, Structural)]
pub enum ClaudeShape {
    /// `system`.
    System,
    /// `assistant`.
    Assistant,
    /// `user`.
    User,
    /// `rate_limit_event`.
    RateLimit,
    /// `result`.
    Result,
    /// Any other type.
    Other,
}

/// Which shape an event type has.
pub open spec fn shape_of(kind: Seq<char>) -> ClaudeShape {
    if kind == "system"@ {
        ClaudeShape::System
    } else if kind == "assistant"@ {
        ClaudeShape::Assistant
    } else if kind == "user"@ {
        ClaudeShape::User
    } else if kind == "rate_limit_event"@ {
        ClaudeShape::RateLimit
    } else if kind == "result"@ {
        ClaudeShape::Result
    } else {
        ClaudeShape::Other
    }
}

/// Which shape to read an event as, from its type.
pub fn shape(kind: &str) -> (r: ClaudeShape)
    ensures
        r == shape_of(kind@),
{
    if same(kind, "system") {
        ClaudeShape::System
    } else if same(kind, "assistant") {
        ClaudeShape::Assistant
    } else if same(kind, "user") {
        ClaudeShape::User
    } else if same(kind, "rate_limit_event") {
        ClaudeShape::RateLimit
    } else if same(kind, "result") {
        ClaudeShape::Result
    } else {
        ClaudeShape::Other
    }
}

/// `system` subtypes that have been observed with the exact flags [`crate::delegate`] builds.
///
/// Deliberately short.
/// Every name here is an event the drift counter will never report, so a name added on a guess is
/// a hole in the guarantee.
pub open spec fn known_subtype(subtype: Seq<char>) -> bool {
    subtype == "init"@ || subtype == "thinking_tokens"@ || subtype == "notification"@ || subtype
        == "hook_started"@ || subtype == "hook_response"@
}

/// Content block types that carry no prose and are dropped on purpose.
///
/// Named so that a block type outside this list is counted rather than filtered.
pub open spec fn silent_block(kind: Seq<char>) -> bool {
    kind == "tool_use"@ || kind == "tool_result"@ || kind == "thinking"@ || kind == "image"@
}

/// What the delegate was doing when a `user` text message arrived.
#[derive(Debug, Clone, Copy, PartialEq, Eq, Structural)]
pub enum DelegateActivity {
    /// It has not said anything yet.
    Silent,
    /// Its latest message called a tool, so the turn is still under way.
    CallingATool,
    /// Its latest message called no tool, so as far as the model is concerned the turn ended.
    Finished,
}

/// The prose of a list of blocks, in order.
pub open spec fn block_texts(blocks: Seq<ContentBlock>) -> Seq<Seq<char>>
    decreases blocks.len(),
{
    if blocks.len() == 0 {
        Seq::empty()
    } else {
        let before = block_texts(blocks.drop_last());
        match blocks.last().text {
            Some(text) if blocks.last().kind@ == "text"@ => before.push(text@),
            _ => before,
        }
    }
}

/// What is not accounted for in a list of blocks, in order.
///
/// A text block without its text is not an empty message; it is the payload field renamed, and
/// dropping it would drop the report.
pub open spec fn block_unknown(blocks: Seq<ContentBlock>) -> Seq<Seq<char>>
    decreases blocks.len(),
{
    if blocks.len() == 0 {
        Seq::empty()
    } else {
        let before = block_unknown(blocks.drop_last());
        let last = blocks.last();
        if last.kind@ == "text"@ {
            if last.text is None {
                before.push("text.<missing>"@)
            } else {
                before
            }
        } else if silent_block(last.kind@) {
            before
        } else {
            before.push(last.kind@)
        }
    }
}

/// The prose of a message.
pub open spec fn content_texts(content: Content) -> Seq<Seq<char>> {
    match content {
        Content::Text(text) => seq![text@],
        Content::Blocks(blocks) => block_texts(blocks@),
    }
}

/// What is not accounted for in a message.
pub open spec fn content_unknown(content: Content) -> Seq<Seq<char>> {
    match content {
        Content::Text(_) => Seq::empty(),
        Content::Blocks(blocks) => block_unknown(blocks@),
    }
}

/// Whether a message called a tool, which means the turn was not over when it was sent.
pub open spec fn content_calls_a_tool(content: Content) -> bool {
    match content {
        Content::Text(_) => false,
        Content::Blocks(blocks) => exists|i: int|
            0 <= i < blocks@.len() && (#[trigger] blocks@[i]).kind@ == "tool_use"@,
    }
}

/// What one message's content amounts to.
pub struct Inspected {
    /// The prose, in order.
    pub texts: Vec<String>,
    /// Block shapes the parser does not account for, for the drift counter.
    pub unknown: Vec<String>,
    /// Whether the message called a tool.
    pub calls_a_tool: bool,
}

impl Content {
    /// The prose of a message, plus any block shape the parser does not account for.
    pub fn inspect(&self) -> (r: Inspected)
        ensures
            texts(r.texts@) == content_texts(*self),
            texts(r.unknown@) == content_unknown(*self),
            r.calls_a_tool == content_calls_a_tool(*self),
    {
        match self {
            Content::Text(text) => {
                let mut prose: Vec<String> = Vec::new();
                prose.push(text.clone());
                let unknown: Vec<String> = Vec::new();
                assert(texts(prose@) =~= seq![text@]);
                assert(texts(unknown@) =~= Seq::empty());
                Inspected { texts: prose, unknown, calls_a_tool: false }
            },
            Content::Blocks(blocks) => {
                let mut prose: Vec<String> = Vec::new();
                let mut unknown: Vec<String> = Vec::new();
                let mut calls_a_tool = false;
                let mut i: usize = 0;
                assert(texts(prose@) =~= block_texts(blocks@.take(0)));
                assert(texts(unknown@) =~= block_unknown(blocks@.take(0)));
                while i < blocks.len()
                    invariant
                        i <= blocks.len(),
                        texts(prose@) == block_texts(blocks@.take(i as int)),
                        texts(unknown@) == block_unknown(blocks@.take(i as int)),
                        calls_a_tool == exists|j: int|
                            0 <= j < i && (#[trigger] blocks@[j]).kind@ == "tool_use"@,
                    decreases blocks.len() - i,
                {
                    let block = &blocks[i];
                    assert(blocks@.take(i + 1).drop_last() =~= blocks@.take(i as int));
                    assert(blocks@.take(i + 1).last() == block);
                    let kind = block.kind.as_str();
                    proof {
                        reveal_strlit("text");
                        reveal_strlit("tool_use");
                    }
                    if same(kind, "text") {
                        match &block.text {
                            Some(text) => {
                                let text = text.clone();
                                proof {
                                    crate::text::lemma_texts_push(prose@, text);
                                }
                                prose.push(text);
                            },
                            None => {
                                let missing = "text.<missing>".to_owned();
                                proof {
                                    crate::text::lemma_texts_push(unknown@, missing);
                                }
                                unknown.push(missing);
                            },
                        }
                    } else if same(kind, "tool_use") {
                        assert(blocks@[i as int].kind@ == "tool_use"@);
                        calls_a_tool = true;
                    } else if !(same(kind, "tool_result") || same(kind, "thinking") || same(
                        kind,
                        "image",
                    )) {
                        let other = block.kind.clone();
                        proof {
                            crate::text::lemma_texts_push(unknown@, other);
                        }
                        unknown.push(other);
                    }
                    assert("text"@.len() != "tool_use"@.len());
                    i = i + 1;
                }
                assert(blocks@.take(i as int) =~= blocks@);
                Inspected { texts: prose, unknown, calls_a_tool }
            },
        }
    }
}

/// The prefix the CLI puts on a `user` message a blocking hook injected.
///
/// Used only to *name* an injection before the delegate has spoken.
pub open spec fn names_hook(text: Seq<char>) -> bool {
    occurs(lowercase(text.take(newline_at(text))), "hook feedback:"@)
}

/// Whether the text is the CLI's own hook-feedback wording, for naming rather than detection.
pub fn names_a_hook(text: &str) -> (r: bool)
    ensures
        r == names_hook(text@),
{
    let chars = chars_of(text);
    let mut end: usize = 0;
    assert(chars@.skip(0) =~= chars@);
    while end < chars.len() && chars[end] != '\n'
        invariant
            end <= chars.len(),
            chars@ == text@,
            newline_at(text@) == end + newline_at(chars@.skip(end as int)),
        decreases chars.len() - end,
    {
        assert(chars@.skip(end as int).drop_first() =~= chars@.skip(end + 1));
        end = end + 1;
    }
    let first = text_between(&chars, 0, end);
    assert(text@.take(newline_at(text@)) =~= first@);
    contains(to_lowercase(first.as_str()).as_str(), "hook feedback:")
}

/// What a `user` text message turned out to be.
#[derive(Debug, Clone, Copy, PartialEq, Eq, Structural)]
pub enum Injection {
    /// Nothing injected: an ordinary turn input.
    Nothing,
    /// A hook added context while the delegate was still working.
    Context,
    /// A hook reopened a turn the delegate had finished, so what follows is not the answer.
    Reopening,
}

/// What a `user` text message is, from what the delegate was doing when it arrived.
///
/// The test is **structural**, not textual: matching the CLI's wording would record the injection
/// as an ordinary user message the day that wording changes.
/// The wording is consulted only before the delegate has spoken, where structure cannot tell an
/// injected prelude from the prompt.
pub open spec fn injection_of(text: Seq<char>, activity: DelegateActivity) -> Injection {
    match activity {
        DelegateActivity::Finished => Injection::Reopening,
        DelegateActivity::CallingATool => Injection::Context,
        DelegateActivity::Silent => if names_hook(text) {
            Injection::Context
        } else {
            Injection::Nothing
        },
    }
}

/// Decide what a `user` text message is from what the delegate was doing when it arrived.
pub fn classify_injection(text: &str, delegate: DelegateActivity) -> (r: Injection)
    ensures
        r == injection_of(text@, delegate),
{
    match delegate {
        DelegateActivity::Finished => Injection::Reopening,
        DelegateActivity::CallingATool => Injection::Context,
        DelegateActivity::Silent => if names_a_hook(text) {
            Injection::Context
        } else {
            Injection::Nothing
        },
    }
}

/// The message that prose of an `assistant` event becomes.
pub open spec fn assistant_message(text: Seq<char>) -> MessageModel {
    MessageModel { role: Role::Assistant, text, source: MessageSource::Delegate }
}

/// The message that prose of a `user` event becomes.
pub open spec fn user_message(text: Seq<char>, activity: DelegateActivity) -> MessageModel {
    MessageModel {
        role: Role::User,
        text,
        source: match injection_of(text, activity) {
            Injection::Reopening => MessageSource::HookInjection,
            Injection::Context => MessageSource::HookContext,
            Injection::Nothing => MessageSource::Delegate,
        },
    }
}

/// The messages a list of prose becomes: every text that is not blank, in order.
pub open spec fn spoken(
    prose: Seq<Seq<char>>,
    message: spec_fn(Seq<char>) -> MessageModel,
) -> Seq<MessageModel>
    decreases prose.len(),
{
    if prose.len() == 0 {
        Seq::empty()
    } else {
        let before = spoken(prose.drop_last(), message);
        if is_blank(prose.last()) {
            before
        } else {
            before.push(message(prose.last()))
        }
    }
}

/// Whether a list of prose holds anything but blanks.
pub open spec fn says_something(prose: Seq<Seq<char>>) -> bool {
    exists|i: int| 0 <= i < prose.len() && !is_blank(#[trigger] prose[i])
}

/// A tally with a sighting of each of a list of types.
pub open spec fn record_each(
    tally: Map<Seq<char>, u32>,
    place: Seq<char>,
    kinds: Seq<Seq<char>>,
) -> Map<Seq<char>, u32>
    decreases kinds.len(),
{
    if kinds.len() == 0 {
        tally
    } else {
        tally_record(record_each(tally, place, kinds.drop_last()), place + kinds.last())
    }
}

/// The window that a `rate_limit_event` discloses, where it discloses one.
pub open spec fn disclosed(info: RateLimitInfo) -> Option<RateLimitModel> {
    match info.resets_at {
        Some(seconds) if FIRST_SECOND <= seconds <= LAST_SECOND => Some(
            RateLimitModel {
                resets_at: Moment { seconds, nanos: 0 },
                window: text_of(info.rate_limit_type),
            },
        ),
        _ => None,
    }
}

/// The note a refusal earns in the transcript.
pub open spec fn limit_note(status: Seq<char>, limit: Option<RateLimitModel>) -> Seq<char> {
    let head = "delegate rate limit status: "@ + status;
    match limit {
        Some(l) => (match l.window {
            Some(window) => head + "; the "@ + window + " window reopens at "@,
            None => head + "; the window reopens at "@,
        }) + rfc3339_text(l.resets_at.seconds, l.resets_at.nanos),
        None => head,
    }
}

/// A turn after what a `rate_limit_event` says.
///
/// The window is kept whatever the status says, because a run that succeeded against a nearly
/// closed window still tells the caller what to expect from the next question.
/// Only a refusal earns a line in the transcript.
pub open spec fn with_rate_limit(turn: TurnModel, info: RateLimitInfo) -> TurnModel {
    let limit = match disclosed(info) {
        Some(l) => Some(l),
        None => turn.rate_limit,
    };
    let messages = match info.status {
        Some(status) if status@ != "allowed"@ => turn.messages.push(
            MessageModel {
                role: Role::System,
                text: limit_note(status@, limit),
                source: MessageSource::Synthetic,
            },
        ),
        _ => turn.messages,
    };
    TurnModel { rate_limit: limit, messages, ..turn }
}

/// Two texts with a colon between them, or the one that is there.
pub open spec fn reason_and_text(reason: Seq<char>, text: Seq<char>) -> Seq<char> {
    if reason.len() == 0 {
        text
    } else if text.len() == 0 {
        reason
    } else {
        reason + ": "@ + text
    }
}

/// A text that may be absent, or no characters where it is.
pub open spec fn text_or_empty(s: Option<String>) -> Seq<char> {
    match s {
        Some(s) => s@,
        None => Seq::empty(),
    }
}

/// The failure detail of a `result` event.
///
/// `result` is the reopened turn's text when a hook blocked, so it is unusable as failure detail
/// in that case; the terminal reason still is.
pub open spec fn failure_detail(event: ResultEvent, reopened: bool) -> Seq<char> {
    reason_and_text(
        text_or_empty(event.terminal_reason),
        if reopened {
            Seq::empty()
        } else {
            text_or_empty(event.result)
        },
    )
}

/// The kind of failure a `result` event tells of.
pub open spec fn failure_kind(event: ResultEvent, reopened: bool) -> FailureKind {
    let reason = text_or_empty(event.terminal_reason);
    if event.api_error_status == Some(404i64) {
        FailureKind::ModelUnavailable
    } else if event.api_error_status == Some(429i64) {
        FailureKind::RateLimited
    } else if event.api_error_status == Some(402i64) {
        FailureKind::BudgetExceeded
    } else if reason == "max_turns"@ || reason == "turn_limit"@ {
        FailureKind::TurnLimit
    } else if reason == "refusal"@ {
        FailureKind::ContentFlagged
    } else {
        classification(failure_detail(event, reopened))
    }
}

/// The outcome the terminal `result` event decides.
pub open spec fn outcome_after(event: ResultEvent, reopened: bool) -> OutcomeModel {
    if !event.is_error {
        OutcomeModel::Completed {
            usage: match event.usage {
                Some(usage) => usage_of(usage),
                None => no_usage(),
            },
            cost_usd: cost_model(event.total_cost_usd),
        }
    } else {
        OutcomeModel::Failed {
            kind: failure_kind(event, reopened),
            detail: if failure_detail(event, reopened).len() == 0 {
                "delegate reported an error"@
            } else {
                failure_detail(event, reopened)
            },
        }
    }
}

/// What is known of a turn after some of its lines.
#[verifier::ext_equal]
pub struct ClaudeState {
    /// The turn so far.
    pub turn: TurnModel,
    /// The session announced so far.
    pub session: Option<Seq<char>>,
    /// Whether a hook reopened the turn.
    pub reopened: bool,
    /// What the delegate was doing last.
    pub activity: DelegateActivity,
}

impl ClaudeState {
    /// The same state with one more sighting of a type.
    pub open spec fn counting(self, kind: Seq<char>) -> ClaudeState {
        ClaudeState {
            turn: TurnModel {
                unrecognised: tally_record(self.turn.unrecognised, kind),
                ..self.turn
            },
            ..self
        }
    }
}

/// The subtype of a `system` event.
pub open spec fn subtype_of(event: SystemEvent) -> Seq<char> {
    text_or_empty(event.subtype)
}

/// What a line makes of a state, as long as the turn has not ended.
pub open spec fn claude_step(state: ClaudeState, line: ClaudeLine) -> ClaudeState {
    match line {
        ClaudeLine::Malformed => state.counting(MALFORMED_LINE@),
        ClaudeLine::System(None) => state.counting("system.<unparsable>"@),
        ClaudeLine::System(Some(event)) => {
            let named = match event.session_id {
                Some(id) if subtype_of(event) == "init"@ && token_fault(
                    id@,
                    SessionRef::MAX_LEN as nat,
                    Alphabet::Session,
                ) is None => ClaudeState { session: Some(id@), ..state },
                _ => state,
            };
            if known_subtype(subtype_of(event)) {
                named
            } else {
                named.counting("system."@ + subtype_of(event))
            }
        },
        ClaudeLine::Assistant(None) => state.counting("assistant.<unparsable>"@),
        ClaudeLine::Assistant(Some(event)) => if event.parent_tool_use_id is Some {
            state
        } else {
            ClaudeState {
                turn: TurnModel {
                    resolved_model: match state.turn.resolved_model {
                        Some(model) => Some(model),
                        None => text_of(event.model),
                    },
                    unrecognised: record_each(
                        state.turn.unrecognised,
                        "assistant.content."@,
                        content_unknown(event.content),
                    ),
                    messages: state.turn.messages + spoken(
                        content_texts(event.content),
                        |text: Seq<char>| assistant_message(text),
                    ),
                    ..state.turn
                },
                activity: if content_calls_a_tool(event.content) {
                    DelegateActivity::CallingATool
                } else {
                    DelegateActivity::Finished
                },
                ..state
            }
        },
        ClaudeLine::User(None) => state.counting("user.<unparsable>"@),
        ClaudeLine::User(Some(event)) => if event.parent_tool_use_id is Some {
            state
        } else {
            ClaudeState {
                turn: TurnModel {
                    unrecognised: record_each(
                        state.turn.unrecognised,
                        "user.content."@,
                        content_unknown(event.content),
                    ),
                    messages: state.turn.messages + spoken(
                        content_texts(event.content),
                        |text: Seq<char>| user_message(text, state.activity),
                    ),
                    ..state.turn
                },
                reopened: state.reopened || (state.activity == DelegateActivity::Finished
                    && says_something(content_texts(event.content))),
                ..state
            }
        },
        ClaudeLine::RateLimit(None) => state.counting("rate_limit_event.<unparsable>"@),
        ClaudeLine::RateLimit(Some(info)) => ClaudeState {
            turn: with_rate_limit(state.turn, info),
            ..state
        },
        ClaudeLine::Result(None) => state.counting("result.<unparsable>"@),
        ClaudeLine::Result(Some(event)) => ClaudeState {
            turn: TurnModel { outcome: outcome_after(event, state.reopened), ..state.turn },
            ..state
        },
        ClaudeLine::Other(kind) => state.counting(kind@),
    }
}

/// What is known of a turn before its first line.
pub open spec fn claude_start(index: u32, question: Seq<char>) -> ClaudeState {
    ClaudeState {
        turn: new_turn(index, question),
        session: None,
        reopened: false,
        activity: DelegateActivity::Silent,
    }
}

/// What is known of a turn after some lines: nothing that follows a terminal event counts.
pub open spec fn claude_state(
    index: u32,
    question: Seq<char>,
    lines: Seq<ClaudeLine>,
) -> ClaudeState
    decreases lines.len(),
{
    if lines.len() == 0 {
        claude_start(index, question)
    } else {
        let before = claude_state(index, question, lines.drop_last());
        if before.turn.outcome.terminal() {
            before
        } else {
            claude_step(before, lines.last())
        }
    }
}

/// How many sightings a line can add to the tally at most.
pub open spec fn line_weight(line: ClaudeLine) -> int {
    match line {
        ClaudeLine::Assistant(Some(event)) => content_unknown(event.content).len() as int,
        ClaudeLine::User(Some(event)) => content_unknown(event.content).len() as int,
        _ => 1,
    }
}

/// How many sightings some lines can add to the tally at most.
pub open spec fn lines_weight(lines: Seq<ClaudeLine>) -> int
    decreases lines.len(),
{
    if lines.len() == 0 {
        0
    } else {
        lines_weight(lines.drop_last()) + line_weight(lines.last())
    }
}

/// Recording each of a list of types adds their number to the total.
pub proof fn lemma_record_each(
    tally: Map<Seq<char>, u32>,
    place: Seq<char>,
    kinds: Seq<Seq<char>>,
)
    requires
        walkable(tally),
        tally_total(tally) + kinds.len() <= u32::MAX,
    ensures
        walkable(record_each(tally, place, kinds)),
        tally_total(record_each(tally, place, kinds)) == tally_total(tally) + kinds.len(),
    decreases kinds.len(),
{
    if kinds.len() > 0 {
        lemma_record_each(tally, place, kinds.drop_last());
        lemma_record_counts(record_each(tally, place, kinds.drop_last()), place + kinds.last());
    }
}

/// A turn as it is being folded.
struct ClaudeFold {
    turn: Turn,
    session: Option<SessionRef>,
    reopened: bool,
    activity: DelegateActivity,
}

impl View for ClaudeFold {
    type V = ClaudeState;

    closed spec fn view(&self) -> ClaudeState {
        ClaudeState {
            turn: self.turn@,
            session: session_of(self.session),
            reopened: self.reopened,
            activity: self.activity,
        }
    }
}

fn record_unknown(tally: &mut UnrecognisedEvents, place: &str, kinds: &Vec<String>)
    requires
        walkable(old(tally)@),
        tally_total(old(tally)@) + kinds@.len() <= u32::MAX,
    ensures
        final(tally)@ == record_each(old(tally)@, place@, texts(kinds@)),
        walkable(final(tally)@),
        tally_total(final(tally)@) == tally_total(old(tally)@) + kinds@.len(),
{
    let ghost start = tally@;
    let ghost all = texts(kinds@);
    let mut i: usize = 0;
    assert(all.take(0) =~= Seq::empty());
    while i < kinds.len()
        invariant
            i <= kinds.len(),
            all == texts(kinds@),
            walkable(start),
            tally_total(start) + kinds@.len() <= u32::MAX,
            tally@ == record_each(start, place@, all.take(i as int)),
        decreases kinds.len() - i,
    {
        proof {
            lemma_record_each(start, place@, all.take(i as int));
            assert(all.take(i + 1).drop_last() =~= all.take(i as int));
        }
        let mut name = place.to_owned();
        name.append(kinds[i].as_str());
        proof {
            lemma_count_within_total(tally@, name@);
        }
        tally.record(name.as_str());
        i = i + 1;
    }
    proof {
        assert(all.take(i as int) =~= all);
        lemma_record_each(start, place@, all);
    }
}

fn assistant_says(messages: &mut Vec<Message>, prose: &Vec<String>)
    ensures
        messages_of(final(messages)@) == messages_of(old(messages)@) + spoken(
            texts(prose@),
            |text: Seq<char>| assistant_message(text),
        ),
{
    let ghost start = messages_of(messages@);
    let ghost all = texts(prose@);
    let ghost message = |text: Seq<char>| assistant_message(text);
    let mut i: usize = 0;
    assert(all.take(0) =~= Seq::empty());
    assert(start + spoken(all.take(0), message) =~= start);
    while i < prose.len()
        invariant
            i <= prose.len(),
            all == texts(prose@),
            message == (|text: Seq<char>| assistant_message(text)),
            messages_of(messages@) == start + spoken(all.take(i as int), message),
        decreases prose.len() - i,
    {
        let ghost some = spoken(all.take(i as int), message);
        assert(all.take(i + 1).drop_last() =~= all.take(i as int));
        assert(all.take(i + 1).last() == prose@[i as int]@);
        if !blank(prose[i].as_str()) {
            let said = Message::delegate(Role::Assistant, prose[i].as_str());
            proof {
                lemma_messages_push(messages@, said);
                assert((start + some).push(said@) =~= start + some.push(said@));
            }
            messages.push(said);
        }
        i = i + 1;
    }
    assert(all.take(i as int) =~= all);
}

fn user_says(messages: &mut Vec<Message>, prose: &Vec<String>, activity: DelegateActivity) -> (r:
    bool)
    ensures
        messages_of(final(messages)@) == messages_of(old(messages)@) + spoken(
            texts(prose@),
            |text: Seq<char>| user_message(text, activity),
        ),
        r == (activity == DelegateActivity::Finished && says_something(texts(prose@))),
{
    let ghost start = messages_of(messages@);
    let ghost all = texts(prose@);
    let ghost message = |text: Seq<char>| user_message(text, activity);
    let mut reopened = false;
    let mut i: usize = 0;
    assert(all.take(0) =~= Seq::empty());
    assert(start + spoken(all.take(0), message) =~= start);
    while i < prose.len()
        invariant
            i <= prose.len(),
            all == texts(prose@),
            message == (|text: Seq<char>| user_message(text, activity)),
            messages_of(messages@) == start + spoken(all.take(i as int), message),
            reopened == (activity == DelegateActivity::Finished && exists|j: int|
                0 <= j < i && !is_blank(#[trigger] all[j])),
        decreases prose.len() - i,
    {
        let ghost some = spoken(all.take(i as int), message);
        assert(all.take(i + 1).drop_last() =~= all.take(i as int));
        assert(all.take(i + 1).last() == prose@[i as int]@);
        assert(all[i as int] == prose@[i as int]@);
        if !blank(prose[i].as_str()) {
            let text = prose[i].as_str();
            let said = match classify_injection(text, activity) {
                Injection::Reopening => {
                    reopened = true;
                    Message::hook_injection(text)
                },
                Injection::Context => Message::hook_context(text),
                Injection::Nothing => Message::delegate(Role::User, text),
            };
            proof {
                lemma_messages_push(messages@, said);
                assert((start + some).push(said@) =~= start + some.push(said@));
            }
            messages.push(said);
        }
        i = i + 1;
    }
    assert(all.take(i as int) =~= all);
    reopened
}

/// Record what a `rate_limit_event` says about the account's usage window.
fn fold_rate_limit(turn: &mut Turn, info: &RateLimitInfo)
    requires
        old(turn)@.rate_limit matches Some(l) ==> l.resets_at.valid(),
    ensures
        final(turn)@ == with_rate_limit(old(turn)@, *info),
        final(turn)@.rate_limit matches Some(l) ==> l.resets_at.valid(),
{
    let ghost start = turn@;
    if let Some(seconds) = info.resets_at {
        if let Some(resets_at) = from_timestamp_secs(seconds) {
            turn.rate_limit = Some(RateLimit { resets_at, window: info.rate_limit_type.clone() });
        }
    }
    assert(turn@ == (TurnModel {
        rate_limit: match disclosed(*info) {
            Some(l) => Some(l),
            None => start.rate_limit,
        },
        ..start
    }));
    if let Some(status) = &info.status {
        if !same(status.as_str(), "allowed") {
            let mut note = "delegate rate limit status: ".to_owned();
            note.append(status.as_str());
            if let Some(limit) = &turn.rate_limit {
                match &limit.window {
                    Some(window) => {
                        note.append("; the ");
                        note.append(window.as_str());
                        note.append(" window reopens at ");
                    },
                    None => {
                        note.append("; the window reopens at ");
                    },
                }
                note.append(rfc3339(limit.resets_at).as_str());
            }
            let message = Message::synthetic(note.as_str());
            proof {
                lemma_messages_push(turn.messages@, message);
            }
            turn.messages.push(message);
        }
    }
    assert(turn@ =~= with_rate_limit(start, *info));
}

/// Decide a turn's outcome from the terminal `result` event.
///
/// `is_error` is authoritative.
pub fn outcome_of(event: &ResultEvent, reopened: bool) -> (r: Outcome)
    ensures
        r@ == outcome_after(*event, reopened),
{
    if !event.is_error {
        return Outcome::Completed {
            usage: match &event.usage {
                Some(usage) => Usage {
                    input_tokens: usage.input_tokens,
                    cached_input_tokens: usage.cache_read_input_tokens,
                    cache_write_input_tokens: usage.cache_creation_input_tokens,
                    output_tokens: usage.output_tokens,
                    reasoning_output_tokens: usage.thinking_tokens,
                },
                None => Usage::default(),
            },
            cost_usd: match &event.total_cost_usd {
                Some(cost) => Some(cost.clone()),
                None => None,
            },
        };
    }
    let reason = match &event.terminal_reason {
        Some(reason) => reason.clone(),
        None => String::new(),
    };
    let text = if reopened {
        String::new()
    } else {
        match &event.result {
            Some(text) => text.clone(),
            None => String::new(),
        }
    };
    let detail = if reason.as_str().is_empty() {
        text
    } else if text.as_str().is_empty() {
        reason.clone()
    } else {
        let mut detail = reason.clone();
        detail.append(": ");
        detail.append(text.as_str());
        detail
    };
    assert(reason@ == text_or_empty(event.terminal_reason));
    assert(detail@ == failure_detail(*event, reopened));
    let status: i64 = match event.api_error_status {
        Some(status) => status,
        None => 0,
    };
    let kind = if status == 404 {
        FailureKind::ModelUnavailable
    } else if status == 429 {
        FailureKind::RateLimited
    } else if status == 402 {
        FailureKind::BudgetExceeded
    } else if same(reason.as_str(), "max_turns") || same(reason.as_str(), "turn_limit") {
        FailureKind::TurnLimit
    } else if same(reason.as_str(), "refusal") {
        FailureKind::ContentFlagged
    } else {
        classify(detail.as_str())
    };
    Outcome::Failed {
        kind,
        detail: if detail.as_str().is_empty() {
            "delegate reported an error".to_owned()
        } else {
            detail
        },
    }
}

impl ClaudeFold {
    spec fn sound(&self) -> bool {
        &&& walkable(self.turn@.unrecognised)
        &&& self.turn@.rate_limit matches Some(l) ==> l.resets_at.valid()
    }

    fn count(&mut self, kind: &str)
        requires
            old(self).sound(),
            tally_total(old(self)@.turn.unrecognised) < u32::MAX,
        ensures
            final(self)@ == old(self)@.counting(kind@),
            final(self).sound(),
            tally_total(final(self)@.turn.unrecognised) == tally_total(
                old(self)@.turn.unrecognised,
            ) + 1,
    {
        proof {
            lemma_count_within_total(self.turn@.unrecognised, kind@);
            lemma_record_counts(self.turn@.unrecognised, kind@);
        }
        self.turn.unrecognised.record(kind);
    }

    fn system(&mut self, event: &SystemEvent)
        requires
            old(self).sound(),
            tally_total(old(self)@.turn.unrecognised) < u32::MAX,
        ensures
            final(self)@ == claude_step(old(self)@, ClaudeLine::System(Some(*event))),
            final(self).sound(),
            tally_total(final(self)@.turn.unrecognised) <= tally_total(
                old(self)@.turn.unrecognised,
            ) + 1,
    {
        let subtype = match &event.subtype {
            Some(subtype) => subtype.clone(),
            None => String::new(),
        };
        assert(subtype@ == subtype_of(*event));
        if same(subtype.as_str(), "init") {
            if let Some(id) = &event.session_id {
                if let Ok(parsed) = SessionRef::parse(id.as_str()) {
                    self.session = Some(parsed);
                }
            }
        }
        let known = same(subtype.as_str(), "init") || same(subtype.as_str(), "thinking_tokens")
            || same(subtype.as_str(), "notification") || same(subtype.as_str(), "hook_started")
            || same(subtype.as_str(), "hook_response");
        if !known {
            let mut name = "system.".to_owned();
            name.append(subtype.as_str());
            self.count(name.as_str());
        }
    }

    fn assistant(&mut self, event: &MessageEvent)
        requires
            old(self).sound(),
            tally_total(old(self)@.turn.unrecognised) + content_unknown(event.content).len()
                <= u32::MAX,
        ensures
            final(self)@ == claude_step(old(self)@, ClaudeLine::Assistant(Some(*event))),
            final(self).sound(),
            tally_total(final(self)@.turn.unrecognised) <= tally_total(
                old(self)@.turn.unrecognised,
            ) + content_unknown(event.content).len(),
    {
        if event.parent_tool_use_id.is_some() {
            return;
        }
        // The first message that names one is kept: later messages in a turn repeat it, and a
        // subagent's model was skipped above with the rest of its conversation.
        if self.turn.resolved_model.is_none() {
            self.turn.resolved_model = event.model.clone();
        }
        let inspected = event.content.inspect();
        record_unknown(&mut self.turn.unrecognised, "assistant.content.", &inspected.unknown);
        self.activity = if inspected.calls_a_tool {
            DelegateActivity::CallingATool
        } else {
            DelegateActivity::Finished
        };
        assistant_says(&mut self.turn.messages, &inspected.texts);
        assert(self@ =~= claude_step(old(self)@, ClaudeLine::Assistant(Some(*event))));
    }

    fn user(&mut self, event: &MessageEvent)
        requires
            old(self).sound(),
            tally_total(old(self)@.turn.unrecognised) + content_unknown(event.content).len()
                <= u32::MAX,
        ensures
            final(self)@ == claude_step(old(self)@, ClaudeLine::User(Some(*event))),
            final(self).sound(),
            tally_total(final(self)@.turn.unrecognised) <= tally_total(
                old(self)@.turn.unrecognised,
            ) + content_unknown(event.content).len(),
    {
        if event.parent_tool_use_id.is_some() {
            return;
        }
        let inspected = event.content.inspect();
        record_unknown(&mut self.turn.unrecognised, "user.content.", &inspected.unknown);
        let reopens = user_says(&mut self.turn.messages, &inspected.texts, self.activity);
        if reopens {
            self.reopened = true;
        }
        assert(self@ =~= claude_step(old(self)@, ClaudeLine::User(Some(*event))));
    }

    fn step(&mut self, line: &ClaudeLine)
        requires
            old(self).sound(),
            tally_total(old(self)@.turn.unrecognised) + line_weight(*line) <= u32::MAX,
        ensures
            final(self)@ == claude_step(old(self)@, *line),
            final(self).sound(),
            tally_total(final(self)@.turn.unrecognised) <= tally_total(
                old(self)@.turn.unrecognised,
            ) + line_weight(*line),
    {
        match line {
            ClaudeLine::Malformed => self.count(MALFORMED_LINE),
            ClaudeLine::System(Some(event)) => self.system(event),
            ClaudeLine::System(None) => self.count("system.<unparsable>"),
            ClaudeLine::Assistant(Some(event)) => self.assistant(event),
            ClaudeLine::Assistant(None) => self.count("assistant.<unparsable>"),
            ClaudeLine::User(Some(event)) => self.user(event),
            ClaudeLine::User(None) => self.count("user.<unparsable>"),
            ClaudeLine::RateLimit(Some(info)) => {
                fold_rate_limit(&mut self.turn, info);
                assert(self@ =~= claude_step(old(self)@, *line));
            },
            ClaudeLine::RateLimit(None) => self.count("rate_limit_event.<unparsable>"),
            ClaudeLine::Result(Some(event)) => {
                self.turn.outcome = outcome_of(event, self.reopened);
                assert(self@ =~= claude_step(old(self)@, *line));
            },
            ClaudeLine::Result(None) => self.count("result.<unparsable>"),
            ClaudeLine::Other(kind) => self.count(kind.as_str()),
        }
    }
}

proof fn lemma_weight_prefix(lines: Seq<ClaudeLine>, n: int)
    requires
        0 <= n <= lines.len(),
    ensures
        0 <= lines_weight(lines.take(n)) <= lines_weight(lines),
    decreases lines.len(),
{
    if n == lines.len() {
        assert(lines.take(n) =~= lines);
        if n > 0 {
            lemma_weight_prefix(lines.drop_last(), n - 1);
            assert(lines.drop_last().take(n - 1) =~= lines.drop_last());
        }
    } else {
        assert(lines.drop_last().take(n) =~= lines.take(n));
        lemma_weight_prefix(lines.drop_last(), n);
    }
}

/// Fold the lines of a `stream-json` stream into a turn.
///
/// Nothing may follow a terminal event.
/// Stopping there keeps the rendered transcript strictly append-only, which is what `tail`'s
/// cursor relies on.
pub fn fold(index: u32, question: &str, lines: &Vec<ClaudeLine>) -> (r: Fold)
    requires
        lines_weight(lines@) <= u32::MAX,
    ensures
        r.turn@ == claude_state(index, question@, lines@).turn,
        session_of(r.session) == claude_state(index, question@, lines@).session,
        walkable(r.turn@.unrecognised),
        tally_total(r.turn@.unrecognised) <= lines_weight(lines@),
        r.turn@.rate_limit matches Some(l) ==> l.resets_at.valid(),
{
    let mut fold = ClaudeFold {
        turn: Turn::new(index, question),
        session: None,
        reopened: false,
        activity: DelegateActivity::Silent,
    };
    let mut i: usize = 0;
    proof {
        lemma_total_empty();
        assert(lines@.take(0) =~= Seq::empty());
    }
    while i < lines.len() && !fold.turn.outcome.is_terminal()
        invariant
            i <= lines.len(),
            lines_weight(lines@) <= u32::MAX,
            fold@ == claude_state(index, question@, lines@.take(i as int)),
            fold.sound(),
            tally_total(fold@.turn.unrecognised) <= lines_weight(lines@.take(i as int)),
        decreases lines.len() - i,
    {
        proof {
            lemma_weight_prefix(lines@, i + 1);
            assert(lines@.take(i + 1).drop_last() =~= lines@.take(i as int));
            assert(lines@.take(i + 1).last() == lines@[i as int]);
        }
        fold.step(&lines[i]);
        i = i + 1;
    }
    proof {
        nothing_follows_the_end(index, question@, lines@, i as int);
        lemma_weight_prefix(lines@, i as int);
    }
    Fold { turn: fold.turn, session: fold.session }
}

/// Nothing follows the end: once some lines hold a terminal event, the lines behind it change
/// nothing.
pub proof fn nothing_follows_the_end(
    index: u32,
    question: Seq<char>,
    lines: Seq<ClaudeLine>,
    n: int,
)
    requires
        0 <= n <= lines.len(),
        n == lines.len() || claude_state(index, question, lines.take(n)).turn.outcome.terminal(),
    ensures
        claude_state(index, question, lines) == claude_state(index, question, lines.take(n)),
    decreases lines.len(),
{
    if n == lines.len() {
        assert(lines.take(n) =~= lines);
    } else {
        assert(lines.drop_last().take(n) =~= lines.take(n));
        nothing_follows_the_end(index, question, lines.drop_last(), n);
    }
}

/// What a delegate said is kept: the messages after some lines are the first messages after more
/// lines, whatever those say and however the turn ends.
pub proof fn messages_are_kept(
    index: u32,
    question: Seq<char>,
    lines: Seq<ClaudeLine>,
    n: int,
)
    requires
        0 <= n <= lines.len(),
    ensures
        claude_state(index, question, lines.take(n)).turn.messages.is_prefix_of(
            claude_state(index, question, lines).turn.messages,
        ),
    decreases lines.len(),
{
    if n == lines.len() {
        assert(lines.take(n) =~= lines);
    } else {
        assert(lines.drop_last().take(n) =~= lines.take(n));
        messages_are_kept(index, question, lines.drop_last(), n);
        let before = claude_state(index, question, lines.drop_last());
        let a = claude_state(index, question, lines.take(n)).turn.messages;
        if !before.turn.outcome.terminal() {
            let after = claude_step(before, lines.last());
            assert(before.turn.messages.is_prefix_of(after.turn.messages));
            assert(a.is_prefix_of(after.turn.messages));
        }
    }
}

/// A fold keeps the index and the question it was started with.
pub proof fn lemma_same_question(index: u32, question: Seq<char>, lines: Seq<ClaudeLine>)
    ensures
        claude_state(index, question, lines).turn.index == index,
        claude_state(index, question, lines).turn.question == question,
    decreases lines.len(),
{
    if lines.len() > 0 {
        lemma_same_question(index, question, lines.drop_last());
    }
}

/// A rendered turn only grows: whatever lines follow, what was rendered of the lines so far stands
/// unchanged at the start of what is rendered later.
pub proof fn rendering_only_grows(
    index: u32,
    question: Seq<char>,
    lines: Seq<ClaudeLine>,
    n: int,
)
    requires
        0 <= n <= lines.len(),
    ensures
        turn_text(claude_state(index, question, lines.take(n)).turn).is_prefix_of(
            turn_text(claude_state(index, question, lines).turn),
        ),
{
    let before = claude_state(index, question, lines.take(n)).turn;
    if before.outcome.terminal() {
        nothing_follows_the_end(index, question, lines, n);
    } else {
        lemma_same_question(index, question, lines.take(n));
        lemma_same_question(index, question, lines);
        messages_are_kept(index, question, lines, n);
        running_turn_only_grows(before, claude_state(index, question, lines).turn);
    }
}

/// The text of a `result` event is never taken for an answer: the event that ends a turn leaves
/// its messages as they are.
pub proof fn result_text_is_not_a_message(state: ClaudeState, event: ResultEvent)
    ensures
        claude_step(state, ClaudeLine::Result(Some(event))).turn.messages == state.turn.messages,
{
}

/// Nothing goes by uncounted: a line that is no event, an event of a type that is not modelled,
/// and an event whose shape is not the one its type has each add one to the tally.
pub proof fn unknown_lines_are_counted(state: ClaudeState, line: ClaudeLine)
    requires
        walkable(state.turn.unrecognised),
        tally_total(state.turn.unrecognised) < u32::MAX,
        match line {
            ClaudeLine::Malformed => true,
            ClaudeLine::Other(_) => true,
            ClaudeLine::System(event) => event is None,
            ClaudeLine::Assistant(event) => event is None,
            ClaudeLine::User(event) => event is None,
            ClaudeLine::RateLimit(event) => event is None,
            ClaudeLine::Result(event) => event is None,
        },
    ensures
        tally_total(claude_step(state, line).turn.unrecognised) == tally_total(
            state.turn.unrecognised,
        ) + 1,
{
    let kind = match line {
        ClaudeLine::Malformed => MALFORMED_LINE@,
        ClaudeLine::Other(kind) => kind@,
        ClaudeLine::System(_) => "system.<unparsable>"@,
        ClaudeLine::Assistant(_) => "assistant.<unparsable>"@,
        ClaudeLine::User(_) => "user.<unparsable>"@,
        ClaudeLine::RateLimit(_) => "rate_limit_event.<unparsable>"@,
        ClaudeLine::Result(_) => "result.<unparsable>"@,
    };
    lemma_record_counts(state.turn.unrecognised, kind);
}

proof fn lemma_spoken_reopens(prose: Seq<Seq<char>>, activity: DelegateActivity)
    ensures
        reopened(spoken(prose, |text: Seq<char>| user_message(text, activity))) == (activity
            == DelegateActivity::Finished && says_something(prose)),
    decreases prose.len(),
{
    let message = |text: Seq<char>| user_message(text, activity);
    if prose.len() > 0 {
        let before = prose.drop_last();
        lemma_spoken_reopens(before, activity);
        let a = spoken(before, message);
        let b = spoken(prose, message);
        lemma_reopened_push(a, message(prose.last()));
        if says_something(before) {
            let i = choose|i: int| 0 <= i < before.len() && !is_blank(#[trigger] before[i]);
            assert(!is_blank(prose[i]));
        }
        if says_something(prose) && is_blank(prose.last()) {
            let i = choose|i: int| 0 <= i < prose.len() && !is_blank(#[trigger] prose[i]);
            assert(before[i] == prose[i]);
        }
        if !is_blank(prose.last()) {
            assert(!is_blank(prose[prose.len() - 1]));
        }
    }
}

proof fn lemma_reopened_push(messages: Seq<MessageModel>, m: MessageModel)
    ensures
        reopened(messages.push(m)) == (reopened(messages) || m.source
            == MessageSource::HookInjection),
{
    let more = messages.push(m);
    if reopened(messages) {
        let i = choose|i: int|
            0 <= i < messages.len() && (#[trigger] messages[i]).source
                == MessageSource::HookInjection;
        assert(more[i] == messages[i]);
    }
    if m.source == MessageSource::HookInjection {
        assert(more[messages.len() as int] == m);
    }
    if reopened(more) && m.source != MessageSource::HookInjection {
        let i = choose|i: int|
            0 <= i < more.len() && (#[trigger] more[i]).source == MessageSource::HookInjection;
        assert(messages[i] == more[i]);
    }
}

proof fn lemma_reopened_concat(a: Seq<MessageModel>, b: Seq<MessageModel>)
    ensures
        reopened(a + b) == (reopened(a) || reopened(b)),
    decreases b.len(),
{
    if b.len() == 0 {
        assert(a + b =~= a);
    } else {
        lemma_reopened_concat(a, b.drop_last());
        assert((a + b.drop_last()).push(b.last()) =~= a + b);
        lemma_reopened_push(a + b.drop_last(), b.last());
        lemma_reopened_push(b.drop_last(), b.last());
        assert(b.drop_last().push(b.last()) =~= b);
    }
}

proof fn lemma_assistant_never_reopens(prose: Seq<Seq<char>>)
    ensures
        !reopened(spoken(prose, |text: Seq<char>| assistant_message(text))),
    decreases prose.len(),
{
    if prose.len() > 0 {
        let message = |text: Seq<char>| assistant_message(text);
        lemma_assistant_never_reopens(prose.drop_last());
        lemma_reopened_push(spoken(prose.drop_last(), message), message(prose.last()));
    }
}

/// A reopening is always marked, and nothing else is: the fold knows of a reopening exactly when a
/// message of the turn is marked as the injection that did it.
pub proof fn reopening_is_marked(index: u32, question: Seq<char>, lines: Seq<ClaudeLine>)
    ensures
        claude_state(index, question, lines).reopened == reopened(
            claude_state(index, question, lines).turn.messages,
        ),
    decreases lines.len(),
{
    if lines.len() > 0 {
        reopening_is_marked(index, question, lines.drop_last());
        let before = claude_state(index, question, lines.drop_last());
        if !before.turn.outcome.terminal() {
            match lines.last() {
                ClaudeLine::Assistant(Some(event)) => {
                    lemma_assistant_never_reopens(content_texts(event.content));
                    lemma_reopened_concat(
                        before.turn.messages,
                        spoken(
                            content_texts(event.content),
                            |text: Seq<char>| assistant_message(text),
                        ),
                    );
                },
                ClaudeLine::User(Some(event)) => {
                    lemma_spoken_reopens(content_texts(event.content), before.activity);
                    lemma_reopened_concat(
                        before.turn.messages,
                        spoken(
                            content_texts(event.content),
                            |text: Seq<char>| user_message(text, before.activity),
                        ),
                    );
                },
                ClaudeLine::RateLimit(Some(info)) => {
                    let after = with_rate_limit(before.turn, info);
                    if after.messages != before.turn.messages {
                        lemma_reopened_push(before.turn.messages, after.messages.last());
                    }
                },
                _ => {},
            }
        }
    }
}

/// Detection of a reopening does not depend on wording: prose from the user side, arriving when
/// the delegate had finished, is marked as an injection whatever it says.
pub proof fn reopening_is_structural(state: ClaudeState, event: MessageEvent)
    requires
        state.activity == DelegateActivity::Finished,
        event.parent_tool_use_id is None,
        says_something(content_texts(event.content)),
    ensures
        claude_step(state, ClaudeLine::User(Some(event))).reopened,
        reopened(claude_step(state, ClaudeLine::User(Some(event))).turn.messages),
{
    lemma_spoken_reopens(content_texts(event.content), state.activity);
    lemma_reopened_concat(
        state.turn.messages,
        spoken(
            content_texts(event.content),
            |text: Seq<char>| user_message(text, state.activity),
        ),
    );
}

} // verus!
