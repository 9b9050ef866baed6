//! Folds the Codex CLI's `--json` event stream into a turn.
//!
//! # What this fold knows that the CLI does not document
//!
//! - **An `item.completed` whose `item.type` is `error` is not necessarily fatal.**
//!   A resume against a model that differs from the recorded one emits exactly that shape as a
//!   *warning*, and the turn then completes normally.
//!   Treating it as terminal would fail a consultation that in fact succeeded, so it becomes a
//!   note in the transcript and nothing more.
//!   Only `turn.failed` and a top-level `error` end a turn.
//! - One failure arrives as up to three events — an `item.completed` error, a top-level `error`,
//!   and `turn.failed` — all carrying the same message.
//!   The first terminal event ends the fold, so they fold into one outcome.
//! - Unknown `item.type` values are counted, not skipped.
//!   If a future release renamed `agent_message`, a fold that filtered on the name alone would
//!   silently drop every report.

use vstd::prelude::*;
use vstd::string::*;

use crate::delegate::{token_fault, Alphabet, SessionRef};
use crate::ordered::walkable;
use crate::stream::{classification, classify, session_of, Fold, MALFORMED_LINE};
use crate::text::{blank, is_blank, same};
use crate::transcript::{
    lemma_count_within_total, lemma_messages_push, lemma_record_counts, lemma_total_empty,
    new_turn, no_usage, running_turn_only_grows, tally_record, tally_total, turn_text, Message,
    MessageModel, MessageSource, Outcome, OutcomeModel, Role, Turn, TurnModel, Usage,
};

verus! {

/// What an `item.completed` event completes.
pub struct Item {
    /// What the item is.
    pub kind: String,
    /// The text of a reply.
    pub text: Option<String>,
    /// The text of an error.
    pub message: Option<String>,
}

/// Token accounting in Codex's terms.
pub struct CodexUsage {
    /// Prompt tokens billed at the full rate.
    pub input_tokens: Option<u64>,
    /// Prompt tokens served from the cache.
    pub cached_input_tokens: Option<u64>,
    /// Prompt tokens written into the cache.
    pub cache_write_input_tokens: Option<u64>,
    /// Tokens the model emitted.
    pub output_tokens: Option<u64>,
    /// Reasoning tokens.
    pub reasoning_output_tokens: Option<u64>,
}

/// Codex's accounting in the vendor-neutral terms.
pub open spec fn usage_of(usage: CodexUsage) -> Usage {
    Usage {
        input_tokens: usage.input_tokens,
        cached_input_tokens: usage.cached_input_tokens,
        cache_write_input_tokens: usage.cache_write_input_tokens,
        output_tokens: usage.output_tokens,
        reasoning_output_tokens: usage.reasoning_output_tokens,
    }
}

/// What one complete line of the stream says.
///
/// An event whose type is known but whose shape is not arrives without its event.
pub enum CodexLine {
    /// The line is not an event at all.
    Malformed,
    /// A `thread.started` event, with the thread it names where it names one.
    ThreadStarted(Option<String>),
    /// A `turn.started`, `item.started` or `item.updated` event.
    Progress,
    /// An `item.completed` event.
    ItemCompleted(Option<Item>),
    /// A `turn.completed` event, with its accounting where it has one.
    TurnCompleted(Option<Option<CodexUsage>>),
    /// A top-level `error` event, with its message where it has one.
    Error(Option<String>),
    /// A `turn.failed` event, with the message of its error where it has one.
    TurnFailed(Option<String>),
    /// An event of a type that is not modelled.
    Other(String),
}

/// Which of the modelled shapes an event type has.
#[derive(Debug, Clone, Copy, PartialEq, Eq, Structural)]
pub enum CodexShape {
    /// `thread.started`.
    ThreadStarted,
    /// `turn.started`, `item.started` or `item.updated`.
    Progress,
    /// `item.completed`.
    ItemCompleted,
    /// `turn.completed`.
    TurnCompleted,
    /// `error`.
    Error,
    /// `turn.failed`.
    TurnFailed,
    /// Any other type.
    Other,
}

/// Which shape an event type has.
pub open spec fn shape_of(kind: Seq<char>) -> CodexShape {
    if kind == "thread.started"@ {
        CodexShape::ThreadStarted
    } else if kind == "turn.started"@ || kind == "item.started"@ || kind == "item.updated"@ {
        CodexShape::Progress
    } else if kind == "item.completed"@ {
        CodexShape::ItemCompleted
    } else if kind == "turn.completed"@ {
        CodexShape::TurnCompleted
    } else if kind == "error"@ {
        CodexShape::Error
    } else if kind == "turn.failed"@ {
        CodexShape::TurnFailed
    } else {
        CodexShape::Other
    }
}

/// Which shape to read an event as, from its type.
pub fn shape(kind: &str) -> (r: CodexShape)
    ensures
        r == shape_of(kind@),
{
    if same(kind, "thread.started") {
        CodexShape::ThreadStarted
    } else if same(kind, "turn.started") || same(kind, "item.started") || same(
        kind,
        "item.updated",
    ) {
        CodexShape::Progress
    } else if same(kind, "item.completed") {
        CodexShape::ItemCompleted
    } else if same(kind, "turn.completed") {
        CodexShape::TurnCompleted
    } else if same(kind, "error") {
        CodexShape::Error
    } else if same(kind, "turn.failed") {
        CodexShape::TurnFailed
    } else {
        CodexShape::Other
    }
}

/// `item.type` values that have been observed with the exact flags [`crate::delegate`] builds.
///
/// Only `agent_message` carries the answer.
/// `command_execution`, `mcp_tool_call` and `web_search` are the delegate narrating its own work,
/// and `error` is advisory.
/// The list is deliberately short: every name here is drift the counter will never report, so
/// naming a type on a guess is a hole in the guarantee.
pub open spec fn known_item(kind: Seq<char>) -> bool {
    kind == "agent_message"@ || kind == "command_execution"@ || kind == "mcp_tool_call"@ || kind
        == "web_search"@ || kind == "error"@
}

/// What is known of a turn after some of its lines.
#[verifier::ext_equal]
pub struct CodexState {
    /// The turn so far.
    pub turn: TurnModel,
    /// The session announced so far.
    pub session: Option<Seq<char>>,
}

impl CodexState {
    /// The same state with one more sighting of a type.
    pub open spec fn counting(self, kind: Seq<char>) -> CodexState {
        CodexState {
            turn: TurnModel {
                unrecognised: tally_record(self.turn.unrecognised, kind),
                ..self.turn
            },
            ..self
        }
    }

    /// The same state with one more message.
    pub open spec fn saying(self, message: MessageModel) -> CodexState {
        CodexState {
            turn: TurnModel { messages: self.turn.messages.push(message), ..self.turn },
            ..self
        }
    }

    /// The same state with the turn at its end.
    pub open spec fn ending(self, outcome: OutcomeModel) -> CodexState {
        CodexState { turn: TurnModel { outcome, ..self.turn }, ..self }
    }
}

/// What a completed item makes of a state.
pub open spec fn item_step(state: CodexState, item: Item) -> CodexState {
    if !known_item(item.kind@) {
        state.counting("item.completed."@ + item.kind@)
    } else if item.kind@ == "agent_message"@ {
        match item.text {
            None => state.counting("item.completed.agent_message.text"@),
            Some(text) => if is_blank(text@) {
                state
            } else {
                state.saying(
                    MessageModel {
                        role: Role::Assistant,
                        text: text@,
                        source: MessageSource::Delegate,
                    },
                )
            },
        }
    } else if item.kind@ == "error"@ {
        match item.message {
            Some(text) if !is_blank(text@) => state.saying(
                MessageModel {
                    role: Role::System,
                    text: "delegate warning: "@ + text@,
                    source: MessageSource::Synthetic,
                },
            ),
            _ => state,
        }
    } else {
        state
    }
}

/// The failure that an error message tells of.
pub open spec fn failure_of(message: Option<String>) -> OutcomeModel {
    let detail = match message {
        Some(text) => text@,
        None => "delegate reported an error"@,
    };
    OutcomeModel::Failed { kind: classification(detail), detail }
}

/// What a line makes of a state, as long as the turn has not ended.
pub open spec fn codex_step(state: CodexState, line: CodexLine) -> CodexState {
    match line {
        CodexLine::Malformed => state.counting(MALFORMED_LINE@),
        CodexLine::ThreadStarted(id) => match id {
            Some(id) if token_fault(id@, SessionRef::MAX_LEN as nat, Alphabet::Session)
                is None => CodexState { session: Some(id@), ..state },
            _ => state,
        },
        CodexLine::Progress => state,
        CodexLine::ItemCompleted(None) => state.counting("item.completed.<unparsable>"@),
        CodexLine::ItemCompleted(Some(item)) => item_step(state, item),
        CodexLine::TurnCompleted(None) => state.counting("turn.completed.<unparsable>"@),
        CodexLine::TurnCompleted(Some(usage)) => state.ending(
            OutcomeModel::Completed {
                usage: match usage {
                    Some(usage) => usage_of(usage),
                    None => no_usage(),
                },
                cost_usd: None,
            },
        ),
        CodexLine::Error(message) => state.ending(failure_of(message)),
        CodexLine::TurnFailed(message) => state.ending(failure_of(message)),
        CodexLine::Other(kind) => state.counting(kind@),
    }
}

/// What is known of a turn before its first line.
pub open spec fn codex_start(index: u32, question: Seq<char>) -> CodexState {
    CodexState { turn: new_turn(index, question), session: None }
}

/// What is known of a turn after some lines: nothing that follows a terminal event counts.
pub open spec fn codex_state(index: u32, question: Seq<char>, lines: Seq<CodexLine>) -> CodexState
    decreases lines.len(),
{
    if lines.len() == 0 {
        codex_start(index, question)
    } else {
        let before = codex_state(index, question, lines.drop_last());
        if before.turn.outcome.terminal() {
            before
        } else {
            codex_step(before, lines.last())
        }
    }
}

/// A turn as it is being folded.
struct CodexFold {
    turn: Turn,
    session: Option<SessionRef>,
}

impl View for CodexFold {
    type V = CodexState;

    closed spec fn view(&self) -> CodexState {
        CodexState { turn: self.turn@, session: session_of(self.session) }
    }
}

/// The outcome a vendor's error message decides.
fn failed(message: &Option<String>) -> (r: Outcome)
    ensures
        r@ == failure_of(*message),
{
    let detail = match message {
        Some(text) => text.clone(),
        None => "delegate reported an error".to_owned(),
    };
    Outcome::Failed { kind: classify(detail.as_str()), detail }
}

impl CodexFold {
    fn count(&mut self, kind: &str)
        requires
            walkable(old(self)@.turn.unrecognised),
            tally_total(old(self)@.turn.unrecognised) < u32::MAX,
        ensures
            final(self)@ == old(self)@.counting(kind@),
            walkable(final(self)@.turn.unrecognised),
            tally_total(final(self)@.turn.unrecognised) == tally_total(
                old(self)@.turn.unrecognised,
            ) + 1,
    {
        proof {
            lemma_count_within_total(self.turn@.unrecognised, kind@);
            lemma_record_counts(self.turn@.unrecognised, kind@);
        }
        self.turn.unrecognised.record(kind);
    }

    fn say(&mut self, message: Message)
        ensures
            final(self)@ == old(self)@.saying(message@),
    {
        proof {
            lemma_messages_push(self.turn.messages@, message);
        }
        self.turn.messages.push(message);
        assert(self@ =~= old(self)@.saying(message@));
    }

    fn item(&mut self, item: &Item)
        requires
            walkable(old(self)@.turn.unrecognised),
            tally_total(old(self)@.turn.unrecognised) < u32::MAX,
        ensures
            final(self)@ == item_step(old(self)@, *item),
            walkable(final(self)@.turn.unrecognised),
            tally_total(final(self)@.turn.unrecognised) <= tally_total(
                old(self)@.turn.unrecognised,
            ) + 1,
    {
        let kind = item.kind.as_str();
        if same(kind, "agent_message") {
            match &item.text {
                Some(text) => if !blank(text.as_str()) {
                    self.say(Message::delegate(Role::Assistant, text.as_str()));
                },
                None => self.count("item.completed.agent_message.text"),
            }
        } else if same(kind, "error") {
            proof {
                reveal_strlit("error");
                reveal_strlit("agent_message");
            }
            if let Some(text) = &item.message {
                if !blank(text.as_str()) {
                    let mut note = "delegate warning: ".to_owned();
                    note.append(text.as_str());
                    self.say(Message::synthetic(note.as_str()));
                }
            }
        } else if !(same(kind, "command_execution") || same(kind, "mcp_tool_call") || same(
            kind,
            "web_search",
        )) {
            let mut name = "item.completed.".to_owned();
            name.append(kind);
            self.count(name.as_str());
        }
    }

    fn step(&mut self, line: &CodexLine)
        requires
            walkable(old(self)@.turn.unrecognised),
            tally_total(old(self)@.turn.unrecognised) < u32::MAX,
        ensures
            final(self)@ == codex_step(old(self)@, *line),
            walkable(final(self)@.turn.unrecognised),
            tally_total(final(self)@.turn.unrecognised) <= tally_total(
                old(self)@.turn.unrecognised,
            ) + 1,
    {
        match line {
            CodexLine::Malformed => self.count(MALFORMED_LINE),
            CodexLine::ThreadStarted(Some(id)) => {
                if let Ok(parsed) = SessionRef::parse(id.as_str()) {
                    self.session = Some(parsed);
                }
            },
            CodexLine::ThreadStarted(None) => {},
            CodexLine::Progress => {},
            CodexLine::ItemCompleted(Some(item)) => self.item(item),
            CodexLine::ItemCompleted(None) => self.count("item.completed.<unparsable>"),
            CodexLine::TurnCompleted(Some(usage)) => {
                self.turn.outcome = Outcome::Completed {
                    usage: match usage {
                        Some(usage) => Usage {
                            input_tokens: usage.input_tokens,
                            cached_input_tokens: usage.cached_input_tokens,
                            cache_write_input_tokens: usage.cache_write_input_tokens,
                            output_tokens: usage.output_tokens,
                            reasoning_output_tokens: usage.reasoning_output_tokens,
                        },
                        None => Usage::default(),
                    },
                    cost_usd: None,
                };
                assert(self@ =~= codex_step(old(self)@, *line));
            },
            CodexLine::TurnCompleted(None) => self.count("turn.completed.<unparsable>"),
            CodexLine::Error(message) => {
                self.turn.outcome = failed(message);
                assert(self@ =~= codex_step(old(self)@, *line));
            },
            CodexLine::TurnFailed(message) => {
                self.turn.outcome = failed(message);
                assert(self@ =~= codex_step(old(self)@, *line));
            },
            CodexLine::Other(kind) => self.count(kind.as_str()),
        }
    }
}

/// Fold the lines of a Codex `--json` stream into a turn.
///
/// The first terminal event ends the fold: reading on past it is what would let a later line land
/// above a footer already handed out.
pub fn fold(index: u32, question: &str, lines: &Vec<CodexLine>) -> (r: Fold)
    requires
        lines@.len() <= u32::MAX,
    ensures
        r.turn@ == codex_state(index, question@, lines@).turn,
        session_of(r.session) == codex_state(index, question@, lines@).session,
        walkable(r.turn@.unrecognised),
        tally_total(r.turn@.unrecognised) <= lines@.len(),
{
    let mut fold = CodexFold { turn: Turn::new(index, question), session: None };
    let mut i: usize = 0;
    proof {
        lemma_total_empty();
        assert(lines@.take(0) =~= Seq::empty());
    }
    while i < lines.len() && !fold.turn.outcome.is_terminal()
        invariant
            i <= lines.len(),
            lines@.len() <= u32::MAX,
            fold@ == codex_state(index, question@, lines@.take(i as int)),
            walkable(fold@.turn.unrecognised),
            tally_total(fold@.turn.unrecognised) <= i,
        decreases lines.len() - i,
    {
        proof {
            assert(lines@.take(i + 1).drop_last() =~= lines@.take(i as int));
            assert(lines@.take(i + 1).last() == lines@[i as int]);
        }
        fold.step(&lines[i]);
        i = i + 1;
    }
    proof {
        nothing_follows_the_end(index, question@, lines@, i as int);
    }
    Fold { turn: fold.turn, session: fold.session }
}

/// Nothing follows the end: once some lines hold a terminal event, the lines behind it change
/// nothing.
pub proof fn nothing_follows_the_end(
    index: u32,
    question: Seq<char>,
    lines: Seq<CodexLine>,
    n: int,
)
    requires
        0 <= n <= lines.len(),
        n == lines.len() || codex_state(index, question, lines.take(n)).turn.outcome.terminal(),
    ensures
        codex_state(index, question, lines) == codex_state(index, question, lines.take(n)),
    decreases lines.len(),
{
    if n == lines.len() {
        assert(lines.take(n) =~= lines);
    } else {
        assert(lines.drop_last().take(n) =~= lines.take(n));
        nothing_follows_the_end(index, question, lines.drop_last(), n);
    }
}

/// What a delegate said is kept: the messages after some lines are the first messages after more
/// lines, whatever those say and however the turn ends.
pub proof fn messages_are_kept(index: u32, question: Seq<char>, lines: Seq<CodexLine>, n: int)
    requires
        0 <= n <= lines.len(),
    ensures
        codex_state(index, question, lines.take(n)).turn.messages.is_prefix_of(
            codex_state(index, question, lines).turn.messages,
        ),
    decreases lines.len(),
{
    if n == lines.len() {
        assert(lines.take(n) =~= lines);
    } else {
        assert(lines.drop_last().take(n) =~= lines.take(n));
        messages_are_kept(index, question, lines.drop_last(), n);
        let before = codex_state(index, question, lines.drop_last());
        let a = codex_state(index, question, lines.take(n)).turn.messages;
        if !before.turn.outcome.terminal() {
            let after = codex_step(before, lines.last());
            assert(before.turn.messages.is_prefix_of(after.turn.messages));
            assert(a.is_prefix_of(after.turn.messages));
        }
    }
}

/// A Codex stream discloses no usage window.
pub proof fn lemma_no_limit(index: u32, question: Seq<char>, lines: Seq<CodexLine>)
    ensures
        codex_state(index, question, lines).turn.rate_limit is None,
    decreases lines.len(),
{
    if lines.len() > 0 {
        lemma_no_limit(index, question, lines.drop_last());
    }
}

/// A fold keeps the index and the question it was started with.
pub proof fn lemma_same_question(index: u32, question: Seq<char>, lines: Seq<CodexLine>)
    ensures
        codex_state(index, question, lines).turn.index == index,
        codex_state(index, question, lines).turn.question == question,
    decreases lines.len(),
{
    if lines.len() > 0 {
        lemma_same_question(index, question, lines.drop_last());
    }
}

/// A rendered turn only grows: whatever lines follow, what was rendered of the lines so far stands
/// unchanged at the start of what is rendered later.
pub proof fn rendering_only_grows(index: u32, question: Seq<char>, lines: Seq<CodexLine>, n: int)
    requires
        0 <= n <= lines.len(),
    ensures
        turn_text(codex_state(index, question, lines.take(n)).turn).is_prefix_of(
            turn_text(codex_state(index, question, lines).turn),
        ),
{
    let before = codex_state(index, question, lines.take(n)).turn;
    if before.outcome.terminal() {
        nothing_follows_the_end(index, question, lines, n);
    } else {
        lemma_same_question(index, question, lines.take(n));
        lemma_same_question(index, question, lines);
        messages_are_kept(index, question, lines, n);
        running_turn_only_grows(before, codex_state(index, question, lines).turn);
    }
}

/// A completed item of type `error` is a warning: no completed item ends a turn.
pub proof fn items_never_end_a_turn(state: CodexState, item: Option<Item>)
    ensures
        codex_step(state, CodexLine::ItemCompleted(item)).turn.outcome == state.turn.outcome,
{
}

/// Nothing goes by uncounted: a line that is no event, an event of a type that is not modelled,
/// and a completed item of a type that is not known each add one to the tally.
pub proof fn unknown_lines_are_counted(state: CodexState, line: CodexLine)
    requires
        walkable(state.turn.unrecognised),
        tally_total(state.turn.unrecognised) < u32::MAX,
        match line {
            CodexLine::Malformed => true,
            CodexLine::Other(_) => true,
            CodexLine::ItemCompleted(None) => true,
            CodexLine::ItemCompleted(Some(item)) => !known_item(item.kind@) || (item.kind@
                == "agent_message"@ && item.text is None),
            CodexLine::TurnCompleted(usage) => usage is None,
            _ => false,
        },
    ensures
        tally_total(codex_step(state, line).turn.unrecognised) == tally_total(
            state.turn.unrecognised,
        ) + 1,
{
    let kind = match line {
        CodexLine::Malformed => MALFORMED_LINE@,
        CodexLine::Other(kind) => kind@,
        CodexLine::ItemCompleted(None) => "item.completed.<unparsable>"@,
        CodexLine::ItemCompleted(Some(item)) => if !known_item(item.kind@) {
            "item.completed."@ + item.kind@
        } else {
            "item.completed.agent_message.text"@
        },
        _ => "turn.completed.<unparsable>"@,
    };
    lemma_record_counts(state.turn.unrecognised, kind);
}

} // verus!
