//! What a Codex stream comes to.

use vstd::prelude::*;

use crate::delegate::{token_fault, Alphabet, SessionRef};
use crate::stream::classification;
use crate::stream::codex::{codex_state, codex_step, nothing_follows_the_end, shape_of, CodexLine, CodexShape, CodexState};
use crate::text::is_blank;
use crate::transcript::{
    lemma_count_within_total, lemma_record_counts, lemma_total_empty, tally_count, tally_record,
    tally_total, MessageModel, MessageSource, OutcomeModel, Role,
};
use crate::ordered::walkable;

verus! {

/// Whether a line ends the turn.
pub open spec fn ends(line: CodexLine) -> bool {
    match line {
        CodexLine::TurnCompleted(Some(_)) => true,
        CodexLine::Error(_) => true,
        CodexLine::TurnFailed(_) => true,
        _ => false,
    }
}

/// Whether a place is where the turn ends: at the first line that ends it, or behind the last.
pub open spec fn ends_at(lines: Seq<CodexLine>, n: int) -> bool {
    &&& 0 <= n <= lines.len()
    &&& n < lines.len() ==> ends(lines[n])
    &&& forall|i: int| 0 <= i < n ==> !ends(#[trigger] lines[i])
}

/// Whether a line carries words of the delegate.
pub open spec fn replies(line: CodexLine) -> bool {
    match line {
        CodexLine::ItemCompleted(Some(item)) => item.kind@ == "agent_message"@ && (
        item.text matches Some(text) && !is_blank(text@)),
        _ => false,
    }
}

/// The words of the delegate that a line carries.
pub open spec fn reply(line: CodexLine) -> Seq<char> {
    match line {
        CodexLine::ItemCompleted(Some(item)) => match item.text {
            Some(text) => text@,
            None => Seq::empty(),
        },
        _ => Seq::empty(),
    }
}

/// Whether a line carries a warning of the delegate's.
pub open spec fn warns(line: CodexLine) -> bool {
    match line {
        CodexLine::ItemCompleted(Some(item)) => item.kind@ == "error"@ && (
        item.message matches Some(text) && !is_blank(text@)),
        _ => false,
    }
}

/// The message that a line with words or a warning adds.
pub open spec fn message(line: CodexLine) -> MessageModel {
    if replies(line) {
        MessageModel {
            role: Role::Assistant,
            text: reply(line),
            source: MessageSource::Delegate,
        }
    } else {
        MessageModel {
            role: Role::System,
            text: "delegate warning: "@ + (match line {
                CodexLine::ItemCompleted(Some(item)) => match item.message {
                    Some(text) => text@,
                    None => Seq::empty(),
                },
                _ => Seq::empty(),
            }),
            source: MessageSource::Synthetic,
        }
    }
}

/// The words of the delegate among some messages, in order.
pub open spec fn reports(messages: Seq<MessageModel>) -> Seq<Seq<char>> {
    messages.filter(
        |m: MessageModel| m.role == Role::Assistant && m.source == MessageSource::Delegate,
    ).map_values(|m: MessageModel| m.text)
}

proof fn lemma_kinds_differ()
    ensures
        "agent_message"@ != "error"@,
{
    reveal_strlit("agent_message");
    reveal_strlit("error");
    assert("agent_message"@.len() != "error"@.len());
}

proof fn lemma_goes_on(index: u32, question: Seq<char>, lines: Seq<CodexLine>)
    requires
        forall|i: int| 0 <= i < lines.len() ==> !ends(#[trigger] lines[i]),
    ensures
        codex_state(index, question, lines).turn.outcome is Running,
    decreases lines.len(),
{
    if lines.len() > 0 {
        let before = lines.drop_last();
        assert forall|i: int| 0 <= i < before.len() implies !ends(#[trigger] before[i]) by {
            assert(before[i] == lines[i]);
        }
        lemma_goes_on(index, question, before);
        assert(!ends(lines[lines.len() - 1]));
    }
}

/// The state of a stream is decided by what stands before its end, and by the line that ends it.
proof fn lemma_up_to_the_end(index: u32, question: Seq<char>, lines: Seq<CodexLine>, n: int)
    requires
        ends_at(lines, n),
    ensures
        codex_state(index, question, lines.take(n)).turn.outcome is Running,
        n == lines.len() ==> codex_state(index, question, lines) == codex_state(
            index,
            question,
            lines.take(n),
        ),
        n < lines.len() ==> codex_state(index, question, lines) == codex_step(
            codex_state(index, question, lines.take(n)),
            lines[n],
        ),
{
    let some = lines.take(n);
    assert forall|i: int| 0 <= i < some.len() implies !ends(#[trigger] some[i]) by {
        assert(some[i] == lines[i]);
    }
    lemma_goes_on(index, question, some);
    if n < lines.len() {
        let more = lines.take(n + 1);
        assert(more.drop_last() =~= some);
        assert(more.last() == lines[n]);
        nothing_follows_the_end(index, question, lines, n + 1);
    } else {
        assert(some =~= lines);
    }
}

proof fn lemma_messages(index: u32, question: Seq<char>, lines: Seq<CodexLine>)
    requires
        forall|i: int| 0 <= i < lines.len() ==> !ends(#[trigger] lines[i]),
    ensures
        codex_state(index, question, lines).turn.messages == lines.filter(
            |line: CodexLine| replies(line) || warns(line),
        ).map_values(|line: CodexLine| message(line)),
        reports(codex_state(index, question, lines).turn.messages) == lines.filter(
            |line: CodexLine| replies(line),
        ).map_values(|line: CodexLine| reply(line)),
    decreases lines.len(),
{
    reveal(Seq::filter);
    lemma_kinds_differ();
    if lines.len() > 0 {
        let before = lines.drop_last();
        assert forall|i: int| 0 <= i < before.len() implies !ends(#[trigger] before[i]) by {
            assert(before[i] == lines[i]);
        }
        lemma_messages(index, question, before);
        lemma_goes_on(index, question, before);
        let line = lines.last();
        let speaks = |line: CodexLine| replies(line) || warns(line);
        let was = codex_state(index, question, before).turn.messages;
        let now = codex_state(index, question, lines).turn.messages;
        let told = before.filter(|line: CodexLine| replies(line)).map_values(
            |line: CodexLine| reply(line),
        );
        if replies(line) || warns(line) {
            assert(now == was.push(message(line)));
            assert(now.drop_last() =~= was);
            assert(now.last() == message(line));
            assert(before.filter(speaks).push(line).map_values(|line: CodexLine| message(line))
                =~= before.filter(speaks).map_values(|line: CodexLine| message(line)).push(
                message(line),
            ));
            if replies(line) {
                assert(lines.filter(|line: CodexLine| replies(line)).map_values(
                    |line: CodexLine| reply(line),
                ) =~= told.push(reply(line)));
                assert(reports(now) =~= reports(was).push(reply(line)));
            } else {
                assert(reports(now) =~= reports(was));
            }
        } else {
            assert(now == was);
        }
    } else {
        assert(codex_state(index, question, lines).turn.messages =~= Seq::empty());
        assert(lines.filter(|line: CodexLine| replies(line) || warns(line)).map_values(
            |line: CodexLine| message(line),
        ) =~= Seq::empty());
        assert(reports(Seq::empty()) =~= Seq::empty());
        assert(lines.filter(|line: CodexLine| replies(line)).map_values(
            |line: CodexLine| reply(line),
        ) =~= Seq::empty());
    }
}

/// Every message of a run comes back: the words of the delegate in a folded turn are exactly the
/// texts of the `agent_message` items before the turn ends that are not blank, each once and in
/// order, and between them stand its warnings and nothing else.
pub proof fn every_reply_is_kept(index: u32, question: Seq<char>, lines: Seq<CodexLine>, n: int)
    requires
        ends_at(lines, n),
    ensures
        reports(codex_state(index, question, lines).turn.messages) == lines.take(n).filter(
            |line: CodexLine| replies(line),
        ).map_values(|line: CodexLine| reply(line)),
        codex_state(index, question, lines).turn.messages == lines.take(n).filter(
            |line: CodexLine| replies(line) || warns(line),
        ).map_values(|line: CodexLine| message(line)),
{
    let some = lines.take(n);
    assert forall|i: int| 0 <= i < some.len() implies !ends(#[trigger] some[i]) by {
        assert(some[i] == lines[i]);
    }
    lemma_up_to_the_end(index, question, lines, n);
    lemma_messages(index, question, some);
}

/// One more reply is one more message, whatever was said before it.
pub proof fn one_more_reply_is_one_more_message(
    index: u32,
    question: Seq<char>,
    lines: Seq<CodexLine>,
    line: CodexLine,
)
    requires
        forall|i: int| 0 <= i < lines.len() ==> !ends(#[trigger] lines[i]),
        replies(line),
    ensures
        codex_state(index, question, lines.push(line)).turn.messages == codex_state(
            index,
            question,
            lines,
        ).turn.messages.push(
            MessageModel {
                role: Role::Assistant,
                text: reply(line),
                source: MessageSource::Delegate,
            },
        ),
{
    lemma_kinds_differ();
    lemma_goes_on(index, question, lines);
    assert(lines.push(line).drop_last() =~= lines);
}

/// A turn ends as its stream says: it runs on while no line ends it, and otherwise the first that
/// does decides, with the accounting or the words that it carries.
pub proof fn a_turn_ends_as_its_stream_says(
    index: u32,
    question: Seq<char>,
    lines: Seq<CodexLine>,
    n: int,
)
    requires
        ends_at(lines, n),
    ensures
        ({
            let outcome = codex_state(index, question, lines).turn.outcome;
            if n == lines.len() {
                outcome == OutcomeModel::Running
            } else {
                match lines[n] {
                    CodexLine::TurnCompleted(Some(None)) => outcome matches OutcomeModel::Completed {
                        usage,
                        cost_usd,
                    } && cost_usd is None && usage.input_tokens is None
                        && usage.cached_input_tokens is None && usage.cache_write_input_tokens
                        is None && usage.output_tokens is None && usage.reasoning_output_tokens
                        is None,
                    CodexLine::TurnCompleted(Some(Some(told))) => outcome
                        matches OutcomeModel::Completed { usage, cost_usd } && cost_usd is None
                        && usage.input_tokens == told.input_tokens && usage.cached_input_tokens
                        == told.cached_input_tokens && usage.cache_write_input_tokens
                        == told.cache_write_input_tokens && usage.output_tokens
                        == told.output_tokens && usage.reasoning_output_tokens
                        == told.reasoning_output_tokens,
                    CodexLine::Error(Some(words)) | CodexLine::TurnFailed(Some(words)) => outcome
                        == (OutcomeModel::Failed {
                        kind: classification(words@),
                        detail: words@,
                    }),
                    _ => outcome matches OutcomeModel::Failed { detail, .. } && detail
                        == "delegate reported an error"@,
                }
            }
        }),
        codex_state(index, question, lines).turn.index == index,
        codex_state(index, question, lines).turn.question == question,
{
    lemma_up_to_the_end(index, question, lines, n);
    crate::stream::codex::lemma_same_question(index, question, lines);
}

/// Whether a line announces a session that can be resumed.
pub open spec fn announces(line: CodexLine) -> bool {
    match line {
        CodexLine::ThreadStarted(Some(id)) => token_fault(
            id@,
            SessionRef::MAX_LEN as nat,
            Alphabet::Session,
        ) is None,
        _ => false,
    }
}

proof fn lemma_session(index: u32, question: Seq<char>, lines: Seq<CodexLine>)
    requires
        forall|i: int| 0 <= i < lines.len() ==> !ends(#[trigger] lines[i]),
    ensures
        forall|i: int|
            0 <= i < lines.len() && #[trigger] announces(lines[i]) && (forall|j: int|
                i < j < lines.len() ==> !announces(#[trigger] lines[j])) ==> (
            lines[i] matches CodexLine::ThreadStarted(Some(id)) && codex_state(
                index,
                question,
                lines,
            ).session == Some(id@)),
        (forall|i: int| 0 <= i < lines.len() ==> !announces(#[trigger] lines[i])) ==> codex_state(
            index,
            question,
            lines,
        ).session is None,
    decreases lines.len(),
{
    if lines.len() > 0 {
        let before = lines.drop_last();
        assert forall|i: int| 0 <= i < before.len() implies !ends(#[trigger] before[i]) by {
            assert(before[i] == lines[i]);
        }
        lemma_session(index, question, before);
        lemma_goes_on(index, question, before);
        let last = lines.len() - 1;
        assert(lines[last] == lines.last());
        assert forall|i: int|
            0 <= i < lines.len() && #[trigger] announces(lines[i]) && (forall|j: int|
                i < j < lines.len() ==> !announces(#[trigger] lines[j])) implies (
        lines[i] matches CodexLine::ThreadStarted(Some(id)) && codex_state(
            index,
            question,
            lines,
        ).session == Some(id@)) by {
            if i < last {
                assert(before[i] == lines[i]);
                assert(!announces(lines[last]));
                assert forall|j: int| i < j < before.len() implies !announces(
                    #[trigger] before[j],
                ) by {
                    assert(before[j] == lines[j]);
                }
                assert(announces(before[i]));
            }
        }
        if forall|i: int| 0 <= i < lines.len() ==> !announces(#[trigger] lines[i]) {
            assert(!announces(lines[last]));
            assert forall|i: int| 0 <= i < before.len() implies !announces(#[trigger] before[i]) by {
                assert(before[i] == lines[i]);
            }
        }
    }
}

/// The session of a stream is the last one it announces before its end: that is the one a follow-up
/// continues.
pub proof fn the_last_announced_session_is_kept(
    index: u32,
    question: Seq<char>,
    lines: Seq<CodexLine>,
    n: int,
    at: int,
)
    requires
        ends_at(lines, n),
        -1 <= at < n,
        at >= 0 ==> announces(lines[at]),
        forall|j: int| at < j < n ==> !announces(#[trigger] lines[j]),
    ensures
        at < 0 ==> codex_state(index, question, lines).session is None,
        at >= 0 ==> (lines[at] matches CodexLine::ThreadStarted(Some(id)) && codex_state(
            index,
            question,
            lines,
        ).session == Some(id@)),
{
    let some = lines.take(n);
    assert forall|i: int| 0 <= i < some.len() implies !ends(#[trigger] some[i]) by {
        assert(some[i] == lines[i]);
    }
    lemma_up_to_the_end(index, question, lines, n);
    lemma_session(index, question, some);
    assert forall|j: int| at < j < some.len() implies !announces(#[trigger] some[j]) by {
        assert(some[j] == lines[j]);
    }
    if at >= 0 {
        assert(some[at] == lines[at]);
        assert(announces(some[at]));
    }
}

/// What a line is counted as, where it is not understood.
pub open spec fn unknown(line: CodexLine) -> Option<Seq<char>> {
    match line {
        CodexLine::Malformed => Some("<malformed-json-line>"@),
        CodexLine::ItemCompleted(None) => Some("item.completed.<unparsable>"@),
        CodexLine::ItemCompleted(Some(item)) => if item.kind@ == "agent_message"@ {
            if item.text is None {
                Some("item.completed.agent_message.text"@)
            } else {
                None
            }
        } else if item.kind@ == "command_execution"@ || item.kind@ == "mcp_tool_call"@
            || item.kind@ == "web_search"@ || item.kind@ == "error"@ {
            None
        } else {
            Some("item.completed."@ + item.kind@)
        },
        CodexLine::TurnCompleted(None) => Some("turn.completed.<unparsable>"@),
        CodexLine::Other(kind) => Some(kind@),
        _ => None,
    }
}

proof fn lemma_tally(index: u32, question: Seq<char>, lines: Seq<CodexLine>, kind: Seq<char>)
    requires
        forall|i: int| 0 <= i < lines.len() ==> !ends(#[trigger] lines[i]),
        lines.len() <= u32::MAX,
    ensures
        walkable(codex_state(index, question, lines).turn.unrecognised),
        tally_total(codex_state(index, question, lines).turn.unrecognised) <= lines.len(),
        tally_count(codex_state(index, question, lines).turn.unrecognised, kind) == lines.filter(
            |line: CodexLine| unknown(line) == Some(kind),
        ).len(),
    decreases lines.len(),
{
    reveal(Seq::filter);
    lemma_kinds_differ();
    if lines.len() > 0 {
        let before = lines.drop_last();
        assert forall|i: int| 0 <= i < before.len() implies !ends(#[trigger] before[i]) by {
            assert(before[i] == lines[i]);
        }
        lemma_tally(index, question, before, kind);
        lemma_goes_on(index, question, before);
        let line = lines.last();
        assert(!ends(lines[lines.len() - 1]));
        let was = codex_state(index, question, before).turn.unrecognised;
        match unknown(line) {
            Some(k) => {
                assert(codex_state(index, question, lines).turn.unrecognised == tally_record(
                    was,
                    k,
                ));
                lemma_count_within_total(was, k);
                lemma_record_counts(was, k);
            },
            None => {
                assert(codex_state(index, question, lines).turn.unrecognised == was);
            },
        }
    } else {
        lemma_total_empty();
    }
}

/// Drift is loud: of every type, a turn counts exactly the lines before its end that were not
/// understood as that type.
pub proof fn what_is_not_understood_is_counted(
    index: u32,
    question: Seq<char>,
    lines: Seq<CodexLine>,
    n: int,
    kind: Seq<char>,
)
    requires
        ends_at(lines, n),
        lines.len() <= u32::MAX,
    ensures
        tally_count(codex_state(index, question, lines).turn.unrecognised, kind) == lines.take(
            n,
        ).filter(|line: CodexLine| unknown(line) == Some(kind)).len(),
{
    let some = lines.take(n);
    assert forall|i: int| 0 <= i < some.len() implies !ends(#[trigger] some[i]) by {
        assert(some[i] == lines[i]);
    }
    lemma_up_to_the_end(index, question, lines, n);
    lemma_tally(index, question, some, kind);
}

/// An event is read as what its type says it is, and as nothing else.
pub proof fn an_event_is_read_as_its_type_says(kind: Seq<char>)
    ensures
        shape_of(kind) == CodexShape::ThreadStarted <==> kind == "thread.started"@,
        shape_of(kind) == CodexShape::ItemCompleted <==> kind == "item.completed"@,
        shape_of(kind) == CodexShape::TurnCompleted <==> kind == "turn.completed"@,
        shape_of(kind) == CodexShape::Error <==> kind == "error"@,
        shape_of(kind) == CodexShape::TurnFailed <==> kind == "turn.failed"@,
        shape_of(kind) == CodexShape::Progress <==> kind == "turn.started"@ || kind
            == "item.started"@ || kind == "item.updated"@,
{
    reveal_strlit("thread.started");
    reveal_strlit("turn.started");
    reveal_strlit("item.started");
    reveal_strlit("item.updated");
    reveal_strlit("item.completed");
    reveal_strlit("turn.completed");
    reveal_strlit("error");
    reveal_strlit("turn.failed");
    assert("thread.started"@.len() == 14 && "thread.started"@[1] == 'h');
    assert("turn.started"@.len() == 12);
    assert("item.started"@.len() == 12);
    assert("item.updated"@.len() == 12);
    assert("item.completed"@.len() == 14 && "item.completed"@[1] == 't');
    assert("turn.completed"@.len() == 14 && "turn.completed"@[1] == 'u');
    assert("error"@.len() == 5);
    assert("turn.failed"@.len() == 11);
}

} // verus!
