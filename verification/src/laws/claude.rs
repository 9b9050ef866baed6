//! What a stream of Anthropic's CLI comes to.

use vstd::prelude::*;

use crate::delegate::{token_fault, Alphabet, SessionRef};
use crate::laws::transcript::{stands_at, stands_somewhere};
use crate::stream::claude::{
    assistant_message, block_texts, block_unknown, claude_state, claude_step,
    content_calls_a_tool, content_texts, lemma_same_question, names_hook,
    nothing_follows_the_end, reopening_is_marked, shape_of, spoken, user_message, ClaudeLine,
    ClaudeShape, ClaudeState, Content, ContentBlock, DelegateActivity, MessageEvent,
};
use crate::stream::{classification, lemma_newline_at, newline_at};
use crate::text::{is_blank, lowercase, occurs, occurs_at};
use crate::transcript::{
    reopened, tally_record, FailureKind, MessageModel, MessageSource, OutcomeModel, Role,
};

verus! {

/// Whether a line ends the turn.
pub open spec fn ends(line: ClaudeLine) -> bool {
    line matches ClaudeLine::Result(Some(_))
}

/// Whether a place is where the turn ends: at the first line that ends it, or behind the last.
pub open spec fn ends_at(lines: Seq<ClaudeLine>, n: int) -> bool {
    &&& 0 <= n <= lines.len()
    &&& n < lines.len() ==> ends(lines[n])
    &&& forall|i: int| 0 <= i < n ==> !ends(#[trigger] lines[i])
}

/// The prose of a message: its text, or the texts of its text blocks in order, without the blank
/// ones.
pub open spec fn prose(content: Content) -> Seq<Seq<char>> {
    (match content {
        Content::Text(text) => seq![text@],
        Content::Blocks(blocks) => blocks@.filter(
            |block: ContentBlock| block.kind@ == "text"@ && block.text is Some,
        ).map_values(|block: ContentBlock| block.text->Some_0@),
    }).filter(|text: Seq<char>| !is_blank(text))
}

/// What a line adds to the words of one side: the delegate's, or what is said to it.
/// What a subagent says is not part of the conversation.
pub open spec fn words(line: ClaudeLine, role: Role) -> Seq<Seq<char>> {
    match (line, role) {
        (ClaudeLine::Assistant(Some(event)), Role::Assistant) => if event.parent_tool_use_id
            is None {
            prose(event.content)
        } else {
            Seq::empty()
        },
        (ClaudeLine::User(Some(event)), Role::User) => if event.parent_tool_use_id is None {
            prose(event.content)
        } else {
            Seq::empty()
        },
        _ => Seq::empty(),
    }
}

/// The words of one side over some lines, in order.
pub open spec fn told(lines: Seq<ClaudeLine>, role: Role) -> Seq<Seq<char>>
    decreases lines.len(),
{
    if lines.len() == 0 {
        Seq::empty()
    } else {
        told(lines.drop_last(), role) + words(lines.last(), role)
    }
}

/// The texts of one side among some messages, in order.
pub open spec fn texts_by(messages: Seq<MessageModel>, role: Role) -> Seq<Seq<char>> {
    messages.filter(|m: MessageModel| m.role == role).map_values(|m: MessageModel| m.text)
}

proof fn lemma_filter_append<A>(a: Seq<A>, b: Seq<A>, keep: spec_fn(A) -> bool)
    ensures
        (a + b).filter(keep) == a.filter(keep) + b.filter(keep),
    decreases b.len(),
{
    reveal(Seq::filter);
    if b.len() == 0 {
        assert(a + b =~= a);
        assert(a.filter(keep) + b.filter(keep) =~= a.filter(keep));
    } else {
        assert((a + b).drop_last() =~= a + b.drop_last());
        lemma_filter_append(a, b.drop_last(), keep);
        assert((a + b).filter(keep) =~= a.filter(keep) + b.filter(keep));
    }
}

proof fn lemma_filter_all<A>(a: Seq<A>, keep: spec_fn(A) -> bool, all: bool)
    requires
        forall|i: int| 0 <= i < a.len() ==> keep(#[trigger] a[i]) == all,
    ensures
        all ==> a.filter(keep) == a,
        !all ==> a.filter(keep) == Seq::<A>::empty(),
    decreases a.len(),
{
    reveal(Seq::filter);
    if a.len() > 0 {
        let init = a.drop_last();
        assert forall|i: int| 0 <= i < init.len() implies keep(#[trigger] init[i]) == all by {
            assert(init[i] == a[i]);
        }
        lemma_filter_all(init, keep, all);
        assert(keep(a[a.len() - 1]) == all);
        if all {
            assert(a.filter(keep) =~= a);
        }
    } else {
        assert(a.filter(keep) =~= a);
    }
}

proof fn lemma_blocks(blocks: Seq<ContentBlock>)
    ensures
        block_texts(blocks) == blocks.filter(
            |block: ContentBlock| block.kind@ == "text"@ && block.text is Some,
        ).map_values(|block: ContentBlock| block.text->Some_0@),
    decreases blocks.len(),
{
    reveal(Seq::filter);
    let kind = |block: ContentBlock| block.kind@ == "text"@ && block.text is Some;
    let text = |block: ContentBlock| block.text->Some_0@;
    if blocks.len() > 0 {
        lemma_blocks(blocks.drop_last());
    }
    assert(block_texts(blocks) =~= blocks.filter(kind).map_values(text));
}

proof fn lemma_spoken(list: Seq<Seq<char>>, message: spec_fn(Seq<char>) -> MessageModel)
    ensures
        spoken(list, message) == list.filter(|text: Seq<char>| !is_blank(text)).map_values(message),
    decreases list.len(),
{
    reveal(Seq::filter);
    if list.len() > 0 {
        lemma_spoken(list.drop_last(), message);
    }
    assert(spoken(list, message) =~= list.filter(|text: Seq<char>| !is_blank(text)).map_values(
        message,
    ));
}

/// The messages that prose becomes are its texts, each under the same heading.
proof fn lemma_prose(content: Content, message: spec_fn(Seq<char>) -> MessageModel)
    ensures
        spoken(content_texts(content), message) == prose(content).map_values(message),
{
    match content {
        Content::Text(text) => {},
        Content::Blocks(blocks) => {
            lemma_blocks(blocks@);
        },
    }
    lemma_spoken(content_texts(content), message);
}

proof fn lemma_texts_append(a: Seq<MessageModel>, b: Seq<MessageModel>, role: Role)
    ensures
        texts_by(a + b, role) == texts_by(a, role) + texts_by(b, role),
{
    lemma_filter_append(a, b, |m: MessageModel| m.role == role);
    assert(texts_by(a + b, role) =~= texts_by(a, role) + texts_by(b, role));
}

proof fn lemma_texts_same(a: Seq<MessageModel>, of: Role, role: Role)
    requires
        forall|i: int| 0 <= i < a.len() ==> (#[trigger] a[i]).role == of,
    ensures
        of == role ==> texts_by(a, role) == a.map_values(|m: MessageModel| m.text),
        of != role ==> texts_by(a, role) == Seq::<Seq<char>>::empty(),
{
    lemma_filter_all(a, |m: MessageModel| m.role == role, of == role);
    if of != role {
        assert(texts_by(a, role) =~= Seq::empty());
    }
}

proof fn lemma_goes_on(index: u32, question: Seq<char>, lines: Seq<ClaudeLine>)
    requires
        forall|i: int| 0 <= i < lines.len() ==> !ends(#[trigger] lines[i]),
    ensures
        claude_state(index, question, lines).turn.outcome is Running,
    decreases lines.len(),
{
    if lines.len() > 0 {
        let before = lines.drop_last();
        assert forall|i: int| 0 <= i < before.len() implies !ends(#[trigger] before[i]) by {
            assert(before[i] == lines[i]);
        }
        lemma_goes_on(index, question, before);
        assert(!ends(lines[lines.len() - 1]));
    }
}

proof fn lemma_up_to_the_end(index: u32, question: Seq<char>, lines: Seq<ClaudeLine>, n: int)
    requires
        ends_at(lines, n),
    ensures
        claude_state(index, question, lines.take(n)).turn.outcome is Running,
        n == lines.len() ==> claude_state(index, question, lines) == claude_state(
            index,
            question,
            lines.take(n),
        ),
        n < lines.len() ==> claude_state(index, question, lines) == claude_step(
            claude_state(index, question, lines.take(n)),
            lines[n],
        ),
        claude_state(index, question, lines).session == claude_state(
            index,
            question,
            lines.take(n),
        ).session,
{
    let some = lines.take(n);
    assert forall|i: int| 0 <= i < some.len() implies !ends(#[trigger] some[i]) by {
        assert(some[i] == lines[i]);
    }
    lemma_goes_on(index, question, some);
    if n < lines.len() {
        let more = lines.take(n + 1);
        assert(more.drop_last() =~= some);
        assert(more.last() == lines[n]);
        nothing_follows_the_end(index, question, lines, n + 1);
    } else {
        assert(some =~= lines);
    }
}

/// What one line adds to the messages, in its words.
proof fn lemma_line(state: ClaudeState, line: ClaudeLine)
    requires
        !ends(line),
    ensures
        ({
            let was = state.turn.messages;
            let now = claude_step(state, line).turn.messages;
            &&& was.len() <= now.len()
            &&& now.take(was.len() as int) == was
            &&& texts_by(now, Role::Assistant) == texts_by(was, Role::Assistant) + words(
                line,
                Role::Assistant,
            )
            &&& texts_by(now, Role::User) == texts_by(was, Role::User) + words(line, Role::User)
        }),
{
    let was = state.turn.messages;
    let now = claude_step(state, line).turn.messages;
    match line {
        ClaudeLine::Assistant(Some(event)) if event.parent_tool_use_id is None => {
            let f = |text: Seq<char>| assistant_message(text);
            let added = prose(event.content).map_values(f);
            lemma_prose(event.content, f);
            assert(now == was + added);
            lemma_texts_append(was, added, Role::Assistant);
            lemma_texts_append(was, added, Role::User);
            lemma_texts_same(added, Role::Assistant, Role::Assistant);
            lemma_texts_same(added, Role::Assistant, Role::User);
            assert(added.map_values(|m: MessageModel| m.text) =~= prose(event.content));
        },
        ClaudeLine::User(Some(event)) if event.parent_tool_use_id is None => {
            let activity = state.activity;
            let f = |text: Seq<char>| user_message(text, state.activity);
            let added = prose(event.content).map_values(f);
            lemma_prose(event.content, f);
            assert(now == was + added);
            lemma_texts_append(was, added, Role::Assistant);
            lemma_texts_append(was, added, Role::User);
            lemma_texts_same(added, Role::User, Role::Assistant);
            lemma_texts_same(added, Role::User, Role::User);
            assert(added.map_values(|m: MessageModel| m.text) =~= prose(event.content));
        },
        ClaudeLine::RateLimit(Some(info)) => {
            if now != was {
                let added = seq![now.last()];
                assert(now =~= was + added);
                lemma_texts_append(was, added, Role::Assistant);
                lemma_texts_append(was, added, Role::User);
                lemma_texts_same(added, Role::System, Role::Assistant);
                lemma_texts_same(added, Role::System, Role::User);
            }
        },
        _ => {
            assert(now == was);
        },
    }
    assert(now.take(was.len() as int) =~= was);
    assert(texts_by(now, Role::Assistant) =~= texts_by(was, Role::Assistant) + words(
        line,
        Role::Assistant,
    ));
    assert(texts_by(now, Role::User) =~= texts_by(was, Role::User) + words(line, Role::User));
}

proof fn lemma_told(index: u32, question: Seq<char>, lines: Seq<ClaudeLine>)
    requires
        forall|i: int| 0 <= i < lines.len() ==> !ends(#[trigger] lines[i]),
    ensures
        ({
            let messages = claude_state(index, question, lines).turn.messages;
            &&& texts_by(messages, Role::Assistant) == told(lines, Role::Assistant)
            &&& texts_by(messages, Role::User) == told(lines, Role::User)
        }),
    decreases lines.len(),
{
    reveal(Seq::filter);
    if lines.len() > 0 {
        let before = lines.drop_last();
        assert forall|i: int| 0 <= i < before.len() implies !ends(#[trigger] before[i]) by {
            assert(before[i] == lines[i]);
        }
        assert(!ends(lines[lines.len() - 1]));
        lemma_told(index, question, before);
        lemma_goes_on(index, question, before);
        lemma_line(claude_state(index, question, before), lines.last());
    } else {
        let messages = claude_state(index, question, lines).turn.messages;
        assert(messages =~= Seq::empty());
        assert(texts_by(messages, Role::Assistant) =~= Seq::empty());
        assert(texts_by(messages, Role::User) =~= Seq::empty());
    }
}

/// Every message of a run comes back: the words of the delegate in a folded turn are exactly the
/// prose of its messages before the turn ends, text by text and in order, and so are the words
/// that were put to it.
/// The text of the closing event is no message.
pub proof fn every_reply_is_kept(index: u32, question: Seq<char>, lines: Seq<ClaudeLine>, n: int)
    requires
        ends_at(lines, n),
    ensures
        ({
            let messages = claude_state(index, question, lines).turn.messages;
            &&& texts_by(messages, Role::Assistant) == told(lines.take(n), Role::Assistant)
            &&& texts_by(messages, Role::User) == told(lines.take(n), Role::User)
        }),
{
    let some = lines.take(n);
    assert forall|i: int| 0 <= i < some.len() implies !ends(#[trigger] some[i]) by {
        assert(some[i] == lines[i]);
    }
    lemma_up_to_the_end(index, question, lines, n);
    lemma_told(index, question, some);
}

/// What a subagent says or is told changes nothing in the conversation.
pub proof fn a_subagent_is_not_the_delegate(
    index: u32,
    question: Seq<char>,
    lines: Seq<ClaudeLine>,
    event: MessageEvent,
)
    requires
        event.parent_tool_use_id is Some,
    ensures
        claude_state(index, question, lines.push(ClaudeLine::Assistant(Some(event))))
            == claude_state(index, question, lines),
        claude_state(index, question, lines.push(ClaudeLine::User(Some(event)))) == claude_state(
            index,
            question,
            lines,
        ),
{
    assert(lines.push(ClaudeLine::Assistant(Some(event))).drop_last() =~= lines);
    assert(lines.push(ClaudeLine::User(Some(event))).drop_last() =~= lines);
}

/// Whether a line is a message of the delegate itself.
pub open spec fn is_own(line: ClaudeLine) -> bool {
    line matches ClaudeLine::Assistant(Some(event)) && event.parent_tool_use_id is None
}

/// Whether a line is a message of the delegate that calls a tool.
pub open spec fn calls(line: ClaudeLine) -> bool {
    line matches ClaudeLine::Assistant(Some(event)) && (
    event.content matches Content::Blocks(blocks) && exists|i: int|
        0 <= i < blocks@.len() && (#[trigger] blocks@[i]).kind@ == "tool_use"@)
}

/// The delegate is taken to have finished exactly where its latest message called no tool.
proof fn lemma_activity(index: u32, question: Seq<char>, lines: Seq<ClaudeLine>)
    requires
        forall|i: int| 0 <= i < lines.len() ==> !ends(#[trigger] lines[i]),
    ensures
        (forall|i: int| 0 <= i < lines.len() ==> !is_own(#[trigger] lines[i])) ==> claude_state(
            index,
            question,
            lines,
        ).activity == DelegateActivity::Silent,
        forall|i: int|
            0 <= i < lines.len() && #[trigger] is_own(lines[i]) && (forall|j: int|
                i < j < lines.len() ==> !is_own(#[trigger] lines[j])) ==> claude_state(
                index,
                question,
                lines,
            ).activity == if calls(lines[i]) {
                DelegateActivity::CallingATool
            } else {
                DelegateActivity::Finished
            },
    decreases lines.len(),
{
    if lines.len() > 0 {
        let before = lines.drop_last();
        let last = lines.len() - 1;
        assert forall|i: int| 0 <= i < before.len() implies !ends(#[trigger] before[i]) by {
            assert(before[i] == lines[i]);
        }
        assert(!ends(lines[last]));
        lemma_activity(index, question, before);
        lemma_goes_on(index, question, before);
        if is_own(lines[last]) {
            match lines[last] {
                ClaudeLine::Assistant(Some(event)) => {
                    assert(content_calls_a_tool(event.content) == calls(lines[last]));
                },
                _ => {},
            }
        } else {
            assert(claude_state(index, question, lines).activity == claude_state(
                index,
                question,
                before,
            ).activity);
            if forall|i: int| 0 <= i < lines.len() ==> !is_own(#[trigger] lines[i]) {
                assert forall|i: int| 0 <= i < before.len() implies !is_own(
                    #[trigger] before[i],
                ) by {
                    assert(before[i] == lines[i]);
                }
            }
            assert forall|i: int|
                0 <= i < lines.len() && #[trigger] is_own(lines[i]) && (forall|j: int|
                    i < j < lines.len() ==> !is_own(#[trigger] lines[j])) implies claude_state(
                index,
                question,
                lines,
            ).activity == if calls(lines[i]) {
                DelegateActivity::CallingATool
            } else {
                DelegateActivity::Finished
            } by {
                assert(before[i] == lines[i]);
                assert(is_own(before[i]));
                assert forall|j: int| i < j < before.len() implies !is_own(#[trigger] before[j]) by {
                    assert(before[j] == lines[j]);
                }
            }
        }
    }
}

/// What is said to a delegate that had finished reopens its turn, and what is said to one that is
/// calling a tool is context: the delegate's latest message decides, not the wording.
pub proof fn what_is_said_to_a_delegate(
    index: u32,
    question: Seq<char>,
    lines: Seq<ClaudeLine>,
    event: MessageEvent,
    i: int,
)
    requires
        forall|i: int| 0 <= i < lines.len() ==> !ends(#[trigger] lines[i]),
        event.parent_tool_use_id is None,
        0 <= i < lines.len(),
        is_own(lines[i]),
        forall|j: int| i < j < lines.len() ==> !is_own(#[trigger] lines[j]),
    ensures
        ({
            let was = claude_state(index, question, lines).turn.messages;
            let line = ClaudeLine::User(Some(event));
            let now = claude_state(index, question, lines.push(line)).turn.messages;
            &&& now.len() == was.len() + prose(event.content).len()
            &&& forall|k: int|
                was.len() <= k < now.len() ==> #[trigger] now[k] == (MessageModel {
                    role: Role::User,
                    text: prose(event.content)[k - was.len()],
                    source: if calls(lines[i]) {
                        MessageSource::HookContext
                    } else {
                        MessageSource::HookInjection
                    },
                })
        }),
{
    lemma_activity(index, question, lines);
    lemma_goes_on(index, question, lines);
    let state = claude_state(index, question, lines);
    let line = ClaudeLine::User(Some(event));
    let f = |text: Seq<char>| user_message(text, state.activity);
    lemma_prose(event.content, f);
    assert(lines.push(line).drop_last() =~= lines);
}

/// Whether a line announces a session that can be resumed.
pub open spec fn announces(line: ClaudeLine) -> bool {
    line matches ClaudeLine::System(Some(event)) && (event.subtype matches Some(subtype) && subtype@
        == "init"@) && (event.session_id matches Some(id) && token_fault(
        id@,
        SessionRef::MAX_LEN as nat,
        Alphabet::Session,
    ) is None)
}

/// The session that a line announces.
pub open spec fn session_in(line: ClaudeLine) -> Seq<char> {
    match line {
        ClaudeLine::System(Some(event)) => event.session_id->Some_0@,
        _ => Seq::empty(),
    }
}

proof fn lemma_session(index: u32, question: Seq<char>, lines: Seq<ClaudeLine>)
    requires
        forall|i: int| 0 <= i < lines.len() ==> !ends(#[trigger] lines[i]),
    ensures
        (forall|i: int| 0 <= i < lines.len() ==> !announces(#[trigger] lines[i])) ==> claude_state(
            index,
            question,
            lines,
        ).session is None,
        forall|i: int|
            0 <= i < lines.len() && #[trigger] announces(lines[i]) && (forall|j: int|
                i < j < lines.len() ==> !announces(#[trigger] lines[j])) ==> claude_state(
                index,
                question,
                lines,
            ).session == Some(session_in(lines[i])),
    decreases lines.len(),
{
    reveal_strlit("init");
    if lines.len() > 0 {
        let before = lines.drop_last();
        let last = lines.len() - 1;
        assert forall|i: int| 0 <= i < before.len() implies !ends(#[trigger] before[i]) by {
            assert(before[i] == lines[i]);
        }
        assert(!ends(lines[last]));
        lemma_session(index, question, before);
        lemma_goes_on(index, question, before);
        if !announces(lines[last]) {
            assert(claude_state(index, question, lines).session == claude_state(
                index,
                question,
                before,
            ).session);
            if forall|i: int| 0 <= i < lines.len() ==> !announces(#[trigger] lines[i]) {
                assert forall|i: int| 0 <= i < before.len() implies !announces(
                    #[trigger] before[i],
                ) by {
                    assert(before[i] == lines[i]);
                }
            }
            assert forall|i: int|
                0 <= i < lines.len() && #[trigger] announces(lines[i]) && (forall|j: int|
                    i < j < lines.len() ==> !announces(#[trigger] lines[j])) implies claude_state(
                index,
                question,
                lines,
            ).session == Some(session_in(lines[i])) by {
                assert(before[i] == lines[i]);
                assert(announces(before[i]));
                assert forall|j: int| i < j < before.len() implies !announces(
                    #[trigger] before[j],
                ) by {
                    assert(before[j] == lines[j]);
                }
            }
        }
    }
}

/// The session that a follow-up resumes is the last one that the stream announced before it ended,
/// and there is none only where it announced none.
pub proof fn the_last_announced_session_is_kept(
    index: u32,
    question: Seq<char>,
    lines: Seq<ClaudeLine>,
    n: int,
)
    requires
        ends_at(lines, n),
    ensures
        (forall|i: int| 0 <= i < n ==> !announces(#[trigger] lines[i])) ==> claude_state(
            index,
            question,
            lines,
        ).session is None,
        forall|i: int|
            0 <= i < n && #[trigger] announces(lines[i]) && (forall|j: int|
                i < j < n ==> !announces(#[trigger] lines[j])) ==> claude_state(
                index,
                question,
                lines,
            ).session == Some(session_in(lines[i])),
{
    let some = lines.take(n);
    assert forall|i: int| 0 <= i < some.len() implies !ends(#[trigger] some[i]) by {
        assert(some[i] == lines[i]);
    }
    lemma_up_to_the_end(index, question, lines, n);
    lemma_session(index, question, some);
    let kept = claude_state(index, question, lines).session;
    assert(kept == claude_state(index, question, some).session);
    lemma_session_of_some(lines, n, kept);
}

/// What holds of the lines before the end holds of them as part of all lines.
proof fn lemma_session_of_some(lines: Seq<ClaudeLine>, n: int, kept: Option<Seq<char>>)
    requires
        0 <= n <= lines.len(),
        (forall|i: int| 0 <= i < n ==> !announces(#[trigger] lines.take(n)[i])) ==> kept is None,
        forall|i: int|
            0 <= i < n && #[trigger] announces(lines.take(n)[i]) && (forall|j: int|
                i < j < n ==> !announces(#[trigger] lines.take(n)[j])) ==> kept == Some(
                session_in(lines.take(n)[i]),
            ),
    ensures
        (forall|i: int| 0 <= i < n ==> !announces(#[trigger] lines[i])) ==> kept is None,
        forall|i: int|
            0 <= i < n && #[trigger] announces(lines[i]) && (forall|j: int|
                i < j < n ==> !announces(#[trigger] lines[j])) ==> kept == Some(
                session_in(lines[i]),
            ),
{
    assert forall|i: int|
        0 <= i < n && #[trigger] announces(lines[i]) && (forall|j: int|
            i < j < n ==> !announces(#[trigger] lines[j])) implies kept == Some(
        session_in(lines[i]),
    ) by {
        assert(announces(lines.take(n)[i]));
        assert forall|j: int| i < j < n implies !announces(#[trigger] lines.take(n)[j]) by {
            assert(!announces(lines[j]));
        }
    }
    if forall|i: int| 0 <= i < n ==> !announces(#[trigger] lines[i]) {
        assert forall|i: int| 0 <= i < n implies !announces(#[trigger] lines.take(n)[i]) by {
            assert(!announces(lines[i]));
        }
    }
}

/// A turn ends as its stream says: it runs on while no line ends it, and otherwise the first that
/// does decides.
/// What is billed is what the closing event says, heading by heading; a failure is told in its
/// words, unless those are the words of a reopened turn.
pub proof fn a_turn_ends_as_its_stream_says(
    index: u32,
    question: Seq<char>,
    lines: Seq<ClaudeLine>,
    n: int,
)
    requires
        ends_at(lines, n),
    ensures
        ({
            let turn = claude_state(index, question, lines).turn;
            if n == lines.len() {
                turn.outcome == OutcomeModel::Running
            } else {
                match lines[n] {
                    ClaudeLine::Result(Some(event)) => if !event.is_error {
                        turn.outcome matches OutcomeModel::Completed { usage, cost_usd } && {
                            &&& match event.usage {
                                Some(told) => {
                                    &&& usage.input_tokens == told.input_tokens
                                    &&& usage.output_tokens == told.output_tokens
                                    &&& usage.cached_input_tokens == told.cache_read_input_tokens
                                    &&& usage.cache_write_input_tokens
                                        == told.cache_creation_input_tokens
                                    &&& usage.reasoning_output_tokens == told.thinking_tokens
                                },
                                None => {
                                    &&& usage.input_tokens is None
                                    &&& usage.output_tokens is None
                                    &&& usage.cached_input_tokens is None
                                    &&& usage.cache_write_input_tokens is None
                                    &&& usage.reasoning_output_tokens is None
                                },
                            }
                            &&& cost_usd is Some == event.total_cost_usd is Some
                            &&& event.total_cost_usd matches Some(cost) ==> cost_usd == Some(cost@)
                        }
                    } else {
                        turn.outcome matches OutcomeModel::Failed { kind, detail } && {
                            &&& event.api_error_status == Some(404i64) ==> kind
                                == FailureKind::ModelUnavailable
                            &&& event.api_error_status == Some(429i64) ==> kind
                                == FailureKind::RateLimited
                            &&& event.api_error_status == Some(402i64) ==> kind
                                == FailureKind::BudgetExceeded
                            &&& event.api_error_status is None && event.terminal_reason is None
                                && event.result is None ==> detail == "delegate reported an error"@
                            &&& event.api_error_status is None && event.terminal_reason is None && (
                            event.result matches Some(words) && words@.len() > 0)
                                && !reopened(turn.messages) ==> detail
                                == event.result->Some_0@ && kind == classification(detail)
                        }
                    },
                    _ => false,
                }
            }
        }),
        claude_state(index, question, lines).turn.index == index,
        claude_state(index, question, lines).turn.question == question,
{
    lemma_up_to_the_end(index, question, lines, n);
    lemma_same_question(index, question, lines);
    let some = lines.take(n);
    assert forall|i: int| 0 <= i < some.len() implies !ends(#[trigger] some[i]) by {
        assert(some[i] == lines[i]);
    }
    reopening_is_marked(index, question, some);
    reveal_strlit("max_turns");
    reveal_strlit("turn_limit");
    reveal_strlit("refusal");
    assert("max_turns"@.len() == 9 && "turn_limit"@.len() == 10 && "refusal"@.len() == 7);
    assert(Seq::<char>::empty().len() == 0);
}

/// Whether a line names the model that ran.
pub open spec fn names_a_model(line: ClaudeLine) -> bool {
    line matches ClaudeLine::Assistant(Some(event)) && event.parent_tool_use_id is None
        && event.model is Some
}

/// The model that ran is the one that the delegate's first message names.
pub proof fn the_model_is_the_first_one_named(
    index: u32,
    question: Seq<char>,
    lines: Seq<ClaudeLine>,
    i: int,
)
    requires
        forall|i: int| 0 <= i < lines.len() ==> !ends(#[trigger] lines[i]),
        0 <= i <= lines.len(),
        i < lines.len() ==> names_a_model(lines[i]),
        forall|j: int| 0 <= j < i ==> !names_a_model(#[trigger] lines[j]),
    ensures
        match claude_state(index, question, lines).turn.resolved_model {
            Some(model) => i < lines.len() && (lines[i] matches ClaudeLine::Assistant(Some(event))
                && event.model->Some_0@ == model),
            None => i == lines.len(),
        },
    decreases lines.len(),
{
    if lines.len() > 0 {
        let before = lines.drop_last();
        let last = lines.len() - 1;
        assert forall|k: int| 0 <= k < before.len() implies !ends(#[trigger] before[k]) by {
            assert(before[k] == lines[k]);
        }
        assert(!ends(lines[last]));
        lemma_goes_on(index, question, before);
        let at = if i <= last {
            i
        } else {
            last
        };
        assert forall|j: int| 0 <= j < at implies !names_a_model(#[trigger] before[j]) by {
            assert(before[j] == lines[j]);
        }
        if at < before.len() {
            assert(before[at] == lines[at]);
        }
        the_model_is_the_first_one_named(index, question, before, at);
        if i == lines.len() {
            assert(!names_a_model(lines[last]));
        }
    }
}

/// The window that a stream discloses is kept whatever its status, and only a refusal is told of in
/// a message, in the words of the status.
pub proof fn a_refusal_is_told(
    index: u32,
    question: Seq<char>,
    lines: Seq<ClaudeLine>,
    line: ClaudeLine,
)
    requires
        forall|i: int| 0 <= i < lines.len() ==> !ends(#[trigger] lines[i]),
        line matches ClaudeLine::RateLimit(Some(_)),
    ensures
        ({
            let info = line->RateLimit_0->Some_0;
            let was = claude_state(index, question, lines).turn;
            let now = claude_state(index, question, lines.push(line)).turn;
            &&& info.status is None || info.status->Some_0@ == "allowed"@ ==> now.messages
                == was.messages
            &&& info.status is Some && info.status->Some_0@ != "allowed"@ ==> {
                &&& now.messages.len() == was.messages.len() + 1
                &&& now.messages.drop_last() == was.messages
                &&& now.messages.last().role == Role::System
                &&& now.messages.last().source == MessageSource::Synthetic
                &&& ("delegate rate limit status: "@ + info.status->Some_0@).is_prefix_of(
                    now.messages.last().text,
                )
            }
            &&& info.resets_at is None ==> now.rate_limit == was.rate_limit
            &&& info.resets_at matches Some(seconds) ==> now.rate_limit == was.rate_limit || (
            now.rate_limit matches Some(limit) && limit.resets_at.seconds == seconds
                && limit.resets_at.nanos == 0)
            &&& info.resets_at matches Some(seconds) ==> 0 <= seconds <= 253402300799 ==> (
            now.rate_limit matches Some(limit) && limit.resets_at.seconds == seconds
                && limit.window is Some == info.rate_limit_type is Some && (
            info.rate_limit_type matches Some(name) ==> limit.window == Some(name@)))
        }),
{
    lemma_goes_on(index, question, lines);
    assert(lines.push(line).drop_last() =~= lines);
    let now = claude_state(index, question, lines.push(line)).turn;
    let was = claude_state(index, question, lines).turn;
    let info = line->RateLimit_0->Some_0;
    if info.status is Some && info.status->Some_0@ != "allowed"@ {
        assert(now.messages.drop_last() =~= was.messages);
        let head = "delegate rate limit status: "@ + info.status->Some_0@;
        assert(now.messages.last().text.take(head.len() as int) =~= head);
    }
}

/// An event is read as what its type says it is, and as nothing else.
pub proof fn an_event_is_read_as_its_type_says(kind: Seq<char>)
    ensures
        shape_of(kind) == ClaudeShape::System <==> kind == "system"@,
        shape_of(kind) == ClaudeShape::Assistant <==> kind == "assistant"@,
        shape_of(kind) == ClaudeShape::User <==> kind == "user"@,
        shape_of(kind) == ClaudeShape::RateLimit <==> kind == "rate_limit_event"@,
        shape_of(kind) == ClaudeShape::Result <==> kind == "result"@,
{
    reveal_strlit("system");
    reveal_strlit("assistant");
    reveal_strlit("user");
    reveal_strlit("rate_limit_event");
    reveal_strlit("result");
    assert("system"@.len() == 6 && "system"@[0] == 's');
    assert("assistant"@.len() == 9);
    assert("user"@.len() == 4);
    assert("rate_limit_event"@.len() == 16);
    assert("result"@.len() == 6 && "result"@[0] == 'r');
}

/// Whether a system event is one that is known.
pub open spec fn is_familiar(subtype: Seq<char>) -> bool {
    subtype == "init"@ || subtype == "thinking_tokens"@ || subtype == "notification"@ || subtype
        == "hook_started"@ || subtype == "hook_response"@
}

/// Whether a block carries nothing that is to be told.
pub open spec fn is_quiet(kind: Seq<char>) -> bool {
    kind == "tool_use"@ || kind == "tool_result"@ || kind == "thinking"@ || kind == "image"@
}

/// What is not understood in a message: every block that is neither prose nor known to carry none,
/// and every block of prose without its text.
pub proof fn every_strange_block_is_counted(blocks: Seq<ContentBlock>)
    ensures
        block_unknown(blocks) == blocks.filter(
            |block: ContentBlock|
                if block.kind@ == "text"@ {
                    block.text is None
                } else {
                    !is_quiet(block.kind@)
                },
        ).map_values(
            |block: ContentBlock|
                if block.kind@ == "text"@ {
                    "text.<missing>"@
                } else {
                    block.kind@
                },
        ),
    decreases blocks.len(),
{
    reveal(Seq::filter);
    if blocks.len() > 0 {
        every_strange_block_is_counted(blocks.drop_last());
    }
    assert(block_unknown(blocks) =~= blocks.filter(
        |block: ContentBlock|
            if block.kind@ == "text"@ {
                block.text is None
            } else {
                !is_quiet(block.kind@)
            },
    ).map_values(
        |block: ContentBlock|
            if block.kind@ == "text"@ {
                "text.<missing>"@
            } else {
                block.kind@
            },
    ));
}

/// A line that is not understood is counted once under what it is called, and one that is
/// understood is not counted.
pub proof fn a_strange_line_is_counted(
    index: u32,
    question: Seq<char>,
    lines: Seq<ClaudeLine>,
    line: ClaudeLine,
)
    requires
        forall|i: int| 0 <= i < lines.len() ==> !ends(#[trigger] lines[i]),
    ensures
        ({
            let was = claude_state(index, question, lines).turn.unrecognised;
            let now = claude_state(index, question, lines.push(line)).turn.unrecognised;
            match line {
                ClaudeLine::Malformed => now == tally_record(was, "<malformed-json-line>"@),
                ClaudeLine::Other(kind) => now == tally_record(was, kind@),
                ClaudeLine::System(None) => now == tally_record(was, "system.<unparsable>"@),
                ClaudeLine::Assistant(None) => now == tally_record(was, "assistant.<unparsable>"@),
                ClaudeLine::User(None) => now == tally_record(was, "user.<unparsable>"@),
                ClaudeLine::RateLimit(None) => now == tally_record(
                    was,
                    "rate_limit_event.<unparsable>"@,
                ),
                ClaudeLine::Result(None) => now == tally_record(was, "result.<unparsable>"@),
                ClaudeLine::System(Some(event)) => {
                    let name = if event.subtype is Some {
                        event.subtype->Some_0@
                    } else {
                        Seq::<char>::empty()
                    };
                    now == if is_familiar(name) {
                        was
                    } else {
                        tally_record(was, "system."@ + name)
                    }
                },
                ClaudeLine::RateLimit(Some(_)) => now == was,
                ClaudeLine::Result(Some(_)) => now == was,
                _ => true,
            }
        }),
{
    lemma_goes_on(index, question, lines);
    assert(lines.push(line).drop_last() =~= lines);
}

/// Before the delegate has spoken, what is said to it is its prompt, unless it is worded as a
/// hook's; it never counts as a reopening.
pub proof fn what_is_said_before_the_delegate_spoke(
    index: u32,
    question: Seq<char>,
    lines: Seq<ClaudeLine>,
    event: MessageEvent,
)
    requires
        forall|i: int| 0 <= i < lines.len() ==> !ends(#[trigger] lines[i]),
        event.parent_tool_use_id is None,
        forall|j: int| 0 <= j < lines.len() ==> !is_own(#[trigger] lines[j]),
    ensures
        ({
            let was = claude_state(index, question, lines).turn.messages;
            let line = ClaudeLine::User(Some(event));
            let now = claude_state(index, question, lines.push(line)).turn.messages;
            &&& now.len() == was.len() + prose(event.content).len()
            &&& forall|k: int|
                was.len() <= k < now.len() ==> #[trigger] now[k] == (MessageModel {
                    role: Role::User,
                    text: prose(event.content)[k - was.len()],
                    source: if names_hook(prose(event.content)[k - was.len()]) {
                        MessageSource::HookContext
                    } else {
                        MessageSource::Delegate
                    },
                })
        }),
{
    lemma_activity(index, question, lines);
    lemma_goes_on(index, question, lines);
    let state = claude_state(index, question, lines);
    let line = ClaudeLine::User(Some(event));
    let f = |text: Seq<char>| user_message(text, state.activity);
    lemma_prose(event.content, f);
    assert(lines.push(line).drop_last() =~= lines);
}

/// No newline stands before the first one.
proof fn lemma_first_newline(s: Seq<char>, j: int)
    requires
        0 <= j < s.len(),
        s[j] == '\n',
    ensures
        newline_at(s) <= j,
    decreases s.len(),
{
    if j > 0 {
        assert(s.drop_first()[j - 1] == '\n');
        lemma_first_newline(s.drop_first(), j - 1);
    }
}

/// A hook is recognised by its wording on the first line, in whichever case it is written; what
/// stands on later lines does not count.
pub proof fn a_hook_is_named_on_the_first_line(first: Seq<char>, rest: Seq<char>)
    requires
        !first.contains('\n'),
    ensures
        names_hook(first) <==> stands_somewhere(lowercase(first), "hook feedback:"@),
        names_hook(first + seq!['\n'] + rest) <==> names_hook(first),
{
    let needle = "hook feedback:"@;
    let whole = first + seq!['\n'] + rest;
    lemma_newline_at(first);
    lemma_newline_at(whole);
    let n = newline_at(first);
    if n < first.len() {
        assert(first[n] == '\n');
    }
    assert(first.take(n) =~= first);
    let m = newline_at(whole);
    if m < first.len() {
        assert(whole[m] == first[m]);
        assert(first.contains(first[m]));
    }
    lemma_first_newline(whole, first.len() as int);
    assert(whole.take(m) =~= first);
    let low = lowercase(first);
    if occurs(low, needle) {
        let i = choose|i: int| occurs_at(low, needle, i);
        assert(stands_at(low, needle, i));
    }
    if stands_somewhere(low, needle) {
        let i = choose|i: int| stands_at(low, needle, i);
        assert(occurs_at(low, needle, i));
    }
}

} // verus!
