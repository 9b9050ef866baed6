//! What a reader finds in a transcript.

use vstd::prelude::*;

use crate::laws::render::{lemma_deep, lemma_joined};
use crate::laws::text::{is_body_of, only_white_space_is_cut_from_the_end};
use crate::ordered::{in_order, lemma_entry, map_of, walkable};
use crate::text::{decimal, joined, one_line, trimmed_end};
use crate::transcript::{
    accounting_parts, accounting_text, all_messages, count_part, drift_text, earlier_failure_of,
    failure_label, first_failure, last_reply, last_report, message_text, messages_text,
    newest_outcome, outcome_text, plus_count, plus_usage, recovered_text, reopened, spoke,
    tally_count, tally_entry, tally_merge, tally_over, tally_record, tally_summary, tally_total, turn_head,
    turn_number, turn_reply, turn_text, usage_over, CostModel, MessageModel, MessageSource,
    OutcomeModel, Role, TurnModel, Usage,
};

verus! {

/// Whether a text stands in another one at a place.
pub open spec fn stands_at(whole: Seq<char>, part: Seq<char>, at: int) -> bool {
    &&& 0 <= at
    &&& at + part.len() <= whole.len()
    &&& whole.subrange(at, at + part.len()) == part
}

/// Whether a text is how the words of a message are shown: what the delegate said as it said it,
/// and what came from elsewhere on one line.
pub open spec fn shows(part: Seq<char>, message: MessageModel) -> bool {
    if message.source == MessageSource::Delegate {
        is_body_of(part, message.text)
    } else {
        part == one_line(message.text)
    }
}

/// What stands directly in front of the words of a message, given whether a hook reopened the turn
/// before it.
pub open spec fn announced(message: MessageModel, after: bool) -> Seq<char> {
    match (message.source, message.role) {
        (MessageSource::Delegate, Role::User) => "### user\n\n"@,
        (MessageSource::Delegate, Role::System) => "### system\n\n"@,
        (MessageSource::Delegate, Role::Assistant) => if after {
            "### assistant (after hook reopen — not the answer)\n\n"@
        } else {
            "### assistant\n\n"@
        },
        (MessageSource::HookInjection, _) => "reopened this finished turn.**\n> Everything below is the reopened turn, not the answer. The answer is above.\n>\n> Injected text: "@,
        (MessageSource::HookContext, _) => "added context while the delegate was working.\n>\n> Injected text: "@,
        (MessageSource::Synthetic, _) => "> [!NOTE]\n> "@,
    }
}

/// Whether a hook reopened the turn before a message.
pub open spec fn follows_a_reopening(messages: Seq<MessageModel>, i: int) -> bool {
    exists|j: int|
        0 <= j < i && (#[trigger] messages[j]).source == MessageSource::HookInjection
}

/// Whether the words of every message stand in a text, one behind the other, each with what
/// announces it directly in front.
pub open spec fn tells_all(
    whole: Seq<char>,
    messages: Seq<MessageModel>,
    parts: Seq<Seq<char>>,
    at: Seq<int>,
) -> bool {
    &&& parts.len() == messages.len()
    &&& at.len() == messages.len()
    &&& forall|i: int|
        0 <= i < messages.len() ==> {
            &&& shows(#[trigger] parts[i], messages[i])
            &&& stands_at(whole, parts[i], at[i])
            &&& ({
                let head = announced(messages[i], follows_a_reopening(messages, i));
                stands_at(whole, head, at[i] - head.len())
            })
        }
    &&& forall|i: int, j: int|
        0 <= i < j < messages.len() ==> (#[trigger] at[i]) + parts[i].len() <= #[trigger] at[j]
}

/// Where a turn stands, counting from one as far as an index goes.
pub open spec fn counted_from_one(index: u32) -> nat {
    if index < u32::MAX {
        (index + 1) as nat
    } else {
        u32::MAX as nat
    }
}

/// Nothing that was said is lost, altered or put in another order: the words of every message of a
/// turn stand in its text as they were said, up to white space at their end, in the order of the
/// messages, and behind the question.
pub proof fn every_message_is_told_verbatim(turn: TurnModel)
    ensures
        exists|parts: Seq<Seq<char>>, at: Seq<int>, asked: Seq<char>, first: int|
            {
                &&& #[trigger] tells_all(turn_text(turn), turn.messages, parts, at)
                &&& is_body_of(asked, turn.question)
                &&& #[trigger] stands_at(turn_text(turn), asked, first)
                &&& forall|i: int|
                    0 <= i < at.len() ==> first + asked.len() <= #[trigger] at[i]
            },
{
    let whole = turn_text(turn);
    let head = turn_head(turn.index, turn.question);
    let body = head + messages_text(turn.messages);
    let parts = parts_of(turn.messages);
    let inner = places(turn.messages);
    let at = inner.map_values(|n: int| n + head.len());
    lemma_told(turn.messages);
    only_white_space_is_cut_from_the_end(turn.question);
    let asked = trimmed_end(turn.question);
    let first = ("\n## Turn "@ + decimal(counted_from_one(turn.index)) + " — question\n\n"@).len() as int;
    reveal_strlit("\n");
    assert(whole.subrange(0, head.len() as int) =~= head);
    assert(whole.subrange(head.len() as int, body.len() as int) =~= messages_text(turn.messages));
    assert(stands_at(head, asked, first)) by {
        assert(head.subrange(first, first + asked.len()) =~= asked);
    }
    lemma_inside(whole, head, Seq::empty(), asked, first);
    assert forall|i: int| 0 <= i < turn.messages.len() implies {
        &&& shows(#[trigger] parts[i], turn.messages[i])
        &&& stands_at(whole, parts[i], at[i])
        &&& ({
            let over = announced(turn.messages[i], follows_a_reopening(turn.messages, i));
            stands_at(whole, over, at[i] - over.len())
        })
    } by {
        let over = announced(turn.messages[i], follows_a_reopening(turn.messages, i));
        lemma_inside(whole, messages_text(turn.messages), head, parts[i], inner[i]);
        lemma_inside(whole, messages_text(turn.messages), head, over, inner[i] - over.len());
    }
    assert(tells_all(whole, turn.messages, parts, at));
    assert(stands_at(whole, asked, first));
}

/// What stands in a part of a text stands in the text.
proof fn lemma_inside(
    whole: Seq<char>,
    part: Seq<char>,
    before: Seq<char>,
    inner: Seq<char>,
    at: int,
)
    requires
        stands_at(part, inner, at),
        before.len() + part.len() <= whole.len(),
        whole.subrange(before.len() as int, (before.len() + part.len()) as int) == part,
    ensures
        stands_at(whole, inner, at + before.len()),
{
    let start = at + before.len();
    assert(whole.subrange(start, start + inner.len()) =~= whole.subrange(
        before.len() as int,
        (before.len() + part.len()) as int,
    ).subrange(at, at + inner.len()));
}

/// How the words of one message are shown.
spec fn part_of(message: MessageModel) -> Seq<char> {
    if message.source == MessageSource::Delegate {
        trimmed_end(message.text)
    } else {
        one_line(message.text)
    }
}

spec fn parts_of(messages: Seq<MessageModel>) -> Seq<Seq<char>> {
    messages.map_values(|m: MessageModel| part_of(m))
}

/// Where the words of each message stand in the text of all of them.
spec fn places(messages: Seq<MessageModel>) -> Seq<int>
    decreases messages.len(),
{
    if messages.len() == 0 {
        Seq::empty()
    } else {
        places(messages.drop_last()).push(
            messages_text(messages).len() - 1 - part_of(messages.last()).len(),
        )
    }
}

proof fn lemma_told(messages: Seq<MessageModel>)
    ensures
        tells_all(messages_text(messages), messages, parts_of(messages), places(messages)),
        forall|i: int|
            0 <= i < messages.len() ==> 0 <= #[trigger] places(messages)[i] && places(messages)[i]
                + parts_of(messages)[i].len() <= messages_text(messages).len(),
    decreases messages.len(),
{
    if messages.len() > 0 {
        let init = messages.drop_last();
        let last = messages.last();
        lemma_told(init);
        let whole = messages_text(messages);
        let before = messages_text(init);
        let one = message_text(last, reopened(init));
        let n = init.len() as int;
        assert(reopened(init) == follows_a_reopening(messages, n)) by {
            if reopened(init) {
                let j = choose|j: int|
                    0 <= j < init.len() && (#[trigger] init[j]).source
                        == MessageSource::HookInjection;
                assert(messages[j].source == MessageSource::HookInjection);
            }
            if follows_a_reopening(messages, n) {
                let j = choose|j: int|
                    0 <= j < n && (#[trigger] messages[j]).source == MessageSource::HookInjection;
                assert(init[j].source == MessageSource::HookInjection);
            }
        }
        lemma_one(last, reopened(init));
        assert(whole.subrange(0, before.len() as int) =~= before);
        assert(whole.subrange(before.len() as int, (before.len() + one.len()) as int) =~= one);
        let parts = parts_of(messages);
        let at = places(messages);
        let over_last = announced(last, reopened(init));
        let spot = one.len() - 1 - part_of(last).len();
        lemma_inside(whole, one, before, part_of(last), spot);
        lemma_inside(whole, one, before, over_last, spot - over_last.len());
        assert forall|i: int| 0 <= i < messages.len() implies {
            &&& shows(#[trigger] parts[i], messages[i])
            &&& stands_at(whole, parts[i], at[i])
            &&& ({
                let over = announced(messages[i], follows_a_reopening(messages, i));
                stands_at(whole, over, at[i] - over.len())
            })
        } by {
            if i < n {
                assert(parts[i] == parts_of(init)[i]);
                assert(at[i] == places(init)[i]);
                assert(messages[i] == init[i]);
                assert(follows_a_reopening(messages, i) == follows_a_reopening(init, i)) by {
                    if follows_a_reopening(messages, i) {
                        let j = choose|j: int|
                            0 <= j < i && (#[trigger] messages[j]).source
                                == MessageSource::HookInjection;
                        assert(init[j].source == MessageSource::HookInjection);
                    }
                    if follows_a_reopening(init, i) {
                        let j = choose|j: int|
                            0 <= j < i && (#[trigger] init[j]).source
                                == MessageSource::HookInjection;
                        assert(messages[j].source == MessageSource::HookInjection);
                    }
                }
                let over = announced(init[i], follows_a_reopening(init, i));
                lemma_inside(whole, before, Seq::empty(), parts[i], at[i]);
                lemma_inside(whole, before, Seq::empty(), over, at[i] - over.len());
            }
        }
        assert forall|i: int, j: int| 0 <= i < j < messages.len() implies (#[trigger] at[i])
            + parts[i].len() <= #[trigger] at[j] by {
            assert(at[i] == places(init)[i]);
            assert(parts[i] == parts_of(init)[i]);
            if j < n {
                assert(at[j] == places(init)[j]);
            }
        }
        assert forall|i: int| 0 <= i < messages.len() implies 0 <= #[trigger] at[i] && at[i]
            + parts[i].len() <= whole.len() by {
            assert(shows(parts[i], messages[i]));
        }
    }
}

/// One message ends in its words and a line break, with what announces it in front of them.
proof fn lemma_one(message: MessageModel, after: bool)
    ensures
        shows(part_of(message), message),
        ({
            let one = message_text(message, after);
            let over = announced(message, after);
            let spot = one.len() - 1 - part_of(message).len();
            &&& stands_at(one, part_of(message), spot)
            &&& stands_at(one, over, spot - over.len())
        }),
{
    only_white_space_is_cut_from_the_end(message.text);
    reveal_strlit("\n");
    let one = message_text(message, after);
    let part = part_of(message);
    let spot = one.len() - 1 - part.len();
    let over = announced(message, after);
    let lead: Seq<char> = match message.source {
        MessageSource::Delegate => match message.role {
            Role::User => {
                reveal_strlit("\n### ");
                reveal_strlit("user");
                reveal_strlit("\n\n");
                reveal_strlit("### user\n\n");
                "\n### "@ + "user"@ + "\n\n"@
            },
            Role::System => {
                reveal_strlit("\n### ");
                reveal_strlit("system");
                reveal_strlit("\n\n");
                reveal_strlit("### system\n\n");
                "\n### "@ + "system"@ + "\n\n"@
            },
            Role::Assistant => if after {
                reveal_strlit("\n### ");
                reveal_strlit("assistant (after hook reopen — not the answer)");
                reveal_strlit("\n\n");
                reveal_strlit("### assistant (after hook reopen — not the answer)\n\n");
                "\n### "@ + "assistant (after hook reopen — not the answer)"@ + "\n\n"@
            } else {
                reveal_strlit("\n### ");
                reveal_strlit("assistant");
                reveal_strlit("\n\n");
                reveal_strlit("### assistant\n\n");
                "\n### "@ + "assistant"@ + "\n\n"@
            },
        },
        MessageSource::HookInjection => {
            reveal_strlit(
                "\n> [!WARNING]\n> **A hook in the delegate's environment reopened this finished turn.**\n> Everything below is the reopened turn, not the answer. The answer is above.\n>\n> Injected text: ",
            );
            reveal_strlit(
                "reopened this finished turn.**\n> Everything below is the reopened turn, not the answer. The answer is above.\n>\n> Injected text: ",
            );
            "\n> [!WARNING]\n> **A hook in the delegate's environment reopened this finished turn.**\n> Everything below is the reopened turn, not the answer. The answer is above.\n>\n> Injected text: "@
        },
        MessageSource::HookContext => {
            reveal_strlit(
                "\n> [!NOTE]\n> A hook in the delegate's environment added context while the delegate was working.\n>\n> Injected text: ",
            );
            reveal_strlit(
                "added context while the delegate was working.\n>\n> Injected text: ",
            );
            "\n> [!NOTE]\n> A hook in the delegate's environment added context while the delegate was working.\n>\n> Injected text: "@
        },
        MessageSource::Synthetic => {
            reveal_strlit("\n> [!NOTE]\n> ");
            reveal_strlit("> [!NOTE]\n> ");
            "\n> [!NOTE]\n> "@
        },
    };
    assert(one =~= lead + part + "\n"@);
    assert(spot == lead.len());
    assert(one.subrange(spot, spot + part.len()) =~= part);
    assert(over.len() <= lead.len());
    assert(lead.subrange(lead.len() - over.len(), lead.len() as int) =~= over);
    assert(one.subrange(spot - over.len(), spot) =~= over);
}

/// A reply that came by another way than the stream is told verbatim too, once the turn is over,
/// behind everything that the stream carried.
pub proof fn a_recovered_reply_is_told_verbatim(turn: TurnModel, text: Seq<char>)
    requires
        turn.recovered == Some(text),
        turn.outcome != OutcomeModel::Running,
    ensures
        exists|part: Seq<char>, at: int|
            {
                &&& is_body_of(part, text)
                &&& #[trigger] stands_at(turn_text(turn), part, at)
                &&& at + part.len() + 1 == turn_text(turn).len()
                &&& at >= turn_text(TurnModel { recovered: None, ..turn }).len()
                &&& stands_at(
                    turn_text(turn),
                    "### assistant (recovered)\n\n"@,
                    at - "### assistant (recovered)\n\n"@.len(),
                )
            },
{
    only_white_space_is_cut_from_the_end(text);
    let whole = turn_text(turn);
    let part = trimmed_end(text);
    let at = whole.len() - 1 - part.len();
    let lead =
        "\n> [!NOTE]\n> The delegate's event stream carried no reply, so agentmux recovered the text below\n> from the file the CLI writes directly.\n> Anything the delegate said earlier in the turn is not in that file.\n\n### assistant (recovered)\n\n"@;
    reveal_strlit("\n");
    reveal_strlit("### assistant (recovered)\n\n");
    reveal_strlit(
        "\n> [!NOTE]\n> The delegate's event stream carried no reply, so agentmux recovered the text below\n> from the file the CLI writes directly.\n> Anything the delegate said earlier in the turn is not in that file.\n\n### assistant (recovered)\n\n",
    );
    let over = "### assistant (recovered)\n\n"@;
    let rest = turn_text(TurnModel { recovered: None, ..turn });
    assert(whole =~= rest + (lead + part + "\n"@));
    assert(whole.subrange(at, at + part.len()) =~= part);
    assert(lead.subrange(lead.len() - over.len(), lead.len() as int) =~= over);
    assert(whole.subrange(at - over.len(), at) =~= over);
    assert(stands_at(whole, part, at));
}

/// A turn that ended says so under its number: what failed and in whose words, that it was
/// cancelled, or that it is done.
/// One that is still running says nothing of an end.
pub proof fn a_turn_says_how_it_ended(turn: TurnModel)
    ensures
        ({
            let number = decimal(counted_from_one(turn.index));
            match turn.outcome {
                OutcomeModel::Running => turn_text(turn) == turn_text(
                    TurnModel { recovered: None, ..turn },
                ),
                OutcomeModel::Completed { .. } => stands_somewhere(
                    turn_text(turn),
                    "_Turn "@ + number + " completed"@,
                ),
                OutcomeModel::Failed { kind, detail } => stands_somewhere(
                    turn_text(turn),
                    "_Turn "@ + number + " failed: "@ + failure_label(kind) + " — "@ + one_line(detail)
                        + "_"@,
                ),
                OutcomeModel::Cancelled => stands_somewhere(
                    turn_text(turn),
                    "_Turn "@ + number + " cancelled."@,
                ),
            }
        }),
{
    let whole = turn_text(turn);
    let number = decimal(counted_from_one(turn.index));
    let body = turn_head(turn.index, turn.question) + messages_text(turn.messages);
    let end = outcome_text(turn.index, turn.outcome);
    let rest = drift_text(turn.unrecognised) + recovered_text(turn.recovered);
    let rule = "\n---\n\n"@;
    reveal_strlit("\n---\n\n_Turn ");
    reveal_strlit("\n---\n\n");
    reveal_strlit("_Turn ");
    assert("\n---\n\n_Turn "@ =~= rule + "_Turn "@);
    match turn.outcome {
        OutcomeModel::Running => {},
        OutcomeModel::Completed { usage, cost_usd } => {
            let part = "_Turn "@ + number + " completed"@;
            let tail = accounting_text(usage, cost_usd) + "_\n"@;
            assert(end =~= rule + part + tail);
            lemma_between(whole, body, rule, part, tail, rest);
        },
        OutcomeModel::Failed { kind, detail } => {
            let part = "_Turn "@ + number + " failed: "@ + failure_label(kind) + " — "@ + one_line(
                detail,
            ) + "_"@;
            let tail =
                "\n\nAnything the delegate said before the failure is above and is not affected by it.\n"@;
            reveal_strlit("_");
            reveal_strlit(
                "\n\nAnything the delegate said before the failure is above and is not affected by it.\n",
            );
            reveal_strlit(
                "_\n\nAnything the delegate said before the failure is above and is not affected by it.\n",
            );
            assert("_\n\nAnything the delegate said before the failure is above and is not affected by it.\n"@
                =~= "_"@ + tail);
            assert(end =~= rule + part + tail);
            lemma_between(whole, body, rule, part, tail, rest);
        },
        OutcomeModel::Cancelled => {
            let part = "_Turn "@ + number + " cancelled."@;
            let tail = " Everything collected before the cancellation is above._\n"@;
            reveal_strlit(" cancelled.");
            reveal_strlit(" Everything collected before the cancellation is above._\n");
            reveal_strlit(
                " cancelled. Everything collected before the cancellation is above._\n",
            );
            assert(" cancelled. Everything collected before the cancellation is above._\n"@
                =~= " cancelled."@ + tail);
            assert(end =~= rule + part + tail);
            lemma_between(whole, body, rule, part, tail, rest);
        },
    }
}

/// What stands between two texts stands in the whole.
proof fn lemma_between(
    whole: Seq<char>,
    body: Seq<char>,
    before: Seq<char>,
    part: Seq<char>,
    behind: Seq<char>,
    rest: Seq<char>,
)
    requires
        whole =~= body + (before + part + behind) + rest,
    ensures
        stands_somewhere(whole, part),
{
    let at = (body.len() + before.len()) as int;
    assert(whole.subrange(at, at + part.len()) =~= part);
    assert(stands_at(whole, part, at));
}

/// Whether a text stands in another one anywhere.
pub open spec fn stands_somewhere(whole: Seq<char>, part: Seq<char>) -> bool {
    exists|at: int| #[trigger] stands_at(whole, part, at)
}

/// Whether a message is a reply of the delegate.
pub open spec fn replies(message: MessageModel) -> bool {
    message.role == Role::Assistant && message.source == MessageSource::Delegate
}

/// Whether a text is the reply of a turn: its last message that is one, or, where none is, what
/// was recovered.
pub open spec fn is_reply_of(text: Seq<char>, turn: TurnModel) -> bool {
    ||| exists|i: int|
        {
            &&& 0 <= i < turn.messages.len()
            &&& replies(#[trigger] turn.messages[i])
            &&& turn.messages[i].text == text
            &&& forall|j: int| i < j < turn.messages.len() ==> !replies(#[trigger] turn.messages[j])
        }
    ||| turn.recovered == Some(text) && is_mute(turn)
}

/// Whether a stream carried no reply.
pub open spec fn is_mute(turn: TurnModel) -> bool {
    forall|j: int| 0 <= j < turn.messages.len() ==> !replies(#[trigger] turn.messages[j])
}

/// Whether a turn has no reply at all.
pub open spec fn is_silent(turn: TurnModel) -> bool {
    is_mute(turn) && turn.recovered is None
}

/// The answer of a consultation is the last reply of the newest turn that has one, and there is
/// none only where no turn has any.
pub proof fn the_answer_is_the_newest_reply(turns: Seq<TurnModel>)
    ensures
        match last_reply(turns) {
            Some(text) => exists|n: int|
                {
                    &&& 0 <= n < turns.len()
                    &&& is_reply_of(text, #[trigger] turns[n])
                    &&& forall|m: int| n < m < turns.len() ==> is_silent(#[trigger] turns[m])
                },
            None => forall|m: int| 0 <= m < turns.len() ==> is_silent(#[trigger] turns[m]),
        },
        spoke(turns) == (exists|m: int| 0 <= m < turns.len() && !is_silent(#[trigger] turns[m])),
    decreases turns.len(),
{
    assert forall|m: int| 0 <= m < turns.len() implies is_silent(#[trigger] turns[m]) == (turn_reply(
        turns[m],
    ) is None) by {
        lemma_reply(turns[m]);
    }
    if turns.len() > 0 {
        let last = turns.last();
        let init = turns.drop_last();
        lemma_reply(last);
        the_answer_is_the_newest_reply(init);
        assert(turns[turns.len() - 1] == last);
        if turn_reply(last) is None {
            match last_reply(init) {
                Some(text) => {
                    let n = choose|n: int|
                        {
                            &&& 0 <= n < init.len()
                            &&& is_reply_of(text, #[trigger] init[n])
                            &&& forall|m: int| n < m < init.len() ==> is_silent(#[trigger] init[m])
                        };
                    assert(is_reply_of(text, turns[n]));
                    assert forall|m: int| n < m < turns.len() implies is_silent(
                        #[trigger] turns[m],
                    ) by {
                        if m < init.len() {
                            assert(init[m] == turns[m]);
                        }
                    }
                },
                None => {
                    assert forall|m: int| 0 <= m < turns.len() implies is_silent(
                        #[trigger] turns[m],
                    ) by {
                        if m < init.len() {
                            assert(init[m] == turns[m]);
                        }
                    }
                },
            }
        }
    }
}

proof fn lemma_reply(turn: TurnModel)
    ensures
        match turn_reply(turn) {
            Some(text) => is_reply_of(text, turn) && !is_silent(turn),
            None => is_silent(turn),
        },
{
    lemma_report(turn.messages);
    match last_report(turn.messages) {
        Some(text) => {
            let i = choose|i: int|
                {
                    &&& 0 <= i < turn.messages.len()
                    &&& replies(#[trigger] turn.messages[i])
                    &&& turn.messages[i].text == text
                    &&& forall|j: int|
                        i < j < turn.messages.len() ==> !replies(#[trigger] turn.messages[j])
                };
            assert(replies(turn.messages[i]));
        },
        None => {},
    }
}

proof fn lemma_report(messages: Seq<MessageModel>)
    ensures
        match last_report(messages) {
            Some(text) => exists|i: int|
                {
                    &&& 0 <= i < messages.len()
                    &&& replies(#[trigger] messages[i])
                    &&& messages[i].text == text
                    &&& forall|j: int| i < j < messages.len() ==> !replies(#[trigger] messages[j])
                },
            None => forall|j: int| 0 <= j < messages.len() ==> !replies(#[trigger] messages[j]),
        },
    decreases messages.len(),
{
    if messages.len() > 0 {
        let last = messages.len() - 1;
        let init = messages.drop_last();
        if messages.last().is_report() {
            assert(replies(messages[last]));
        } else {
            lemma_report(init);
            match last_report(init) {
                Some(text) => {
                    let i = choose|i: int|
                        {
                            &&& 0 <= i < init.len()
                            &&& replies(#[trigger] init[i])
                            &&& init[i].text == text
                            &&& forall|j: int| i < j < init.len() ==> !replies(#[trigger] init[j])
                        };
                    assert(replies(messages[i]));
                    assert forall|j: int| i < j < messages.len() implies !replies(
                        #[trigger] messages[j],
                    ) by {
                        if j < last {
                            assert(init[j] == messages[j]);
                        }
                    }
                },
                None => {
                    assert forall|j: int| 0 <= j < messages.len() implies !replies(
                        #[trigger] messages[j],
                    ) by {
                        if j < last {
                            assert(init[j] == messages[j]);
                        }
                    }
                },
            }
        }
    }
}

/// Whether a turn failed.
pub open spec fn failed(turn: TurnModel) -> bool {
    turn.outcome is Failed
}

/// An earlier failure is never hidden by a newer turn: the first turn before the newest one that
/// failed is named, with what went wrong in it, and where none did nothing is.
pub proof fn an_earlier_failure_is_not_hidden(turns: Seq<TurnModel>)
    ensures
        match earlier_failure_of(turns) {
            Some((index, kind)) => exists|n: int|
                {
                    &&& 0 <= n < turns.len() - 1
                    &&& failed(#[trigger] turns[n])
                    &&& turns[n].index == index
                    &&& turns[n].outcome->kind == kind
                    &&& forall|m: int| 0 <= m < n ==> !failed(#[trigger] turns[m])
                },
            None => forall|m: int| 0 <= m < turns.len() - 1 ==> !failed(#[trigger] turns[m]),
        },
        newest_outcome(turns) == if turns.len() > 0 {
            turns[turns.len() - 1].outcome
        } else {
            OutcomeModel::Running
        },
{
    if turns.len() > 0 {
        let init = turns.drop_last();
        lemma_first_failure(init);
        match first_failure(init) {
            Some((index, kind)) => {
                let n = choose|n: int|
                    {
                        &&& 0 <= n < init.len()
                        &&& failed(#[trigger] init[n])
                        &&& init[n].index == index
                        &&& init[n].outcome->kind == kind
                        &&& forall|m: int| 0 <= m < n ==> !failed(#[trigger] init[m])
                    };
                assert(failed(turns[n]));
                assert forall|m: int| 0 <= m < n implies !failed(#[trigger] turns[m]) by {
                    assert(init[m] == turns[m]);
                }
            },
            None => {
                assert forall|m: int| 0 <= m < turns.len() - 1 implies !failed(
                    #[trigger] turns[m],
                ) by {
                    assert(init[m] == turns[m]);
                }
            },
        }
    }
}

proof fn lemma_first_failure(turns: Seq<TurnModel>)
    ensures
        match first_failure(turns) {
            Some((index, kind)) => exists|n: int|
                {
                    &&& 0 <= n < turns.len()
                    &&& failed(#[trigger] turns[n])
                    &&& turns[n].index == index
                    &&& turns[n].outcome->kind == kind
                    &&& forall|m: int| 0 <= m < n ==> !failed(#[trigger] turns[m])
                },
            None => forall|m: int| 0 <= m < turns.len() ==> !failed(#[trigger] turns[m]),
        },
    decreases turns.len(),
{
    if turns.len() > 0 {
        if failed(turns[0]) {
        } else {
            let rest = turns.drop_first();
            lemma_first_failure(rest);
            match first_failure(rest) {
                Some((index, kind)) => {
                    let n = choose|n: int|
                        {
                            &&& 0 <= n < rest.len()
                            &&& failed(#[trigger] rest[n])
                            &&& rest[n].index == index
                            &&& rest[n].outcome->kind == kind
                            &&& forall|m: int| 0 <= m < n ==> !failed(#[trigger] rest[m])
                        };
                    assert(failed(turns[n + 1]));
                    assert forall|m: int| 0 <= m < n + 1 implies !failed(#[trigger] turns[m]) by {
                        if m > 0 {
                            assert(rest[m - 1] == turns[m]);
                        }
                    }
                },
                None => {
                    assert forall|m: int| 0 <= m < turns.len() implies !failed(
                        #[trigger] turns[m],
                    ) by {
                        if m > 0 {
                            assert(rest[m - 1] == turns[m]);
                        }
                    }
                },
            }
        }
    }
}

/// The messages of a consultation are those of its turns, turn by turn, all of them.
pub proof fn the_messages_are_those_of_every_turn(turns: Seq<TurnModel>)
    ensures
        all_messages(turns) == turns.map_values(|t: TurnModel| t.messages).flatten(),
    decreases turns.len(),
{
    let lists = turns.map_values(|t: TurnModel| t.messages);
    lists.lemma_flatten_and_flatten_alt_are_equivalent();
    if turns.len() > 0 {
        let init = turns.drop_last();
        the_messages_are_those_of_every_turn(init);
        let before = init.map_values(|t: TurnModel| t.messages);
        before.lemma_flatten_and_flatten_alt_are_equivalent();
        assert(lists.drop_last() =~= before);
        assert(lists.last() == turns.last().messages);
    }
}

/// What the completed turns report under one heading of their accounting, added up.
pub open spec fn reported(turns: Seq<TurnModel>, of: spec_fn(Usage) -> Option<u64>) -> int
    decreases turns.len(),
{
    if turns.len() == 0 {
        0
    } else {
        reported(turns.drop_last(), of) + (match turns.last().outcome {
            OutcomeModel::Completed { usage, .. } => match of(usage) {
                Some(n) => n as int,
                None => 0,
            },
            _ => 0,
        })
    }
}

/// Whether a turn is completed and reports something under one heading.
pub open spec fn reports(turn: TurnModel, of: spec_fn(Usage) -> Option<u64>) -> bool {
    turn.outcome matches OutcomeModel::Completed { usage, .. } && of(usage) is Some
}

/// Whether a count is the sum over all turns, and there only where some turn reports one.
pub open spec fn is_total(
    total: Option<u64>,
    turns: Seq<TurnModel>,
    of: spec_fn(Usage) -> Option<u64>,
) -> bool {
    &&& total is Some == (exists|i: int| 0 <= i < turns.len() && reports(#[trigger] turns[i], of))
    &&& total matches Some(n) ==> n == if reported(turns, of) > u64::MAX {
        u64::MAX as int
    } else {
        reported(turns, of)
    }
    &&& 0 <= reported(turns, of)
    &&& total is None ==> reported(turns, of) == 0
}

/// The accounting of a consultation adds up what each completed turn reports, each kind of token
/// for itself.
pub proof fn the_accounting_adds_up(turns: Seq<TurnModel>)
    ensures
        is_total(usage_over(turns).input_tokens, turns, |u: Usage| u.input_tokens),
        is_total(usage_over(turns).cached_input_tokens, turns, |u: Usage| u.cached_input_tokens),
        is_total(
            usage_over(turns).cache_write_input_tokens,
            turns,
            |u: Usage| u.cache_write_input_tokens,
        ),
        is_total(usage_over(turns).output_tokens, turns, |u: Usage| u.output_tokens),
        is_total(
            usage_over(turns).reasoning_output_tokens,
            turns,
            |u: Usage| u.reasoning_output_tokens,
        ),
{
    lemma_total(turns, |u: Usage| u.input_tokens);
    lemma_total(turns, |u: Usage| u.cached_input_tokens);
    lemma_total(turns, |u: Usage| u.cache_write_input_tokens);
    lemma_total(turns, |u: Usage| u.output_tokens);
    lemma_total(turns, |u: Usage| u.reasoning_output_tokens);
}

proof fn lemma_total(turns: Seq<TurnModel>, of: spec_fn(Usage) -> Option<u64>)
    requires
        forall|a: Usage, b: Usage|
            of(#[trigger] plus_usage(a, b)) == plus_count(of(a), of(b)),
        of(usage_over(Seq::empty())) is None,
    ensures
        is_total(of(usage_over(turns)), turns, of),
    decreases turns.len(),
{
    if turns.len() == 0 {
        assert(turns =~= Seq::empty());
    } else {
        let init = turns.drop_last();
        let last = turns.last();
        lemma_total(init, of);
        if reports(last, of) {
            assert(reports(turns[turns.len() - 1], of));
        }
        if exists|i: int| 0 <= i < init.len() && reports(#[trigger] init[i], of) {
            let i = choose|i: int| 0 <= i < init.len() && reports(#[trigger] init[i], of);
            assert(reports(turns[i], of));
        }
        if exists|i: int| 0 <= i < turns.len() && reports(#[trigger] turns[i], of) {
            let i = choose|i: int| 0 <= i < turns.len() && reports(#[trigger] turns[i], of);
            if i < init.len() {
                assert(reports(init[i], of));
            }
        }
        match last.outcome {
            OutcomeModel::Completed { usage, .. } => {
                assert(usage_over(turns) == plus_usage(usage_over(init), usage));
            },
            _ => {},
        }
    }
}

/// A sighting counts once, for its own type and for no other.
pub proof fn a_sighting_counts_once(
    tally: Map<Seq<char>, u32>,
    kind: Seq<char>,
    other: Seq<char>,
)
    requires
        tally_count(tally, kind) < u32::MAX,
    ensures
        tally_count(tally_record(tally, kind), kind) == tally_count(tally, kind) + 1,
        other != kind ==> tally_count(tally_record(tally, kind), other) == tally_count(tally, other),
{
}

/// Two tallies added up count what both count.
pub proof fn tallies_add_up(
    a: Map<Seq<char>, u32>,
    b: Map<Seq<char>, u32>,
    kind: Seq<char>,
)
    requires
        tally_count(a, kind) + tally_count(b, kind) <= u32::MAX,
    ensures
        tally_count(tally_merge(a, b), kind) == tally_count(a, kind) + tally_count(b, kind),
        tally_merge(a, b).contains_key(kind) == (a.contains_key(kind) || b.contains_key(kind)),
{
}

/// What was not understood of a turn is told once it is over: each type of event, and how often it
/// came.
pub proof fn what_was_not_understood_is_told(turn: TurnModel, kind: Seq<char>)
    requires
        turn.outcome != OutcomeModel::Running,
        walkable(turn.unrecognised),
        turn.unrecognised.contains_key(kind),
    ensures
        stands_somewhere(
            turn_text(turn),
            kind + " x"@ + decimal(turn.unrecognised[kind] as nat),
        ),
{
    let tally = turn.unrecognised;
    let words = kind + " x"@ + decimal(tally[kind] as nat);
    let p = in_order(tally);
    assert(map_of(p).contains_key(kind));
    let i = choose|i: int| 0 <= i < p.len() && (#[trigger] p[i]).0 == kind;
    lemma_entry(p, i);
    let entries = p.map_values(|entry: (Seq<char>, u32)| tally_entry(entry));
    assert(entries[i] == words);
    lemma_joined(entries, i);
    let summary = joined(entries, ", "@);
    assert(tally_summary(tally) == Some(summary));
    let a = "\n> [!NOTE]\n> agentmux did not recognise "@ + decimal(tally_total(tally) as nat)
        + " event(s) in this turn's stream: "@;
    let z =
        ".\n> The delegate CLI may have changed its output format. The raw stream is kept.\n"@;
    lemma_deep(a, summary, words);
    lemma_deep(a + summary, z, words);
    let drift = drift_text(tally);
    assert(drift == a + summary + z);
    let body = turn_head(turn.index, turn.question) + messages_text(turn.messages) + outcome_text(
        turn.index,
        turn.outcome,
    );
    lemma_deep(body, drift, words);
    lemma_deep(body + drift, recovered_text(turn.recovered), words);
}

/// What a completed turn used is told with it: the tokens that went in and came out, the reasoning
/// where there was any, and what it cost.
pub proof fn what_was_used_is_told(turn: TurnModel, usage: Usage, cost: Option<CostModel>)
    requires
        turn.outcome == (OutcomeModel::Completed { usage, cost_usd: cost }),
    ensures
        usage.input_tokens matches Some(n) ==> stands_somewhere(
            turn_text(turn),
            decimal(n as nat) + " in"@,
        ),
        usage.output_tokens matches Some(n) ==> stands_somewhere(
            turn_text(turn),
            decimal(n as nat) + " out"@,
        ),
        usage.reasoning_output_tokens matches Some(n) ==> n > 0 ==> stands_somewhere(
            turn_text(turn),
            decimal(n as nat) + " reasoning"@,
        ),
        cost matches Some(c) ==> stands_somewhere(turn_text(turn), "$"@ + c.text),
{
    let parts = accounting_parts(usage, cost);
    let a = count_part(usage.input_tokens, " in"@);
    let b = a + count_part(usage.output_tokens, " out"@);
    if let Some(n) = usage.input_tokens {
        assert(parts[0] == decimal(n as nat) + " in"@);
        lemma_used(turn, usage, cost, 0);
    }
    if let Some(n) = usage.output_tokens {
        assert(parts[a.len() as int] == decimal(n as nat) + " out"@);
        lemma_used(turn, usage, cost, a.len() as int);
    }
    if let Some(n) = usage.reasoning_output_tokens {
        if n > 0 {
            assert(parts[b.len() as int] == decimal(n as nat) + " reasoning"@);
            lemma_used(turn, usage, cost, b.len() as int);
        }
    }
    if let Some(c) = cost {
        assert(parts[parts.len() - 1] == "$"@ + c.text);
        lemma_used(turn, usage, cost, parts.len() - 1);
    }
}

proof fn lemma_used(turn: TurnModel, usage: Usage, cost: Option<CostModel>, i: int)
    requires
        turn.outcome == (OutcomeModel::Completed { usage, cost_usd: cost }),
        0 <= i < accounting_parts(usage, cost).len(),
    ensures
        stands_somewhere(turn_text(turn), accounting_parts(usage, cost)[i]),
{
    let parts = accounting_parts(usage, cost);
    let part = parts[i];
    lemma_joined(parts, i);
    let list = joined(parts, ", "@);
    lemma_deep(" — "@, list, part);
    let told = accounting_text(usage, cost);
    let a = "\n---\n\n_Turn "@ + decimal(turn_number(turn.index)) + " completed"@;
    lemma_deep(a, told, part);
    lemma_deep(a + told, "_\n"@, part);
    let end = outcome_text(turn.index, turn.outcome);
    assert(end == a + told + "_\n"@);
    let body = turn_head(turn.index, turn.question) + messages_text(turn.messages);
    lemma_deep(body, end, part);
    lemma_deep(body + end, drift_text(turn.unrecognised), part);
    lemma_deep(
        body + end + drift_text(turn.unrecognised),
        recovered_text(turn.recovered),
        part,
    );
}

/// How often the turns of a consultation together met a type of event.
pub open spec fn met(turns: Seq<TurnModel>, kind: Seq<char>) -> int
    decreases turns.len(),
{
    if turns.len() == 0 {
        0
    } else {
        met(turns.drop_last(), kind) + tally_count(turns.last().unrecognised, kind)
    }
}

/// What was not understood of a consultation is what was not understood of each of its turns, added
/// up.
pub proof fn what_was_not_understood_adds_up(turns: Seq<TurnModel>, kind: Seq<char>)
    requires
        forall|k: Seq<char>| #[trigger] met(turns, k) <= u32::MAX,
    ensures
        tally_count(tally_over(turns), kind) == met(turns, kind),
        0 <= met(turns, kind),
    decreases turns.len(),
{
    if turns.len() > 0 {
        let init = turns.drop_last();
        assert forall|k: Seq<char>| #[trigger] met(init, k) <= u32::MAX by {
            assert(met(turns, k) <= u32::MAX);
        }
        what_was_not_understood_adds_up(init, kind);
        assert(met(turns, kind) <= u32::MAX);
        tallies_add_up(tally_over(init), turns.last().unrecognised, kind);
    }
}

} // verus!
