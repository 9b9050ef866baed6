//! What becomes of a turn and of a run.

use vstd::prelude::*;

use crate::delegate::{delegate_summary, ProgramsModel, Vendor};
use crate::launch::ExitStatus;
use crate::laws::text::only_white_space_is_cut_from_the_ends;
use crate::laws::transcript::{
    is_silent, stands_at, stands_somewhere, the_answer_is_the_newest_reply,
};
use crate::run::settle::{
    announced, consultation_text, has_report, last_session, last_written, resumable, settled_turn,
    settled_turns, silent_exit_text, streamed, ExitRecord, TurnFacts,
};
use crate::run::{Meta, NotResumableModel};
use crate::stream::{classification, claude, codex, Events};
use crate::text::{is_blank, is_white_space, trimmed};
use crate::transcript::{
    limit_model, turn_text, FailureKind, MessageModel, MessageSource, OutcomeModel, Role,
    TurnModel,
};

verus! {

/// What settling a turn leaves as its stream has it, which is all that was said and counted.
pub proof fn settling_keeps_what_was_said(
    programs: ProgramsModel,
    vendor: Vendor,
    facts: TurnFacts,
    newest: bool,
)
    ensures
        ({
            let turn = settled_turn(programs, vendor, facts, newest);
            let stream = streamed(facts);
            &&& turn.index == facts.index
            &&& turn.question == facts.question@
            &&& turn.messages == stream.messages
            &&& turn.unrecognised == stream.unrecognised
            &&& turn.resolved_model == stream.resolved_model
        }),
{
    match facts.events {
        Events::Claude(lines) => claude::lemma_same_question(
            facts.index,
            facts.question@,
            lines@,
        ),
        Events::Codex(lines) => codex::lemma_same_question(facts.index, facts.question@, lines@),
    }
}

/// How a turn ends where its stream does not say: as cancelled where it was cancelled, as failed
/// where its child left or never came, and not at all while its child is there.
/// A child that left in silence is quoted.
pub proof fn a_silent_turn_is_settled(
    programs: ProgramsModel,
    vendor: Vendor,
    facts: TurnFacts,
    newest: bool,
)
    requires
        streamed(facts).outcome is Running,
    ensures
        ({
            let outcome = settled_turn(programs, vendor, facts, newest).outcome;
            match facts.exit {
                Some(ExitRecord::Cancelled { .. }) => outcome == OutcomeModel::Cancelled,
                Some(ExitRecord::Exited { status, stderr_tail, .. }) => {
                    outcome matches OutcomeModel::Failed { kind, detail } && {
                        let done = status matches Some(s) && s.code == Some(0i32) && s.signal
                            is None;
                        &&& done ==> kind == FailureKind::Unclassified && stands_somewhere(
                            detail,
                            facts.events_path@,
                        )
                        &&& !done && !is_blank(stderr_tail@) ==> stands_somewhere(
                            detail,
                            trimmed(stderr_tail@),
                        )
                        &&& !done ==> kind == if classification(detail)
                            == FailureKind::Unclassified {
                            FailureKind::LaunchFailed
                        } else {
                            classification(detail)
                        }
                    }
                },
                None => if facts.launched {
                    outcome == OutcomeModel::Running
                } else {
                    outcome matches OutcomeModel::Failed { kind, .. } && kind
                        == FailureKind::LaunchFailed
                },
            }
        }),
{
    match facts.exit {
        Some(ExitRecord::Exited { status, stderr_tail, .. }) => {
            let how = match status {
                Some(status) => status,
                None => ExitStatus { code: None, signal: None },
            };
            let detail = silent_exit_text(
                programs,
                how,
                stderr_tail@,
                vendor,
                facts.events_path@,
            );
            let done = how.code == Some(0i32) && how.signal is None;
            if done {
                let path = facts.events_path@;
                let at = detail.len() - path.len();
                assert(detail.subrange(at, at + path.len()) =~= path);
                assert(stands_at(detail, path, at));
            } else if !is_blank(stderr_tail@) {
                let words = trimmed(stderr_tail@);
                only_white_space_is_cut_from_the_ends(stderr_tail@);
                lemma_not_blank(stderr_tail@);
                let at = detail.len() - words.len();
                assert(detail.subrange(at, at + words.len()) =~= words);
                assert(stands_at(detail, words, at));
            }
        },
        _ => {},
    }
}

/// A text that says something says something without the white space around it.
pub proof fn lemma_not_blank(text: Seq<char>)
    requires
        !is_blank(text),
    ensures
        trimmed(text).len() > 0,
{
    only_white_space_is_cut_from_the_ends(text);
    let (lo, hi) = choose|lo: int, hi: int|
        {
            &&& 0 <= lo <= hi <= text.len()
            &&& trimmed(text) == #[trigger] text.subrange(lo, hi)
            &&& is_blank(text.take(lo))
            &&& is_blank(text.skip(hi))
            &&& lo < hi ==> !is_white_space(text[lo])
                && !is_white_space(text[hi - 1])
        };
    if lo == hi {
        assert forall|i: int| 0 <= i < text.len() implies is_white_space(
            #[trigger] text[i],
        ) by {
            if i < lo {
                assert(text.take(lo)[i] == text[i]);
            } else {
                assert(text.skip(hi)[i - hi] == text[i]);
            }
        }
    }
}

/// Whether a delegate's stream carried a reply.
pub open spec fn replied(messages: Seq<MessageModel>) -> bool {
    exists|i: int|
        0 <= i < messages.len() && (#[trigger] messages[i]).role == Role::Assistant
            && messages[i].source == MessageSource::Delegate
}

/// Whether a file holds a text that says something.
pub open spec fn says(text: Option<String>) -> bool {
    text is Some && !is_blank(text->Some_0@)
}

/// A lost reply is recovered only into a turn that is over and said nothing: what was shown once
/// stays, and a message written out late goes to the newest turn alone.
pub proof fn only_a_lost_reply_is_recovered(
    programs: ProgramsModel,
    vendor: Vendor,
    facts: TurnFacts,
    newest: bool,
)
    ensures
        ({
            let turn = settled_turn(programs, vendor, facts, newest);
            let lost = turn.outcome != OutcomeModel::Running && !replied(turn.messages);
            &&& turn.recovered is Some <==> lost && (says(facts.recovered) || (newest && says(
                facts.last_message,
            )))
            &&& turn.recovered matches Some(text) ==> text == if says(facts.recovered) {
                facts.recovered->Some_0@
            } else {
                facts.last_message->Some_0@
            }
        }),
{
    let turn = settled_turn(programs, vendor, facts, newest);
    assert(has_report(turn.messages) == replied(turn.messages)) by {
        if replied(turn.messages) {
            let i = choose|i: int|
                0 <= i < turn.messages.len() && (#[trigger] turn.messages[i]).role
                    == Role::Assistant && turn.messages[i].source == MessageSource::Delegate;
            assert(turn.messages[i].is_report());
        }
    }
}

/// A turn that asked to continue one conversation and opened another is told apart, and a usage
/// window is the stream's own, or for a finished Codex turn the one its session record holds.
pub proof fn continuity_and_window(
    programs: ProgramsModel,
    vendor: Vendor,
    facts: TurnFacts,
    newest: bool,
)
    ensures
        ({
            let turn = settled_turn(programs, vendor, facts, newest);
            let stream = streamed(facts);
            &&& turn.broke_continuity <==> facts.resumed_from is Some && announced(facts) is Some
                && facts.resumed_from->Some_0@ != announced(facts)->Some_0
            &&& stream.rate_limit is Some || vendor == Vendor::Claude || stream.outcome is Running
                || announced(facts) is None ==> turn.rate_limit == stream.rate_limit
            &&& stream.rate_limit is None && vendor == Vendor::Codex && !(stream.outcome is Running)
                && announced(facts) is Some ==> turn.rate_limit == limit_model(facts.window)
        }),
{
}

/// A run has the turns of its files, one for one and in their order, and only the last of them is
/// the newest.
pub proof fn every_turn_is_settled(
    programs: ProgramsModel,
    vendor: Vendor,
    files: Seq<TurnFacts>,
)
    ensures
        settled_turns(programs, vendor, files).len() == files.len(),
        forall|i: int|
            0 <= i < files.len() ==> #[trigger] settled_turns(programs, vendor, files)[i]
                == settled_turn(programs, vendor, files[i], i + 1 == files.len()),
{
}

/// A follow-up continues the conversation that was announced last.
pub proof fn the_newest_session_is_resumed(files: Seq<TurnFacts>)
    ensures
        match last_session(files) {
            Some(session) => exists|i: int|
                {
                    &&& 0 <= i < files.len()
                    &&& announced(#[trigger] files[i]) == Some(session)
                    &&& forall|j: int| i < j < files.len() ==> announced(#[trigger] files[j]) is None
                },
            None => forall|j: int| 0 <= j < files.len() ==> announced(#[trigger] files[j]) is None,
        },
    decreases files.len(),
{
    if files.len() > 0 {
        let last = files.len() - 1;
        let init = files.drop_last();
        if announced(files[last]) is None {
            the_newest_session_is_resumed(init);
            match last_session(init) {
                Some(session) => {
                    let i = choose|i: int|
                        {
                            &&& 0 <= i < init.len()
                            &&& announced(#[trigger] init[i]) == Some(session)
                            &&& forall|j: int|
                                i < j < init.len() ==> announced(#[trigger] init[j]) is None
                        };
                    assert(announced(files[i]) == Some(session));
                    assert forall|j: int| i < j < files.len() implies announced(
                        #[trigger] files[j],
                    ) is None by {
                        if j < last {
                            assert(init[j] == files[j]);
                        }
                    }
                },
                None => {
                    assert forall|j: int| 0 <= j < files.len() implies announced(
                        #[trigger] files[j],
                    ) is None by {
                        if j < last {
                            assert(init[j] == files[j]);
                        }
                    }
                },
            }
        }
    }
}

/// A run was last written when the last of its files was.
pub proof fn the_last_write_is_the_latest(files: Seq<TurnFacts>)
    ensures
        match last_written(files) {
            Some(moment) => {
                &&& exists|i: int|
                    0 <= i < files.len() && (#[trigger] files[i]).last_write == Some(moment)
                &&& forall|i: int|
                    0 <= i < files.len() ==> ((#[trigger] files[i]).last_write matches Some(other)
                        ==> other.at() <= moment.at())
            },
            None => forall|i: int|
                0 <= i < files.len() ==> (#[trigger] files[i]).last_write is None,
        },
    decreases files.len(),
{
    if files.len() > 0 {
        let last = files.len() - 1;
        let init = files.drop_last();
        the_last_write_is_the_latest(init);
        assert forall|i: int| 0 <= i < last implies #[trigger] files[i] == init[i] by {}
        match last_written(init) {
            Some(moment) => {
                let i = choose|i: int|
                    0 <= i < init.len() && (#[trigger] init[i]).last_write == Some(moment);
                assert(files[i].last_write == Some(moment));
            },
            None => {},
        }
        assert(files[last] == files.last());
    }
}

/// A run can be continued exactly where its newest turn is over and was not cancelled, the delegate
/// said something, and a session was announced; it is then continued in that session.
pub proof fn what_can_be_continued(
    run_id: Seq<char>,
    turns: Seq<TurnModel>,
    session: Option<Seq<char>>,
)
    ensures
        ({
            let newest = if turns.len() > 0 {
                turns[turns.len() - 1].outcome
            } else {
                OutcomeModel::Running
            };
            let said = exists|m: int| 0 <= m < turns.len() && !is_silent(#[trigger] turns[m]);
            match resumable(run_id, turns, session) {
                Ok(resumed) => {
                    &&& session == Some(resumed)
                    &&& newest is Completed || newest is Failed
                    &&& said
                },
                Err(NotResumableModel::StillRunning { run_id: of }) => of == run_id && newest
                    is Running,
                Err(NotResumableModel::Cancelled { run_id: of }) => of == run_id && newest
                    is Cancelled,
                Err(NotResumableModel::NothingSaid { run_id: of, .. }) => of == run_id && !said,
                Err(NotResumableModel::NoSession { run_id: of }) => of == run_id && session is None,
            }
        }),
{
    the_answer_is_the_newest_reply(turns);
}

/// Every turn of a consultation stands in its text as it reads for itself, one behind the other and
/// behind the heading, with nothing between them.
pub proof fn every_turn_is_told(
    programs: ProgramsModel,
    meta: Meta,
    turns: Seq<TurnModel>,
    i: int,
)
    requires
        0 <= i < turns.len(),
    ensures
        ({
            let whole = consultation_text(programs, meta, turns);
            let before = consultation_text(programs, meta, turns.take(i));
            &&& stands_at(whole, turn_text(turns[i]), before.len() as int)
            &&& before.is_prefix_of(whole)
            &&& before.len() + turn_text(turns[i]).len() == consultation_text(
                programs,
                meta,
                turns.take(i + 1),
            ).len()
            &&& turns.take(turns.len() as int) == turns
        }),
    decreases turns.len() - i,
{
    let whole = consultation_text(programs, meta, turns);
    let before = consultation_text(programs, meta, turns.take(i));
    let more = consultation_text(programs, meta, turns.take(i + 1));
    assert(turns.take(i + 1).drop_last() =~= turns.take(i));
    assert(more =~= before + turn_text(turns[i]));
    assert(turns.take(turns.len() as int) =~= turns);
    if i + 1 < turns.len() {
        every_turn_is_told(programs, meta, turns, i + 1);
    }
    assert(more.is_prefix_of(whole));
    assert(whole.take(more.len() as int) =~= more);
    assert(whole.subrange(before.len() as int, (before.len() + turn_text(turns[i]).len()) as int)
        =~= turn_text(turns[i])) by {
        assert forall|k: int|
            before.len() <= k < before.len() + turn_text(turns[i]).len() implies #[trigger] whole[k]
            == turn_text(turns[i])[k - before.len()] by {
            assert(whole.take(more.len() as int)[k] == more[k]);
        }
    }
    assert(before.is_prefix_of(whole)) by {
        assert forall|k: int| 0 <= k < before.len() implies #[trigger] whole[k] == before[k] by {
            assert(whole.take(more.len() as int)[k] == more[k]);
        }
    }
}

/// A consultation says which one it is, who was asked and where.
pub proof fn a_consultation_names_itself(
    programs: ProgramsModel,
    meta: Meta,
    turns: Seq<TurnModel>,
)
    ensures
        ({
            let whole = consultation_text(programs, meta, turns);
            &&& stands_at(whole, "# Consultation "@ + meta.run_id@, 0)
            &&& stands_somewhere(whole, "- working directory: `"@ + meta.cwd@ + "`"@)
        }),
{
    let whole = consultation_text(programs, meta, turns);
    let title = "# Consultation "@ + meta.run_id@;
    assert(whole.subrange(0, title.len() as int) =~= title);
    let delegate = delegate_summary(programs, meta.delegate@);
    let lead = title + "\n\n- delegate: "@ + delegate + "\n"@;
    let place = "- working directory: `"@ + meta.cwd@ + "`"@;
    reveal_strlit("\n");
    reveal_strlit("`");
    reveal_strlit("- working directory: `");
    reveal_strlit("\n- working directory: `");
    reveal_strlit("`\n- started: ");
    reveal_strlit("\n- started: ");
    assert("\n- working directory: `"@ =~= "\n"@ + "- working directory: `"@);
    assert("`\n- started: "@ =~= "`"@ + "\n- started: "@);
    let at = lead.len() as int;
    assert(whole.subrange(at, at + place.len()) =~= place);
    assert(stands_at(whole, place, at));
}

} // verus!
