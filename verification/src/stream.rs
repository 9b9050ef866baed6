//! Folds a delegate's event stream into a [`Turn`].
//!
//! A stream is a text of lines, and a line is complete once its newline is there.
//! What each line says arrives as a typed value, so everything downstream is vendor-neutral and
//! cannot be called with the wrong vendor's shape.
//!
//! # Why every fold counts what it does not recognise
//!
//! agentmux wraps two CLIs owned by other people, whose JSON event shapes are versioned by
//! nobody's promise.
//! A parser that silently skips what it does not recognise will one day silently skip the report —
//! the process still exits zero and still prints something plausible.
//! So unrecognised event types are **counted** into [`Turn::unrecognised`] and surfaced in `status`
//! and `result`.
//! Drift becomes loud instead of lossy.

use vstd::prelude::*;

use crate::delegate::SessionRef;
use crate::stream::claude::ClaudeLine;
use crate::stream::codex::CodexLine;
use crate::text::{
    chars_of, contains, has_word, lemma_texts_push, lowercase, occurs, occurs_as_word,
    text_between, texts, to_lowercase, trim, trimmed,
};
use crate::transcript::{tally_total, FailureKind, Turn, TurnModel};

pub mod claude;
pub mod codex;

verus! {

/// Counted under [`Turn::unrecognised`] when a line is not JSON at all.
///
/// A CLI that starts printing a human-readable warning onto its JSON channel would otherwise be
/// invisible.
pub const MALFORMED_LINE: &'static str = "<malformed-json-line>";

/// The result of folding one child process's event stream.
pub struct Fold {
    /// The turn as the stream describes it.
    pub turn: Turn,
    /// The delegate's own handle on the conversation, when the stream announced one.
    ///
    /// Without this a follow-up is impossible, so it is recovered on every fold rather than
    /// remembered from the launch.
    pub session: Option<SessionRef>,
}

/// The characters of a session handle that may be absent.
pub open spec fn session_of(session: Option<SessionRef>) -> Option<Seq<char>> {
    match session {
        Some(s) => Some(s@),
        None => None,
    }
}

/// Where the first newline stands, or the length where there is none.
pub open spec fn newline_at(s: Seq<char>) -> int
    decreases s.len(),
{
    if s.len() == 0 || s[0] == '\n' {
        0
    } else {
        1 + newline_at(s.drop_first())
    }
}

/// The first newline stands within the text or directly behind it.
pub proof fn lemma_newline_at(s: Seq<char>)
    ensures
        0 <= newline_at(s) <= s.len(),
        newline_at(s) < s.len() ==> s[newline_at(s)] == '\n',
    decreases s.len(),
{
    if s.len() > 0 && s[0] != '\n' {
        lemma_newline_at(s.drop_first());
    }
}

/// The complete lines of a stream: each text that a newline ends, without the white space around
/// it, and without those that hold nothing else.
pub open spec fn complete_lines_of(s: Seq<char>) -> Seq<Seq<char>>
    decreases s.len(),
{
    let end = newline_at(s);
    if end >= s.len() {
        Seq::empty()
    } else {
        proof {
            lemma_newline_at(s);
        }
        let line = trimmed(s.take(end));
        let rest = complete_lines_of(s.skip(end + 1));
        if line.len() == 0 {
            rest
        } else {
            seq![line] + rest
        }
    }
}

proof fn lemma_newline_of_longer(s: Seq<char>, more: Seq<char>)
    requires
        newline_at(s) < s.len(),
    ensures
        newline_at(s + more) == newline_at(s),
    decreases s.len(),
{
    if s.len() > 0 && s[0] != '\n' {
        assert((s + more).drop_first() =~= s.drop_first() + more);
        lemma_newline_of_longer(s.drop_first(), more);
    }
}

/// Appending to a stream only appends lines: what was complete stays as it was.
pub proof fn complete_lines_only_grow(s: Seq<char>, more: Seq<char>)
    ensures
        complete_lines_of(s).is_prefix_of(complete_lines_of(s + more)),
    decreases s.len(),
{
    let end = newline_at(s);
    lemma_newline_at(s);
    if end < s.len() {
        lemma_newline_of_longer(s, more);
        assert((s + more).take(end) =~= s.take(end));
        assert((s + more).skip(end + 1) =~= s.skip(end + 1) + more);
        complete_lines_only_grow(s.skip(end + 1), more);
        let a = complete_lines_of(s.skip(end + 1));
        let b = complete_lines_of(s.skip(end + 1) + more);
        let line = trimmed(s.take(end));
        assert((seq![line] + a).is_prefix_of(seq![line] + b));
    }
}

/// The complete lines of a stream, skipping blanks and any trailing partial line.
///
/// While a child is running the last line is usually half-written.
/// Treating it as data would produce a spurious malformed-line count on every poll.
pub fn complete_lines(events: &str) -> (r: Vec<String>)
    ensures
        texts(r@) == complete_lines_of(events@),
{
    let chars = chars_of(events);
    let mut out: Vec<String> = Vec::new();
    let mut start: usize = 0;
    let mut at: usize = 0;
    assert(chars@.skip(0) =~= chars@);
    assert(texts(out@) + complete_lines_of(events@) =~= complete_lines_of(events@));
    while at < chars.len()
        invariant
            start <= at <= chars.len(),
            chars@ == events@,
            newline_at(chars@.skip(start as int)) == (at - start) + newline_at(
                chars@.skip(at as int),
            ),
            texts(out@) + complete_lines_of(chars@.skip(start as int)) == complete_lines_of(
                events@,
            ),
        decreases chars.len() - at,
    {
        let ghost rest = chars@.skip(start as int);
        if chars[at] == '\n' {
            proof {
                assert(chars@.skip(at as int)[0] == '\n');
                assert(newline_at(rest) == at - start);
                assert(rest.take(at - start) =~= chars@.subrange(start as int, at as int));
                assert(rest.skip(at - start + 1) =~= chars@.skip(at + 1));
            }
            let line = trim(text_between(&chars, start, at).as_str());
            let ghost had = texts(out@);
            let ghost tail = complete_lines_of(chars@.skip(at + 1));
            if line.as_str().is_empty() {
                assert(complete_lines_of(rest) == tail);
            } else {
                assert(complete_lines_of(rest) == seq![line@] + tail);
                proof {
                    lemma_texts_push(out@, line);
                    assert(had.push(line@) + tail =~= had + (seq![line@] + tail));
                }
                out.push(line);
            }
            start = at + 1;
        } else {
            assert(chars@.skip(at as int).drop_first() =~= chars@.skip(at + 1));
        }
        at = at + 1;
    }
    proof {
        assert(chars@.skip(at as int) =~= Seq::empty());
        assert(complete_lines_of(chars@.skip(start as int)) =~= Seq::empty());
        assert(texts(out@) + Seq::<Seq<char>>::empty() =~= texts(out@));
    }
    out
}

/// A line without the carriage return that ends it.
pub open spec fn without_return(line: Seq<char>) -> Seq<char> {
    if line.len() > 0 && line.last() == '\r' {
        line.drop_last()
    } else {
        line
    }
}

/// The lines of a text: what each newline ends, without it and a carriage return before it, and
/// what stands behind the last.
pub open spec fn lines_of(s: Seq<char>) -> Seq<Seq<char>>
    decreases s.len(),
{
    let end = newline_at(s);
    if s.len() == 0 {
        Seq::empty()
    } else if end >= s.len() {
        seq![s]
    } else {
        proof {
            lemma_newline_at(s);
        }
        seq![without_return(s.take(end))] + lines_of(s.skip(end + 1))
    }
}

/// The lines of a text.
pub fn lines(text: &str) -> (r: Vec<String>)
    ensures
        texts(r@) == lines_of(text@),
{
    let chars = chars_of(text);
    let mut out: Vec<String> = Vec::new();
    let mut start: usize = 0;
    let mut at: usize = 0;
    assert(chars@.skip(0) =~= chars@);
    assert(texts(out@) + lines_of(text@) =~= lines_of(text@));
    while at < chars.len()
        invariant
            start <= at <= chars.len(),
            chars@ == text@,
            newline_at(chars@.skip(start as int)) == (at - start) + newline_at(
                chars@.skip(at as int),
            ),
            texts(out@) + lines_of(chars@.skip(start as int)) == lines_of(text@),
        decreases chars.len() - at,
    {
        let ghost rest = chars@.skip(start as int);
        if chars[at] == '\n' {
            proof {
                assert(chars@.skip(at as int)[0] == '\n');
                assert(newline_at(rest) == at - start);
                assert(rest.take(at - start) =~= chars@.subrange(start as int, at as int));
                assert(rest.skip(at - start + 1) =~= chars@.skip(at + 1));
            }
            let ghost whole = rest.take(at - start);
            let end: usize = if at > start && chars[at - 1] == '\r' {
                at - 1
            } else {
                at
            };
            let line = text_between(&chars, start, end);
            let ghost had = texts(out@);
            let ghost tail = lines_of(chars@.skip(at + 1));
            proof {
                if at > start {
                    assert(whole.last() == chars@[at - 1]);
                }
                assert(line@ =~= without_return(whole));
                assert(lines_of(rest) == seq![line@] + tail);
                lemma_texts_push(out@, line);
                assert(had.push(line@) + tail =~= had + (seq![line@] + tail));
            }
            out.push(line);
            start = at + 1;
        } else {
            assert(chars@.skip(at as int).drop_first() =~= chars@.skip(at + 1));
        }
        at = at + 1;
    }
    let ghost rest = chars@.skip(start as int);
    assert(chars@.skip(at as int) =~= Seq::empty());
    if start < chars.len() {
        let line = text_between(&chars, start, chars.len());
        assert(line@ =~= rest);
        let ghost had = texts(out@);
        proof {
            lemma_texts_push(out@, line);
            assert(lines_of(rest) == seq![rest]);
            assert(had.push(line@) =~= had + seq![rest]);
        }
        out.push(line);
    } else {
        assert(lines_of(rest) =~= Seq::empty());
        assert(texts(out@) + Seq::<Seq<char>>::empty() =~= texts(out@));
    }
    out
}

/// What kind of failure a vendor's error text tells of.
///
/// Each phrase is a whole word or a specific pairing, because the text this sees is also the tail
/// of a CLI's stderr: `ECONNREFUSED` is not a refusal and a request id containing `429` is not a
/// rate limit.
pub open spec fn classification(detail: Seq<char>) -> FailureKind {
    let text = lowercase(detail);
    if occurs(text, "flagged"@) || occurs(text, "cybersecurity risk"@) || occurs_as_word(
        text,
        "refusal"@,
    ) || occurs(text, "content policy"@) {
        FailureKind::ContentFlagged
    } else if occurs(text, "rate limit"@) || occurs(text, "rate_limit"@) || occurs(
        text,
        "too many requests"@,
    ) || occurs_as_word(text, "429"@) {
        FailureKind::RateLimited
    } else if occurs(text, "insufficient_quota"@) || occurs(text, "quota exceeded"@) || occurs(
        text,
        "credit balance"@,
    ) || occurs(text, "billing"@) {
        FailureKind::BudgetExceeded
    } else if occurs(text, "model"@) && (occurs(text, "not found"@) || occurs(
        text,
        "not supported"@,
    ) || occurs(text, "does not exist"@) || occurs(text, "unsupported"@)) {
        FailureKind::ModelUnavailable
    } else if occurs(text, "max turns"@) || occurs(text, "max_turns"@) || occurs(
        text,
        "turn limit"@,
    ) {
        FailureKind::TurnLimit
    } else {
        FailureKind::Unclassified
    }
}

/// Classify a vendor's error text into a [`FailureKind`].
///
/// Both CLIs report failures as prose.
/// The mapping is a best effort over phrases both vendors have been observed to emit; anything
/// unfamiliar becomes `Unclassified` with the text kept verbatim, because guessing wrong is worse
/// than admitting ignorance.
pub fn classify(detail: &str) -> (r: FailureKind)
    ensures
        r == classification(detail@),
{
    let lower = to_lowercase(detail);
    let text = lower.as_str();
    if contains(text, "flagged") || contains(text, "cybersecurity risk") || has_word(
        text,
        "refusal",
    ) || contains(text, "content policy") {
        FailureKind::ContentFlagged
    } else if contains(text, "rate limit") || contains(text, "rate_limit") || contains(
        text,
        "too many requests",
    ) || has_word(text, "429") {
        FailureKind::RateLimited
    } else if contains(text, "insufficient_quota") || contains(text, "quota exceeded") || contains(
        text,
        "credit balance",
    ) || contains(text, "billing") {
        FailureKind::BudgetExceeded
    } else if contains(text, "model") && (contains(text, "not found") || contains(
        text,
        "not supported",
    ) || contains(text, "does not exist") || contains(text, "unsupported")) {
        FailureKind::ModelUnavailable
    } else if contains(text, "max turns") || contains(text, "max_turns") || contains(
        text,
        "turn limit",
    ) {
        FailureKind::TurnLimit
    } else {
        FailureKind::Unclassified
    }
}

/// What the complete lines of one vendor's stream say.
pub enum Events {
    /// Lines of a stream of Anthropic's CLI.
    Claude(Vec<ClaudeLine>),
    /// Lines of a Codex stream.
    Codex(Vec<CodexLine>),
}

/// Whether every sighting in a stream can be counted.
pub open spec fn countable(events: Events) -> bool {
    match events {
        Events::Claude(lines) => claude::lines_weight(lines@) <= u32::MAX,
        Events::Codex(lines) => lines@.len() <= u32::MAX,
    }
}

/// The turn that a stream describes.
pub open spec fn folded_turn(index: u32, question: Seq<char>, events: Events) -> TurnModel {
    match events {
        Events::Claude(lines) => claude::claude_state(index, question, lines@).turn,
        Events::Codex(lines) => codex::codex_state(index, question, lines@).turn,
    }
}

/// The session that a stream announces.
pub open spec fn folded_session(index: u32, question: Seq<char>, events: Events) -> Option<
    Seq<char>,
> {
    match events {
        Events::Claude(lines) => claude::claude_state(index, question, lines@).session,
        Events::Codex(lines) => codex::codex_state(index, question, lines@).session,
    }
}

/// Fold a delegate's event stream into a turn.
pub fn fold(index: u32, question: &str, events: &Events) -> (r: Fold)
    requires
        countable(*events),
    ensures
        r.turn@ == folded_turn(index, question@, *events),
        session_of(r.session) == folded_session(index, question@, *events),
        tally_total(r.turn@.unrecognised) <= u32::MAX,
        r.turn@.rate_limit matches Some(l) ==> l.resets_at.valid(),
{
    match events {
        Events::Claude(lines) => claude::fold(index, question, lines),
        Events::Codex(lines) => {
            proof {
                codex::lemma_no_limit(index, question@, lines@);
            }
            codex::fold(index, question, lines)
        },
    }
}

} // verus!
