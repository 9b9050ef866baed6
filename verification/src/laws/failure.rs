//! How a failure is told apart and named.

use vstd::prelude::*;

use crate::laws::transcript::{stands_at, stands_somewhere};
use crate::stream::classification;
use crate::text::{lowercase, occurs, occurs_as_word, occurs_at, word_bounded};
use crate::transcript::{failure_label, state_name, FailureKind, OutcomeModel};

verus! {

/// Whether a text says something, in whatever case.
pub open spec fn says(text: Seq<char>, phrase: Seq<char>) -> bool {
    stands_somewhere(lowercase(text), phrase)
}

proof fn lemma_says(text: Seq<char>, phrase: Seq<char>)
    ensures
        occurs(lowercase(text), phrase) == says(text, phrase),
        occurs_as_word(lowercase(text), phrase) ==> says(text, phrase),
{
    let low = lowercase(text);
    if occurs(low, phrase) {
        let i = choose|i: int| occurs_at(low, phrase, i);
        assert(stands_at(low, phrase, i));
    }
    if says(text, phrase) {
        let i = choose|i: int| #[trigger] stands_at(low, phrase, i);
        assert(occurs_at(low, phrase, i));
    }
    if occurs_as_word(low, phrase) {
        let i = choose|i: int|
            #[trigger] occurs_at(low, phrase, i) && word_bounded(low, phrase, i);
        assert(stands_at(low, phrase, i));
    }
}

/// Whether a text speaks of a guardrail.
pub open spec fn speaks_of_a_guardrail(text: Seq<char>) -> bool {
    says(text, "flagged"@) || says(text, "cybersecurity risk"@) || says(text, "content policy"@)
        || occurs_as_word(lowercase(text), "refusal"@)
}

/// Whether a text speaks of a rate limit.
pub open spec fn speaks_of_a_limit(text: Seq<char>) -> bool {
    says(text, "rate limit"@) || says(text, "rate_limit"@) || says(text, "too many requests"@)
        || occurs_as_word(lowercase(text), "429"@)
}

/// Whether a text speaks of money.
pub open spec fn speaks_of_money(text: Seq<char>) -> bool {
    says(text, "insufficient_quota"@) || says(text, "quota exceeded"@) || says(
        text,
        "credit balance"@,
    ) || says(text, "billing"@)
}

/// Whether a text speaks of a model that cannot be had.
pub open spec fn speaks_of_a_model(text: Seq<char>) -> bool {
    says(text, "model"@) && (says(text, "not found"@) || says(text, "not supported"@) || says(
        text,
        "does not exist"@,
    ) || says(text, "unsupported"@))
}

/// Whether a text speaks of too many turns.
pub open spec fn speaks_of_turns(text: Seq<char>) -> bool {
    says(text, "max turns"@) || says(text, "max_turns"@) || says(text, "turn limit"@)
}

/// A failure is of the kind that its words speak of, and of none where they speak of none: a
/// guardrail before a limit, a limit before money, money before a model, a model before turns.
pub proof fn a_failure_is_what_its_words_say(text: Seq<char>)
    ensures
        classification(text) == FailureKind::ContentFlagged <==> speaks_of_a_guardrail(text),
        classification(text) == FailureKind::RateLimited <==> !speaks_of_a_guardrail(text)
            && speaks_of_a_limit(text),
        classification(text) == FailureKind::BudgetExceeded <==> !speaks_of_a_guardrail(text)
            && !speaks_of_a_limit(text) && speaks_of_money(text),
        classification(text) == FailureKind::ModelUnavailable <==> !speaks_of_a_guardrail(text)
            && !speaks_of_a_limit(text) && !speaks_of_money(text) && speaks_of_a_model(text),
        classification(text) == FailureKind::TurnLimit <==> !speaks_of_a_guardrail(text)
            && !speaks_of_a_limit(text) && !speaks_of_money(text) && !speaks_of_a_model(text)
            && speaks_of_turns(text),
        classification(text) == FailureKind::Unclassified <==> !speaks_of_a_guardrail(text)
            && !speaks_of_a_limit(text) && !speaks_of_money(text) && !speaks_of_a_model(text)
            && !speaks_of_turns(text),
{
    lemma_says(text, "flagged"@);
    lemma_says(text, "cybersecurity risk"@);
    lemma_says(text, "content policy"@);
    lemma_says(text, "rate limit"@);
    lemma_says(text, "rate_limit"@);
    lemma_says(text, "too many requests"@);
    lemma_says(text, "insufficient_quota"@);
    lemma_says(text, "quota exceeded"@);
    lemma_says(text, "credit balance"@);
    lemma_says(text, "billing"@);
    lemma_says(text, "model"@);
    lemma_says(text, "not found"@);
    lemma_says(text, "not supported"@);
    lemma_says(text, "does not exist"@);
    lemma_says(text, "unsupported"@);
    lemma_says(text, "max turns"@);
    lemma_says(text, "max_turns"@);
    lemma_says(text, "turn limit"@);
}

/// A word counts only where it stands alone: with a letter or digit directly before or behind every
/// place it stands at, it does not.
pub proof fn a_word_stands_alone(text: Seq<char>, word: Seq<char>)
    ensures
        occurs_as_word(text, word) <==> exists|i: int|
            {
                &&& #[trigger] stands_at(text, word, i)
                &&& i > 0 ==> !crate::text::is_alphanumeric(text[i - 1])
                &&& i + word.len() < text.len() ==> !crate::text::is_alphanumeric(
                    text[i + word.len()],
                )
            },
{
    if occurs_as_word(text, word) {
        let i = choose|i: int|
            #[trigger] occurs_at(text, word, i) && word_bounded(text, word, i);
        assert(stands_at(text, word, i));
    }
    if exists|i: int|
        {
            &&& #[trigger] stands_at(text, word, i)
            &&& i > 0 ==> !crate::text::is_alphanumeric(text[i - 1])
            &&& i + word.len() < text.len() ==> !crate::text::is_alphanumeric(
                text[i + word.len()],
            )
        } {
        let i = choose|i: int|
            {
                &&& #[trigger] stands_at(text, word, i)
                &&& i > 0 ==> !crate::text::is_alphanumeric(text[i - 1])
                &&& i + word.len() < text.len() ==> !crate::text::is_alphanumeric(
                    text[i + word.len()],
                )
            };
        assert(occurs_at(text, word, i) && word_bounded(text, word, i));
    }
}

/// No two kinds of failure share a name.
pub proof fn every_kind_has_its_own_name(a: FailureKind, b: FailureKind)
    ensures
        failure_label(a) == failure_label(b) ==> a == b,
{
    reveal_strlit("model unavailable");
    reveal_strlit("content flagged");
    reveal_strlit("rate limited");
    reveal_strlit("budget exceeded");
    reveal_strlit("turn limit");
    reveal_strlit("launch failed");
    reveal_strlit("error");
    assert("model unavailable"@.len() == 17);
    assert("content flagged"@.len() == 15 && "content flagged"@[0] == 'c');
    assert("rate limited"@.len() == 12);
    assert("budget exceeded"@.len() == 15 && "budget exceeded"@[0] == 'b');
    assert("turn limit"@.len() == 10);
    assert("launch failed"@.len() == 13);
    assert("error"@.len() == 5);
}

/// No two states share a name.
pub proof fn every_state_has_its_own_name(a: OutcomeModel, b: OutcomeModel)
    requires
        state_name(a) == state_name(b),
    ensures
        a is Running == b is Running,
        a is Completed == b is Completed,
        a is Failed == b is Failed,
        a is Cancelled == b is Cancelled,
{
    reveal_strlit("running");
    reveal_strlit("completed");
    reveal_strlit("failed");
    reveal_strlit("cancelled");
    assert("running"@.len() == 7);
    assert("completed"@.len() == 9 && "completed"@[1] == 'o');
    assert("failed"@.len() == 6);
    assert("cancelled"@.len() == 9 && "cancelled"@[1] == 'a');
}

} // verus!
