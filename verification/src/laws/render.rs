//! What a caller is shown of a consultation.

use vstd::prelude::*;

use crate::delegate::{alias_of, delegate_summary, program_of, ProgramsModel, Vendor};
use crate::laws::text::padding_only_adds_spaces;
use crate::laws::transcript::{counted_from_one, stands_at, stands_somewhere};
use crate::mcp::render::{
    account_heading, alternatives_of, answered_by_text, asked_for_text, bytes_text, continuity_text, cost_text, delegate_line_text,
    duration_text, ended, facts_text, failure_text, header_text, indented, instructions_text,
    list_entries, list_entry, next_steps_text, other_account_text, outcome_line_text,
    quota_block_lines, quota_report_lines, quota_text, rate_limit_line_text, recovery_advice_text, reopening_text,
    reports_of,
    standing_text, state_text, summarised, tail_text, tokens_text, transcript_text,
    truncated_text, unrecognised_text, warnings_text, window_name, Caller,
};
use crate::mcp::tools::{
    allowed_vendors, answer_text, clamped, names_denied, narrowed, MAX_WAIT_SECONDS,
};
use crate::quota::{AccountQuota, Observation};
use crate::run::paging::TranscriptPage;
use crate::run::status::{RunStatus, RunSummary};
use crate::run::HookReopening;
use crate::text::{decimal, joined, one_line, padded_to, text_of};
use crate::time::{rfc3339_text, Moment, NANOS};
use crate::transcript::{
    cost_model, failure_label, limit_model, state_name, tally_total, CostModel, FailureKind,
    OutcomeModel, RateLimitModel,
};

verus! {

/// Whether each of some texts stands in another one.
pub open spec fn all_stand(whole: Seq<char>, parts: Seq<Seq<char>>) -> bool {
    forall|i: int| 0 <= i < parts.len() ==> stands_somewhere(whole, #[trigger] parts[i])
}

/// What stands in a text stands in it with more behind it.
pub proof fn lemma_more(a: Seq<char>, b: Seq<char>, parts: Seq<Seq<char>>)
    requires
        all_stand(a, parts),
    ensures
        all_stand(a + b, parts),
{
    assert forall|i: int| 0 <= i < parts.len() implies stands_somewhere(
        a + b,
        #[trigger] parts[i],
    ) by {
        let at = choose|at: int| #[trigger] stands_at(a, parts[i], at);
        assert((a + b).subrange(at, at + parts[i].len()) =~= a.subrange(at, at + parts[i].len()));
        assert(stands_at(a + b, parts[i], at));
    }
}

/// What is put behind a text stands in it, and so does what stood in it.
pub proof fn lemma_new(a: Seq<char>, b: Seq<char>, parts: Seq<Seq<char>>)
    requires
        all_stand(a, parts),
    ensures
        all_stand(a + b, parts.push(b)),
{
    lemma_more(a, b, parts);
    let at = a.len() as int;
    assert((a + b).subrange(at, at + b.len()) =~= b);
    assert(stands_at(a + b, b, at));
    let all = parts.push(b);
    assert forall|i: int| 0 <= i < all.len() implies stands_somewhere(a + b, #[trigger] all[i]) by {
        if i < parts.len() {
            assert(all[i] == parts[i]);
        }
    }
}

/// What stands in something that is put behind a text stands in the whole.
pub proof fn lemma_deep(a: Seq<char>, b: Seq<char>, part: Seq<char>)
    requires
        stands_somewhere(a, part) || stands_somewhere(b, part),
    ensures
        stands_somewhere(a + b, part),
{
    if stands_somewhere(a, part) {
        let at = choose|at: int| #[trigger] stands_at(a, part, at);
        assert((a + b).subrange(at, at + part.len()) =~= a.subrange(at, at + part.len()));
        assert(stands_at(a + b, part, at));
    } else {
        let at = choose|at: int| #[trigger] stands_at(b, part, at);
        let to = at + a.len();
        assert((a + b).subrange(to, to + part.len()) =~= b.subrange(at, at + part.len()));
        assert(stands_at(a + b, part, to));
    }
}

/// A text stands in itself.
pub proof fn lemma_self(a: Seq<char>)
    ensures
        stands_somewhere(a, a),
{
    assert(a.subrange(0, a.len() as int) =~= a);
    assert(stands_at(a, a, 0));
}

/// Standing in one another goes on.
pub proof fn lemma_through(whole: Seq<char>, mid: Seq<char>, part: Seq<char>)
    requires
        stands_somewhere(whole, mid),
        stands_somewhere(mid, part),
    ensures
        stands_somewhere(whole, part),
{
    let a = choose|a: int| #[trigger] stands_at(whole, mid, a);
    let b = choose|b: int| #[trigger] stands_at(mid, part, b);
    assert(whole.subrange(a + b, a + b + part.len()) =~= whole.subrange(a, a + mid.len()).subrange(
        b,
        b + part.len(),
    ));
    assert(stands_at(whole, part, a + b));
}

/// What a header tells as facts.
spec fn facts(programs: ProgramsModel, status: RunStatus) -> Seq<Seq<char>> {
    Seq::<Seq<char>>::empty().push(status.run_id@).push(
        state_text(status.outcome@, status.earlier_failure),
    ).push(delegate_line_text(programs, status)).push(status.cwd@).push(
        duration_text(status.elapsed.seconds as nat),
    ).push(decimal(status.turns as nat)).push(decimal(status.message_count as nat)).push(
        tokens_text(status.usage.input_tokens, status.usage.output_tokens),
    ).push(cost_text(cost_model(status.cost_usd))).push(status.transcript_path@)
}

/// Every fact stands among the facts.
proof fn lemma_facts(programs: ProgramsModel, status: RunStatus)
    ensures
        all_stand(facts_text(programs, status), facts(programs, status)),
        stands_at(facts_text(programs, status), "run_id:     "@ + status.run_id@, 0),
{
    let p0 = Seq::<Seq<char>>::empty();
    let a0 = "run_id:     "@;
    let a1 = a0 + status.run_id@;
    lemma_new(a0, status.run_id@, p0);
    let p1 = p0.push(status.run_id@);
    lemma_more(a1, "\nstate:      "@, p1);
    let a2 = a1 + "\nstate:      "@;
    let state = state_text(status.outcome@, status.earlier_failure);
    lemma_new(a2, state, p1);
    let a3 = a2 + state;
    let p2 = p1.push(state);
    lemma_more(a3, "\ndelegate:   "@, p2);
    let a4 = a3 + "\ndelegate:   "@;
    let who = delegate_line_text(programs, status);
    lemma_new(a4, who, p2);
    let a5 = a4 + who;
    let p3 = p2.push(who);
    lemma_more(a5, "\nreading:    "@, p3);
    let a6 = a5 + "\nreading:    "@;
    lemma_new(a6, status.cwd@, p3);
    let a7 = a6 + status.cwd@;
    let p4 = p3.push(status.cwd@);
    lemma_more(a7, "\nprogress:   "@, p4);
    let a8 = a7 + "\nprogress:   "@;
    let spent = duration_text(status.elapsed.seconds as nat);
    lemma_new(a8, spent, p4);
    let a9 = a8 + spent;
    let p5 = p4.push(spent);
    lemma_more(a9, " elapsed · "@, p5);
    let a10 = a9 + " elapsed · "@;
    let turns = decimal(status.turns as nat);
    lemma_new(a10, turns, p5);
    let a11 = a10 + turns;
    let p6 = p5.push(turns);
    lemma_more(a11, " turn(s) · "@, p6);
    let a12 = a11 + " turn(s) · "@;
    let count = decimal(status.message_count as nat);
    lemma_new(a12, count, p6);
    let a13 = a12 + count;
    let p7 = p6.push(count);
    lemma_more(a13, " message(s)"@, p7);
    let a14 = a13 + " message(s)"@;
    let tokens = tokens_text(status.usage.input_tokens, status.usage.output_tokens);
    lemma_new(a14, tokens, p7);
    let a15 = a14 + tokens;
    let p8 = p7.push(tokens);
    let cost = cost_text(cost_model(status.cost_usd));
    lemma_new(a15, cost, p8);
    let a16 = a15 + cost;
    let p9 = p8.push(cost);
    lemma_more(a16, "\ntranscript: "@, p9);
    let a17 = a16 + "\ntranscript: "@;
    lemma_new(a17, status.transcript_path@, p9);
    let a18 = a17 + status.transcript_path@;
    let p10 = p9.push(status.transcript_path@);
    lemma_more(a18, "\n"@, p10);
    let whole = a18 + "\n"@;
    assert(whole == facts_text(programs, status));
    assert(a1.subrange(0, a1.len() as int) =~= a1);
    assert(whole.subrange(0, a1.len() as int) =~= a1);
}

/// As much of a text as is shown of it stands in what shows it.
proof fn lemma_summarised(text: Seq<char>, max: nat)
    ensures
        stands_somewhere(
            summarised(text, max),
            one_line(text).take(
                if one_line(text).len() <= max {
                    one_line(text).len() as int
                } else {
                    max as int
                },
            ),
        ),
{
    let line = one_line(text);
    if line.len() <= max {
        assert(line.take(line.len() as int) =~= line);
        lemma_self(line);
    } else {
        let part = line.take(max as int);
        lemma_self(part);
        lemma_deep(part, "…"@, part);
    }
}

/// The first so many characters of a text on one line.
pub open spec fn excerpt(text: Seq<char>, max: int) -> Seq<char> {
    one_line(text).take(
        if one_line(text).len() <= max {
            one_line(text).len() as int
        } else {
            max
        },
    )
}

/// The warning about a failure.
proof fn lemma_failure(programs: ProgramsModel, status: RunStatus, at: Moment)
    requires
        status.outcome@ is Failed,
    ensures
        stands_somewhere(
            failure_text(programs, status, at),
            failure_label(status.outcome@->kind),
        ),
        stands_somewhere(
            failure_text(programs, status, at),
            excerpt(status.outcome@->detail, 600),
        ),
        stands_somewhere(
            failure_text(programs, status, at),
            recovery_advice_text(
                status.outcome@->kind,
                limit_model(status.rate_limit),
                alternatives_of(status.quota@, status.delegate@.vendor, status.delegate@.account),
                at,
            ),
        ),
{
    let kind = status.outcome@->kind;
    let detail = status.outcome@->detail;
    let advice = recovery_advice_text(
        kind,
        limit_model(status.rate_limit),
        alternatives_of(status.quota@, status.delegate@.vendor, status.delegate@.account),
        at,
    );
    let p0 = Seq::<Seq<char>>::empty();
    let a0 = "warning:    this consultation failed ("@;
    lemma_new(a0, failure_label(kind), p0);
    let a1 = a0 + failure_label(kind);
    let p1 = p0.push(failure_label(kind));
    let b1 = "), and the failure did not discard the work.\n            "@;
    lemma_more(a1, b1, p1);
    let a2 = a1 + b1;
    let count = decimal(status.message_count as nat);
    lemma_more(a2, count, p1);
    let a3 = a2 + count;
    let b2 = " message(s) arrived before it and are all in the transcript below.\n            "@;
    lemma_more(a3, b2, p1);
    let a4 = a3 + b2;
    lemma_new(a4, advice, p1);
    let a5 = a4 + advice;
    let p2 = p1.push(advice);
    let b3 = "\n            The delegate said: "@;
    lemma_more(a5, b3, p2);
    let a6 = a5 + b3;
    lemma_new(a6, summarised(detail, 600), p2);
    let a7 = a6 + summarised(detail, 600);
    let p3 = p2.push(summarised(detail, 600));
    lemma_more(a7, "\n"@, p3);
    let a8 = a7 + "\n"@;
    let block = indented(quota_block_lines(programs, status));
    lemma_more(a8, block, p3);
    let whole = a8 + block;
    assert(whole == failure_text(programs, status, at));
    assert(p3[0] == failure_label(kind));
    assert(p3[1] == advice);
    assert(p3[2] == summarised(detail, 600));
    lemma_summarised(detail, 600);
    lemma_through(whole, summarised(detail, 600), excerpt(detail, 600));
}

/// Where each warning stands in all of them.
proof fn lemma_warnings(
    programs: ProgramsModel,
    status: RunStatus,
    caller: Caller,
    page: Option<TranscriptPage>,
    at: Moment,
)
    ensures
        ({
            let header = header_text(programs, status, caller, page, at);
            &&& stands_somewhere(header, failure_text(programs, status, at))
            &&& stands_somewhere(header, continuity_text(status.broke_continuity))
            &&& stands_somewhere(header, reopening_text(status.hook_reopening))
            &&& stands_somewhere(header, unrecognised_text(status))
        }),
{
    let top = facts_text(programs, status) + bytes_text(caller, page, status.transcript_bytes);
    let failure = failure_text(programs, status, at);
    let lost = continuity_text(status.broke_continuity);
    let again = reopening_text(status.hook_reopening);
    let drift = unrecognised_text(status);
    let note = instructions_text(programs, status.delegate@.vendor, status.cwd@);
    lemma_five(top, failure, lost, again, drift, note);
    assert(header_text(programs, status, caller, page, at) == top + warnings_text(
        programs,
        status,
        at,
    ));
}

proof fn lemma_five(
    top: Seq<char>,
    a: Seq<char>,
    b: Seq<char>,
    c: Seq<char>,
    d: Seq<char>,
    e: Seq<char>,
)
    ensures
        stands_somewhere(top + (a + b + c + d + e), a),
        stands_somewhere(top + (a + b + c + d + e), b),
        stands_somewhere(top + (a + b + c + d + e), c),
        stands_somewhere(top + (a + b + c + d + e), d),
{
    lemma_self(a);
    lemma_self(b);
    lemma_self(c);
    lemma_self(d);
    lemma_deep(a, b, a);
    lemma_deep(a, b, b);
    lemma_deep(a + b, c, a);
    lemma_deep(a + b, c, b);
    lemma_deep(a + b, c, c);
    lemma_deep(a + b + c, d, a);
    lemma_deep(a + b + c, d, b);
    lemma_deep(a + b + c, d, c);
    lemma_deep(a + b + c, d, d);
    lemma_deep(a + b + c + d, e, a);
    lemma_deep(a + b + c + d, e, b);
    lemma_deep(a + b + c + d, e, c);
    lemma_deep(a + b + c + d, e, d);
    lemma_deep(top, a + b + c + d + e, a);
    lemma_deep(top, a + b + c + d + e, b);
    lemma_deep(top, a + b + c + d + e, c);
    lemma_deep(top, a + b + c + d + e, d);
}

/// Every fact stands in the header.
proof fn lemma_header_facts(
    programs: ProgramsModel,
    status: RunStatus,
    caller: Caller,
    page: Option<TranscriptPage>,
    at: Moment,
)
    ensures
        all_stand(header_text(programs, status, caller, page, at), facts(programs, status)),
        stands_at(
            header_text(programs, status, caller, page, at),
            "run_id:     "@ + status.run_id@,
            0,
        ),
{
    let told = facts_text(programs, status);
    let bytes = bytes_text(caller, page, status.transcript_bytes);
    let rest = warnings_text(programs, status, at);
    lemma_facts(programs, status);
    lemma_more(told, bytes, facts(programs, status));
    lemma_more(told + bytes, rest, facts(programs, status));
    let header = header_text(programs, status, caller, page, at);
    assert(header == told + bytes + rest);
    let title = "run_id:     "@ + status.run_id@;
    assert(header.subrange(0, title.len() as int) =~= told.subrange(0, title.len() as int));
}

/// Whatever is asked about a consultation, the answer opens with which one it is, and says how it
/// stands, where it was pointed, how long it took, how much was said, what it used and where all of
/// it is.
pub proof fn a_header_says_which_one_it_is(
    programs: ProgramsModel,
    status: RunStatus,
    caller: Caller,
    page: Option<TranscriptPage>,
    at: Moment,
)
    ensures
        ({
            let header = header_text(programs, status, caller, page, at);
            &&& stands_at(header, "run_id:     "@ + status.run_id@, 0)
            &&& stands_somewhere(header, state_text(status.outcome@, status.earlier_failure))
            &&& stands_somewhere(header, status.cwd@)
            &&& stands_somewhere(header, duration_text(status.elapsed.seconds as nat))
            &&& stands_somewhere(header, decimal(status.turns as nat))
            &&& stands_somewhere(header, decimal(status.message_count as nat))
            &&& status.usage.input_tokens matches Some(n) ==> stands_somewhere(
                header,
                decimal(n as nat) + " in / "@,
            )
            &&& status.cost_usd matches Some(cost) ==> stands_somewhere(
                header,
                "$"@ + cost@.text + " list price"@,
            )
            &&& status.cost_usd is None ==> stands_somewhere(header, "no cost reported"@)
            &&& stands_somewhere(header, status.transcript_path@)
        }),
{
    let header = header_text(programs, status, caller, page, at);
    let told = facts(programs, status);
    lemma_header_facts(programs, status, caller, page, at);
    assert(told[1] == state_text(status.outcome@, status.earlier_failure));
    assert(told[3] == status.cwd@);
    assert(told[4] == duration_text(status.elapsed.seconds as nat));
    assert(told[5] == decimal(status.turns as nat));
    assert(told[6] == decimal(status.message_count as nat));
    assert(told[9] == status.transcript_path@);
    let tokens = tokens_text(status.usage.input_tokens, status.usage.output_tokens);
    let cost = cost_text(cost_model(status.cost_usd));
    assert(told[7] == tokens);
    assert(told[8] == cost);
    if let Some(n) = status.usage.input_tokens {
        lemma_tokens(n, status.usage.output_tokens);
        lemma_through(header, tokens, decimal(n as nat) + " in / "@);
    }
    lemma_cost(cost_model(status.cost_usd));
    if let Some(paid) = status.cost_usd {
        lemma_through(header, cost, "$"@ + paid@.text + " list price"@);
    } else {
        lemma_through(header, cost, "no cost reported"@);
    }
}

proof fn lemma_tokens(n: u64, output: Option<u64>)
    ensures
        stands_somewhere(tokens_text(Some(n), output), decimal(n as nat) + " in / "@),
        output matches Some(m) ==> stands_somewhere(
            tokens_text(Some(n), output),
            " in / "@ + decimal(m as nat) + " out"@,
        ),
{
    let m: nat = match output {
        Some(output) => output as nat,
        None => 0,
    };
    let whole = tokens_text(Some(n), output);
    let words = decimal(n as nat) + " in / "@;
    let dot = " · "@;
    let d = dot.len() as int;
    assert(whole.subrange(d, d + words.len()) =~= words);
    assert(stands_at(whole, words, d));
    let more = " in / "@ + decimal(m) + " out"@;
    let e = d + decimal(n as nat).len();
    assert(whole.subrange(e, e + more.len()) =~= more);
    assert(stands_at(whole, more, e));
}

proof fn lemma_cost(cost: Option<CostModel>)
    ensures
        cost matches Some(paid) ==> stands_somewhere(
            cost_text(cost),
            "$"@ + paid.text + " list price"@,
        ),
        cost is None ==> stands_somewhere(cost_text(cost), "no cost reported"@),
{
    let whole = cost_text(cost);
    reveal_strlit(" · $");
    reveal_strlit("$");
    reveal_strlit(" · no cost reported");
    reveal_strlit("no cost reported");
    if let Some(paid) = cost {
        let words = "$"@ + paid.text + " list price"@;
        assert(whole.subrange(3, words.len() as int + 3) =~= words);
        assert(stands_at(whole, words, 3));
    } else {
        let words = "no cost reported"@;
        assert(whole.subrange(3, words.len() as int + 3) =~= words);
        assert(stands_at(whole, words, 3));
    }
}

/// Who was consulted is told as it ran, with the model that was asked for where another ran, and
/// with the one that answered where the vendor says another did.
pub proof fn a_header_says_who_was_consulted(
    programs: ProgramsModel,
    status: RunStatus,
    caller: Caller,
    page: Option<TranscriptPage>,
    at: Moment,
)
    ensures
        ({
            let header = header_text(programs, status, caller, page, at);
            &&& stands_somewhere(header, delegate_summary(programs, status.delegate@))
            &&& status.requested_model matches Some(model) ==> stands_somewhere(
                header,
                "(asked for "@ + model@ + ")"@,
            )
            &&& status.resolved_model matches Some(model) ==> model@ != status.delegate@.model
                ==> stands_somewhere(header, "answered by "@ + model@)
        }),
{
    let header = header_text(programs, status, caller, page, at);
    lemma_header_facts(programs, status, caller, page, at);
    let who = delegate_line_text(programs, status);
    assert(facts(programs, status)[2] == who);
    let a = delegate_summary(programs, status.delegate@);
    let b = asked_for_text(text_of(status.requested_model));
    let c = answered_by_text(text_of(status.resolved_model), status.delegate@.model);
    lemma_self(a);
    lemma_deep(a, b, a);
    lemma_deep(a + b, c, a);
    lemma_through(header, who, a);
    if let Some(model) = status.requested_model {
        let words = "(asked for "@ + model@ + ")"@;
        reveal_strlit(" (asked for ");
        reveal_strlit("(asked for ");
        assert(b.subrange(1, words.len() as int + 1) =~= words);
        assert(stands_at(b, words, 1));
        lemma_deep(a, b, words);
        lemma_deep(a + b, c, words);
        lemma_through(header, who, words);
    }
    if let Some(model) = status.resolved_model {
        if model@ != status.delegate@.model {
            let words = "answered by "@ + model@;
            reveal_strlit(" · answered by ");
            reveal_strlit("answered by ");
            assert(c.subrange(3, words.len() as int + 3) =~= words);
            assert(stands_at(c, words, 3));
            lemma_deep(a + b, c, words);
            lemma_through(header, who, words);
        }
    }
}

/// The state of a consultation names a failure with its kind and in the delegate's words, and an
/// earlier failure with the number of its turn.
pub proof fn a_state_names_every_failure(
    outcome: OutcomeModel,
    earlier: Option<(u32, FailureKind)>,
)
    ensures
        outcome matches OutcomeModel::Failed { kind, detail } ==> stands_at(
            state_text(outcome, earlier),
            "failed ("@ + failure_label(kind) + "): "@ + excerpt(detail, 160),
            0,
        ),
        outcome is Completed ==> stands_at(state_text(outcome, earlier), "completed"@, 0),
        outcome is Running ==> stands_at(state_text(outcome, earlier), "running"@, 0),
        outcome is Cancelled ==> stands_at(state_text(outcome, earlier), "cancelled"@, 0),
        earlier matches Some((turn, kind)) ==> stands_somewhere(
            state_text(outcome, earlier),
            "(turn "@ + decimal(counted_from_one(turn)) + " failed: "@ + failure_label(kind),
        ),
{
    let whole = state_text(outcome, earlier);
    let line = outcome_line_text(outcome);
    let first: Seq<char> = match outcome {
        OutcomeModel::Failed { kind, detail } => {
            let lead = "failed ("@ + failure_label(kind) + "): "@;
            let shown = summarised(detail, 160);
            let part = excerpt(detail, 160);
            assert(shown.subrange(0, part.len() as int) =~= part);
            assert(line =~= lead + shown);
            assert(line.subrange(0, (lead + part).len() as int) =~= lead + part);
            lead + part
        },
        _ => {
            assert(line.subrange(0, line.len() as int) =~= line);
            line
        },
    };
    assert(whole.subrange(0, first.len() as int) =~= line.subrange(0, first.len() as int));
    if let Some((turn, kind)) = earlier {
        let part = "(turn "@ + decimal(counted_from_one(turn)) + " failed: "@ + failure_label(kind);
        reveal_strlit(" (turn ");
        reveal_strlit("(turn ");
        reveal_strlit(" ");
        assert(" (turn "@ =~= " "@ + "(turn "@);
        let at = line.len() as int + 1;
        assert(whole.subrange(at, at + part.len()) =~= part);
        assert(stands_at(whole, part, at));
    }
}

/// A failure is told with its kind, in the delegate's own words and with what to do about it.
pub proof fn a_header_tells_of_a_failure(
    programs: ProgramsModel,
    status: RunStatus,
    caller: Caller,
    page: Option<TranscriptPage>,
    at: Moment,
)
    requires
        status.outcome@ is Failed,
    ensures
        ({
            let header = header_text(programs, status, caller, page, at);
            let kind = status.outcome@->kind;
            &&& stands_somewhere(header, failure_label(kind))
            &&& stands_somewhere(header, excerpt(status.outcome@->detail, 600))
            &&& stands_somewhere(
                header,
                recovery_advice_text(
                    kind,
                    limit_model(status.rate_limit),
                    alternatives_of(
                        status.quota@,
                        status.delegate@.vendor,
                        status.delegate@.account,
                    ),
                    at,
                ),
            )
        }),
{
    let header = header_text(programs, status, caller, page, at);
    let failure = failure_text(programs, status, at);
    let kind = status.outcome@->kind;
    lemma_warnings(programs, status, caller, page, at);
    lemma_failure(programs, status, at);
    lemma_through(header, failure, failure_label(kind));
    lemma_through(header, failure, excerpt(status.outcome@->detail, 600));
    lemma_through(
        header,
        failure,
        recovery_advice_text(
            kind,
            limit_model(status.rate_limit),
            alternatives_of(status.quota@, status.delegate@.vendor, status.delegate@.account),
            at,
        ),
    );
}

/// A reader is warned of what changes how a transcript is to be read: that a follow-up lost its
/// session, that a hook reopened a turn, and that something was not understood.
pub proof fn a_header_warns(
    programs: ProgramsModel,
    status: RunStatus,
    caller: Caller,
    page: Option<TranscriptPage>,
    at: Moment,
)
    ensures
        ({
            let header = header_text(programs, status, caller, page, at);
            &&& status.broke_continuity ==> stands_somewhere(
                header,
                "warning:    a follow-up did not resume the earlier session."@,
            )
            &&& status.hook_reopening == Some(HookReopening::Unexpected) ==> stands_somewhere(
                header,
                "warning:    a hook in the delegate's environment reopened a finished turn"@,
            )
            &&& status.hook_reopening == Some(HookReopening::Expected) ==> stands_somewhere(
                header,
                "note:       a hook reopened a finished turn"@,
            )
            &&& status.unrecognised@ != Map::<Seq<char>, u32>::empty() ==> stands_somewhere(
                header,
                "agentmux did not recognise "@ + decimal(tally_total(status.unrecognised@) as nat),
            )
        }),
{
    let header = header_text(programs, status, caller, page, at);
    let lost = continuity_text(status.broke_continuity);
    let again = reopening_text(status.hook_reopening);
    let drift = unrecognised_text(status);
    lemma_warnings(programs, status, caller, page, at);
    if status.broke_continuity {
        let words = "warning:    a follow-up did not resume the earlier session."@;
        reveal_strlit("warning:    a follow-up did not resume the earlier session.");
        reveal_strlit(
            "warning:    a follow-up did not resume the earlier session.\n            The delegate CLI accepted the resume and silently started a new\n            conversation, so that turn answered with no memory of the earlier\n            ones. Read it as a fresh consultation, and restate the brief if the\n            answer looks context-free.\n",
        );
        assert(lost.subrange(0, words.len() as int) =~= words);
        assert(stands_at(lost, words, 0));
        lemma_through(header, lost, words);
    }
    if status.hook_reopening == Some(HookReopening::Unexpected) {
        let words = "warning:    a hook in the delegate's environment reopened a finished turn"@;
        reveal_strlit("warning:    a hook in the delegate's environment reopened a finished turn");
        reveal_strlit(
            "warning:    a hook in the delegate's environment reopened a finished turn, which should not be possible\n            in a run that loaded no settings, so treat the transcript as untrusted. The last\n            thing the delegate said is NOT the answer — the answer is above the\n            injection, which is marked in the transcript.\n",
        );
        assert(again.subrange(0, words.len() as int) =~= words);
        assert(stands_at(again, words, 0));
        lemma_through(header, again, words);
    }
    if status.hook_reopening == Some(HookReopening::Expected) {
        let words = "note:       a hook reopened a finished turn"@;
        reveal_strlit("note:       a hook reopened a finished turn");
        reveal_strlit(
            "note:       a hook reopened a finished turn, which is expected because this run inherited\n            its account's settings. The report is above the injection, which is marked\n            in the transcript.\n",
        );
        assert(again.subrange(0, words.len() as int) =~= words);
        assert(stands_at(again, words, 0));
        lemma_through(header, again, words);
    }
    if status.unrecognised@ != Map::<Seq<char>, u32>::empty() {
        let words = "agentmux did not recognise "@ + decimal(
            tally_total(status.unrecognised@) as nat,
        );
        reveal_strlit("agentmux did not recognise ");
        reveal_strlit("warning:    agentmux did not recognise ");
        reveal_strlit("warning:    ");
        assert("warning:    agentmux did not recognise "@ =~= "warning:    "@
            + "agentmux did not recognise "@);
        let at = "warning:    "@.len() as int;
        assert(drift.subrange(at, at + words.len()) =~= words);
        assert(stands_at(drift, words, at));
        lemma_through(header, drift, words);
    }
}

/// What is read of a transcript is handed on as it is, under its header; where more follows, the
/// reader is told from where to go on.
pub proof fn a_page_is_shown_as_it_is(
    programs: ProgramsModel,
    status: RunStatus,
    page: TranscriptPage,
    at: Moment,
)
    ensures
        ({
            let shown = transcript_text(programs, status, page, at);
            let header = header_text(programs, status, Caller::Result, Some(page), at);
            &&& stands_at(shown, header, 0)
            &&& stands_somewhere(shown, "\n---\n\n"@ + page.text@)
            &&& !page.at_end ==> stands_somewhere(
                shown,
                "\"offset\": "@ + decimal(page.next_offset as nat) + "}"@,
            )
        }),
{
    let shown = transcript_text(programs, status, page, at);
    let header = header_text(programs, status, Caller::Result, Some(page), at);
    let top = header + standing_text(status);
    let body = top + "\n---\n\n"@ + page.text@;
    let part = "\n---\n\n"@ + page.text@;
    assert(body =~= top + part);
    lemma_self(part);
    lemma_deep(top, part, part);
    assert(shown.subrange(0, header.len() as int) =~= header);
    if !page.at_end {
        let rest = truncated_text(status.run_id@, page.next_offset);
        let words = "\"offset\": "@ + decimal(page.next_offset as nat) + "}"@;
        lemma_deep(body, rest, part);
        reveal_strlit("\", \"offset\": ");
        reveal_strlit("\", ");
        reveal_strlit("\"offset\": ");
        reveal_strlit("}");
        reveal_strlit(
            "}, or read the whole transcript from the file named above with your own file tools.]\n",
        );
        let first = "\n\n---\n[truncated. Continue with result {\"run_id\": \""@;
        assert("\", \"offset\": "@ =~= "\", "@ + "\"offset\": "@);
        let from = (first.len() + status.run_id@.len() + 3) as int;
        assert(rest.subrange(from, from + words.len()) =~= words);
        assert(stands_at(rest, words, from));
        lemma_deep(body, rest, words);
    }
}

/// New output is handed on as it is, with the cursor to go on from; where there is none that is
/// said.
pub proof fn new_output_is_shown_as_it_is(
    programs: ProgramsModel,
    status: RunStatus,
    page: TranscriptPage,
    at: Moment,
)
    ensures
        ({
            let shown = tail_text(programs, status, page, at);
            &&& stands_somewhere(
                shown,
                "next_cursor: "@ + decimal(page.next_offset as nat) + "\n"@,
            )
            &&& page.text@.len() > 0 ==> stands_somewhere(shown, "\n---\n\n"@ + page.text@)
            &&& page.text@.len() == 0 ==> stands_somewhere(
                shown,
                "No new output since byte "@ + decimal(page.offset as nat),
            )
        }),
{
    let shown = tail_text(programs, status, page, at);
    let header = header_text(programs, status, Caller::Tail, Some(page), at);
    let cursor = "next_cursor: "@ + decimal(page.next_offset as nat) + "\n"@;
    let head = header + "next_cursor: "@ + decimal(page.next_offset as nat) + "\n"@;
    assert(head =~= header + cursor);
    lemma_self(cursor);
    lemma_deep(header, cursor, cursor);
    if page.text@.len() == 0 {
        let words = "No new output since byte "@ + decimal(page.offset as nat);
        let said = "\nNo new output since byte "@ + decimal(page.offset as nat)
            + ". Call tail again with the cursor above.\n"@;
        reveal_strlit("\nNo new output since byte ");
        reveal_strlit("No new output since byte ");
        assert(said.subrange(1, words.len() as int + 1) =~= words);
        assert(stands_at(said, words, 1));
        assert(shown =~= head + said);
        lemma_deep(head, said, cursor);
        lemma_deep(head, said, words);
    } else {
        let part = "\n---\n\n"@ + page.text@;
        let body = head + "\n---\n\n"@ + page.text@;
        assert(body =~= head + part);
        lemma_self(part);
        lemma_deep(head, part, part);
        lemma_deep(head, part, cursor);
        let rest: Seq<char> = if !page.at_end {
            "\n\n---\n[more is already waiting; call tail again with next_cursor.]\n"@
        } else if !status.outcome@.terminal() {
            "\n\n---\n[caught up. Call tail again with next_cursor "@ + decimal(
                page.next_offset as nat,
            ) + ", or result with wait_seconds to block for the answer.]\n"@
        } else {
            Seq::empty()
        };
        assert(shown =~= body + rest);
        lemma_deep(body, rest, part);
        lemma_deep(body, rest, cursor);
    }
}

/// Once a wait has ended, a consultation that is over is answered with what was said, and one that
/// is not with how it stands and how to go on.
pub proof fn an_answer_is_what_was_said(
    programs: ProgramsModel,
    status: RunStatus,
    page: TranscriptPage,
    at: Moment,
)
    ensures
        status.outcome@ != OutcomeModel::Running ==> stands_somewhere(
            answer_text(programs, status, page, at),
            page.text@,
        ),
        status.outcome@ == OutcomeModel::Running ==> stands_somewhere(
            answer_text(programs, status, page, at),
            "result {\"run_id\": \""@ + status.run_id@ + "\""@,
        ),
{
    if status.outcome@ != OutcomeModel::Running {
        a_page_is_shown_as_it_is(programs, status, page, at);
        lemma_self(page.text@);
        lemma_deep("\n---\n\n"@, page.text@, page.text@);
        lemma_through(
            transcript_text(programs, status, page, at),
            "\n---\n\n"@ + page.text@,
            page.text@,
        );
    } else {
        let id = status.run_id@;
        let words = "result {\"run_id\": \""@ + id + "\""@;
        let a = "\nStill working. The delegate is detached and survives an agentmux restart.\nnext:       tail {\"run_id\": \""@
            + id + "\", \"cursor\": "@ + decimal(status.transcript_bytes as nat);
        let b = "} — new output only\n            "@;
        let c = ", \"wait_seconds\": 45} — block for the answer\n            cancel {\"run_id\": \""@
            + id + "\"} — stop it, keeping what was collected\n"@;
        reveal_strlit("} — new output only\n            result {\"run_id\": \"");
        reveal_strlit("} — new output only\n            ");
        reveal_strlit("result {\"run_id\": \"");
        reveal_strlit("\"");
        reveal_strlit(", \"wait_seconds\": 45} — block for the answer\n            cancel {\"run_id\": \"");
        reveal_strlit("\", \"wait_seconds\": 45} — block for the answer\n            cancel {\"run_id\": \"");
        assert("} — new output only\n            result {\"run_id\": \""@ =~= b
            + "result {\"run_id\": \""@);
        assert("\", \"wait_seconds\": 45} — block for the answer\n            cancel {\"run_id\": \""@
            =~= "\""@
            + ", \"wait_seconds\": 45} — block for the answer\n            cancel {\"run_id\": \""@);
        let steps = next_steps_text(status);
        assert(steps =~= a + b + words + c);
        lemma_self(words);
        lemma_deep(a + b, words, words);
        lemma_deep(a + b + words, c, words);
        lemma_deep(header_text(programs, status, Caller::State, None, at), steps, words);
    }
}

/// Every consultation that is to be listed is, one behind the other and in their order.
pub proof fn every_consultation_is_listed(runs: Seq<RunSummary>, i: int)
    requires
        0 <= i < runs.len(),
    ensures
        ({
            let whole = list_entries(runs);
            let before = list_entries(runs.take(i));
            &&& stands_at(whole, list_entry(runs[i]), before.len() as int)
            &&& stands_at(whole, runs[i].run_id@, before.len() as int)
            &&& stands_somewhere(list_entry(runs[i]), runs[i].question@)
            &&& stands_somewhere(list_entry(runs[i]), runs[i].delegate@)
            &&& stands_somewhere(list_entry(runs[i]), state_name(runs[i].outcome@))
        }),
    decreases runs.len(),
{
    let entry = list_entry(runs[i]);
    let run = runs[i];
    assert(entry.subrange(0, run.run_id@.len() as int) =~= run.run_id@);
    let lead = run.run_id@ + "  "@ + padded_to(state_name(run.outcome@), 9) + "  "@ + rfc3339_text(
        run.created_at.seconds,
        run.created_at.nanos,
    ) + "\n    "@;
    let a = lead + run.delegate@;
    let b = a + "\n    "@;
    let c = b + run.question@;
    assert(entry == c + "\n"@);
    lemma_listed_state(run);
    lemma_self(run.delegate@);
    lemma_self(run.question@);
    lemma_deep(lead, run.delegate@, run.delegate@);
    lemma_deep(a, "\n    "@, run.delegate@);
    lemma_deep(b, run.question@, run.delegate@);
    lemma_deep(b, run.question@, run.question@);
    lemma_deep(c, "\n"@, run.delegate@);
    lemma_deep(c, "\n"@, run.question@);
    let init = runs.drop_last();
    let last = list_entry(runs.last());
    let whole = list_entries(runs);
    if i < init.len() {
        every_consultation_is_listed(init, i);
        assert(init.take(i) =~= runs.take(i));
        let n = list_entries(runs.take(i)).len() as int;
        assert(whole.subrange(n, n + entry.len()) =~= list_entries(init).subrange(
            n,
            n + entry.len(),
        ));
        assert(whole.subrange(n, n + run.run_id@.len()) =~= list_entries(init).subrange(
            n,
            n + run.run_id@.len(),
        ));
    } else {
        assert(runs.take(i) =~= init);
        let n = list_entries(init).len() as int;
        assert(whole.subrange(n, n + entry.len()) =~= entry);
        assert(whole.subrange(n, n + run.run_id@.len()) =~= entry.subrange(
            0,
            run.run_id@.len() as int,
        ));
    }
}

proof fn lemma_listed_state(run: RunSummary)
    ensures
        stands_somewhere(list_entry(run), state_name(run.outcome@)),
{
    let name = state_name(run.outcome@);
    let wide = padded_to(name, 9);
    padding_only_adds_spaces(name, 9);
    assert(wide.subrange(0, name.len() as int) =~= wide.take(name.len() as int));
    assert(stands_at(wide, name, 0));
    let a = run.run_id@ + "  "@;
    let b = a + wide;
    let c = b + "  "@;
    let d = c + rfc3339_text(run.created_at.seconds, run.created_at.nanos);
    let e = d + "\n    "@;
    let f = e + run.delegate@;
    let g = f + "\n    "@;
    let h = g + run.question@;
    lemma_deep(a, wide, name);
    lemma_deep(b, "  "@, name);
    lemma_deep(c, rfc3339_text(run.created_at.seconds, run.created_at.nanos), name);
    lemma_deep(d, "\n    "@, name);
    lemma_deep(e, run.delegate@, name);
    lemma_deep(f, "\n    "@, name);
    lemma_deep(g, run.question@, name);
    lemma_deep(h, "\n"@, name);
}

/// Every account that was asked is told of: with its figures as they came, or with why there are
/// none.
pub proof fn every_account_is_told(
    programs: ProgramsModel,
    reported: Seq<AccountQuota>,
    i: int,
)
    requires
        0 <= i < reported.len(),
    ensures
        ({
            let whole = quota_text(programs, reported);
            &&& reported[i].account matches Some(alias) ==> stands_somewhere(whole, alias@)
            &&& reported[i].description matches Some(text) ==> stands_somewhere(whole, text@)
            &&& match reported[i].observation {
                Observation::Reported { payload, .. } => stands_somewhere(whole, payload@),
                Observation::Unavailable { reason } => stands_somewhere(whole, reason@),
            }
        }),
    decreases reported.len(),
{
    let init = reported.drop_last();
    let lines = quota_report_lines(programs, reported.last());
    let before = quota_text(programs, init);
    let one = ended(lines);
    let whole = quota_text(programs, reported);
    let entry = reported[i];
    if i < init.len() {
        every_account_is_told(programs, init, i);
    } else {
        lemma_report(programs, entry);
    }
    if let Some(alias) = entry.account {
        lemma_deep(before, one, alias@);
        lemma_deep(before + one, "\n"@, alias@);
    }
    if let Some(text) = entry.description {
        lemma_deep(before, one, text@);
        lemma_deep(before + one, "\n"@, text@);
    }
    let said: Seq<char> = match entry.observation {
        Observation::Reported { payload, .. } => payload@,
        Observation::Unavailable { reason } => reason@,
    };
    lemma_deep(before, one, said);
    lemma_deep(before + one, "\n"@, said);
}

proof fn lemma_report(programs: ProgramsModel, entry: AccountQuota)
    ensures
        ({
            let one = ended(quota_report_lines(programs, entry));
            &&& entry.account matches Some(alias) ==> stands_somewhere(one, alias@)
            &&& entry.description matches Some(text) ==> stands_somewhere(one, text@)
            &&& match entry.observation {
                Observation::Reported { payload, .. } => stands_somewhere(one, payload@),
                Observation::Unavailable { reason } => stands_somewhere(one, reason@),
            }
        }),
{
    let lines = quota_report_lines(programs, entry);
    let one = ended(lines);
    let heading = account_heading(programs, entry);
    lemma_ended(lines, 0);
    let program = program_of(programs, entry.vendor) + "  "@;
    let name: Seq<char> = match alias_of(entry.account) {
        Some(alias) => alias,
        None => "the CLI's own login"@,
    };
    lemma_self(name);
    lemma_deep(program, name, name);
    if let Some(text) = entry.description {
        let a = program + name;
        lemma_self(text@);
        lemma_deep(a, " — "@, name);
        lemma_deep(a + " — "@, text@, name);
        lemma_deep(a + " — "@, text@, text@);
        assert(heading == a + " — "@ + text@);
        lemma_through(one, heading, text@);
    }
    lemma_through(one, heading, name);
    match entry.observation {
        Observation::Reported { origin, payload } => {
            lemma_self(payload@);
            lemma_deep("  "@, payload@, payload@);
            lemma_ended(lines, 2);
            lemma_through(one, "  "@ + payload@, payload@);
        },
        Observation::Unavailable { reason } => {
            lemma_self(reason@);
            lemma_deep("  unavailable, which is not idle: "@, reason@, reason@);
            lemma_ended(lines, 1);
            lemma_through(one, "  unavailable, which is not idle: "@ + reason@, reason@);
        },
    }
}

proof fn lemma_ended(lines: Seq<Seq<char>>, i: int)
    requires
        0 <= i < lines.len(),
    ensures
        stands_somewhere(ended(lines), lines[i]),
    decreases lines.len(),
{
    let init = lines.drop_last();
    if i < init.len() {
        lemma_ended(init, i);
    } else {
        lemma_self(lines[i]);
    }
    lemma_deep(ended(init), lines.last(), lines[i]);
    lemma_deep(ended(init) + lines.last(), "\n"@, lines[i]);
}

/// The accounts that are offered in place of a refused one are of the same vendor, are other than
/// the refused one, and were heard from; each such account is offered.
pub proof fn only_real_alternatives_are_offered(
    quota: Seq<AccountQuota>,
    vendor: Vendor,
    ran_as: Option<Seq<char>>,
)
    ensures
        alternatives_of(quota, vendor, ran_as) == quota.filter(
            |entry: AccountQuota|
                entry.vendor == vendor && entry.observation is Reported && entry.account is Some
                    && ran_as != Some(entry.account->Some_0@),
        ).map_values(|entry: AccountQuota| "`"@ + entry.account->Some_0@ + "`"@),
    decreases quota.len(),
{
    reveal(Seq::filter);
    if quota.len() > 0 {
        only_real_alternatives_are_offered(quota.drop_last(), vendor, ran_as);
    }
    assert(alternatives_of(quota, vendor, ran_as) =~= quota.filter(
        |entry: AccountQuota|
            entry.vendor == vendor && entry.observation is Reported && entry.account is Some
                && ran_as != Some(entry.account->Some_0@),
    ).map_values(|entry: AccountQuota| "`"@ + entry.account->Some_0@ + "`"@));
}

/// A refused caller is told of every other account that could answer, unless the window reopens
/// soon enough to wait for, or has already.
pub proof fn the_advice_names_every_alternative(
    limit: Option<RateLimitModel>,
    others: Seq<Seq<char>>,
    at: Moment,
    i: int,
)
    requires
        0 <= i < others.len(),
        limit matches Some(limit) ==> limit.resets_at.at() - at.at() > MAX_WAIT_SECONDS * NANOS,
    ensures
        stands_somewhere(
            recovery_advice_text(FailureKind::RateLimited, limit, others, at),
            others[i],
        ),
{
    let lead = "Nothing to fix in your call. Retry with a different account of this vendor — "@;
    let names = joined(others, ", "@);
    lemma_joined(others, i);
    lemma_deep(lead, names, others[i]);
    lemma_deep(lead + names, " — pass one as `account`."@, others[i]);
    let offer = other_account_text(others);
    assert(offer == lead + names + " — pass one as `account`."@);
    if let Some(limit) = limit {
        let a = offer + " The window"@;
        let b = a + window_name(limit.window);
        let c = b + " of the one that was refused does not reopen for "@;
        let left = limit.resets_at.at() - at.at();
        let d = c + duration_text((left / (NANOS as int)) as nat);
        lemma_deep(offer, " The window"@, others[i]);
        lemma_deep(a, window_name(limit.window), others[i]);
        lemma_deep(b, " of the one that was refused does not reopen for "@, others[i]);
        lemma_deep(c, duration_text((left / (NANOS as int)) as nat), others[i]);
        lemma_deep(d, "."@, others[i]);
    }
}

/// Each of some texts stands in the list of them.
pub proof fn lemma_joined(parts: Seq<Seq<char>>, i: int)
    requires
        0 <= i < parts.len(),
    ensures
        stands_somewhere(joined(parts, ", "@), parts[i]),
    decreases parts.len(),
{
    let init = parts.drop_last();
    if parts.len() == 1 {
        lemma_self(parts[0]);
    } else {
        if i < init.len() {
            lemma_joined(init, i);
        } else {
            lemma_self(parts[i]);
        }
        let a = joined(init, ", "@);
        if i < init.len() {
            lemma_deep(a, ", "@, parts[i]);
        }
        lemma_deep(a + ", "@, parts.last(), parts[i]);
    }
}

/// What may be chosen is what was offered, without the denied vendors, in the same order.
pub proof fn only_denied_vendors_are_taken_away(
    programs: ProgramsModel,
    choices: Seq<Seq<char>>,
    denied: Seq<Vendor>,
)
    ensures
        narrowed(programs, choices, denied) == choices.filter(
            |choice: Seq<char>| !names_denied(programs, choice, denied),
        ),
        forall|vendor: Vendor|
            #[trigger] allowed_vendors(denied).contains(vendor) == !denied.contains(vendor),
    decreases choices.len(),
{
    reveal(Seq::filter);
    if choices.len() > 0 {
        only_denied_vendors_are_taken_away(programs, choices.drop_last(), denied);
    }
    assert(narrowed(programs, choices, denied) =~= choices.filter(
        |choice: Seq<char>| !names_denied(programs, choice, denied),
    ));
    let list = allowed_vendors(denied);
    if !denied.contains(Vendor::Claude) {
        assert(list[0] == Vendor::Claude);
    }
    if !denied.contains(Vendor::Codex) {
        assert(list[list.len() - 1] == Vendor::Codex);
    }
}

/// A number that is asked for is kept where it is allowed, and is otherwise the nearest that is.
pub proof fn a_number_is_held_within_bounds(n: usize, low: usize, high: usize)
    requires
        low <= high,
    ensures
        low <= clamped(n, low, high) <= high,
        low <= n <= high ==> clamped(n, low, high) == n,
        n < low ==> clamped(n, low, high) == low,
        n > high ==> clamped(n, low, high) == high,
{
}

/// A length of time is told in hours and minutes, in minutes and seconds, or in seconds, and never
/// as more than it is nor as less by the smallest of them.
pub proof fn a_length_of_time_is_told_exactly(seconds: nat)
    ensures
        seconds < 60 ==> duration_text(seconds) == decimal(seconds) + "s"@,
        60 <= seconds < 3600 ==> exists|m: nat, s: nat|
            duration_text(seconds) == #[trigger] (decimal(m) + "m"@ + decimal(s) + "s"@) && s < 60
                && m * 60 + s == seconds,
        3600 <= seconds ==> exists|h: nat, m: nat|
            duration_text(seconds) == #[trigger] (decimal(h) + "h"@ + decimal(m) + "m"@) && m < 60
                && h * 3600 + m * 60 <= seconds < h * 3600 + m * 60 + 60,
{
    if 60 <= seconds < 3600 {
        let m = seconds / 60;
        let s = seconds % 60;
        assert(duration_text(seconds) == decimal(m) + "m"@ + decimal(s) + "s"@);
    } else if 3600 <= seconds {
        let h = seconds / 3600;
        let m = (seconds % 3600) / 60;
        assert(duration_text(seconds) == decimal(h) + "h"@ + decimal(m) + "m"@);
    }
}

/// A header says which bytes it stands above, and where more follow from where to go on.
pub proof fn a_page_says_where_it_is(
    caller: Caller,
    page: TranscriptPage,
    transcript_bytes: u64,
)
    ensures
        ({
            let line = bytes_text(caller, Some(page), transcript_bytes);
            &&& stands_at(
                line,
                "bytes:      "@ + decimal(page.offset as nat) + "-"@ + decimal(
                    page.next_offset as nat,
                ) + " of "@ + decimal(page.total_bytes as nat),
                0,
            )
            &&& !page.at_end ==> stands_somewhere(
                line,
                " "@ + decimal(page.next_offset as nat) + "\n"@,
            ) && stands_somewhere(line, "more follows"@)
        }),
{
    let line = bytes_text(caller, Some(page), transcript_bytes);
    let range = "bytes:      "@ + decimal(page.offset as nat) + "-"@ + decimal(
        page.next_offset as nat,
    ) + " of "@ + decimal(page.total_bytes as nat);
    assert(line.subrange(0, range.len() as int) =~= range);
    if !page.at_end {
        let call: Seq<char> = match caller {
            Caller::Tail => "call tail again with cursor"@,
            _ => "call result with offset"@,
        };
        let next = " "@ + decimal(page.next_offset as nat) + "\n"@;
        let more = range + " — more follows; "@;
        assert(line =~= more + call + next);
        lemma_self(next);
        lemma_deep(more + call, next, next);
        reveal_strlit(" — more follows; ");
        reveal_strlit("more follows");
        let words = "more follows"@;
        let lead = " — more follows; "@;
        assert(lead.subrange(3, 15) =~= words);
        assert(stands_at(lead, words, 3));
        lemma_deep(range, lead, words);
        lemma_deep(more, call, words);
        lemma_deep(more + call, next, words);
    }
}

/// A window is told as closed while it is, with when it reopens, and as reopened from then on.
pub proof fn a_window_is_told_as_it_stands(limit: RateLimitModel, at: Moment)
    ensures
        at.at() >= limit.resets_at.at() ==> " window has reopened"@.is_suffix_of(
            rate_limit_line_text(limit, at),
        ),
        at.at() < limit.resets_at.at() ==> stands_somewhere(
            rate_limit_line_text(limit, at),
            " window reopens in "@ + duration_text(
                ((limit.resets_at.at() - at.at()) / (NANOS as int)) as nat,
            ),
        ),
        limit.window matches Some(name) ==> stands_at(rate_limit_line_text(limit, at), name, 0),
{
    let line = rate_limit_line_text(limit, at);
    let name: Seq<char> = match limit.window {
        Some(name) => name,
        None => "usage"@,
    };
    assert(line.subrange(0, name.len() as int) =~= name);
    if at.at() >= limit.resets_at.at() {
        let end = " window has reopened"@;
        assert(line.subrange(line.len() - end.len(), line.len() as int) =~= end);
    } else {
        let words = " window reopens in "@ + duration_text(
            ((limit.resets_at.at() - at.at()) / (NANOS as int)) as nat,
        );
        let n = name.len() as int;
        assert(line.subrange(n, n + words.len()) =~= words);
        assert(stands_at(line, words, n));
    }
}

/// A window that reopens while one call can still wait is waited for.
pub proof fn a_short_wait_is_advised(
    limit: RateLimitModel,
    others: Seq<Seq<char>>,
    at: Moment,
)
    requires
        0 < limit.resets_at.at() - at.at() <= 9 * 60 * 1_000_000_000,
    ensures
        stands_somewhere(
            recovery_advice_text(FailureKind::RateLimited, Some(limit), others, at),
            ", which is inside what one `start` can wait for"@,
        ),
{
    let whole = recovery_advice_text(FailureKind::RateLimited, Some(limit), others, at);
    let left = limit.resets_at.at() - at.at();
    let words = ", which is inside what one `start` can wait for"@;
    let tail = ", which is inside what one `start` can wait for — retry with `wait_seconds` set to cover it rather than switching vendor."@;
    reveal_strlit(", which is inside what one `start` can wait for");
    reveal_strlit(
        ", which is inside what one `start` can wait for — retry with `wait_seconds` set to cover it rather than switching vendor.",
    );
    assert(tail.subrange(0, words.len() as int) =~= words);
    assert(stands_at(tail, words, 0));
    let head = "Nothing to fix in your call. The window"@ + window_name(limit.window)
        + " reopens in "@ + duration_text((left / (NANOS as int)) as nat);
    assert(whole == head + tail);
    lemma_deep(head, tail, words);
}

/// What every account of the vendor has left is told beneath a refusal, and nothing of the other
/// vendor's.
pub proof fn every_account_of_the_vendor_is_told(
    programs: ProgramsModel,
    quota: Seq<AccountQuota>,
    vendor: Vendor,
)
    ensures
        reports_of(programs, quota, vendor) == quota.filter(
            |entry: AccountQuota| entry.vendor == vendor,
        ).map_values(|entry: AccountQuota| quota_report_lines(programs, entry)).flatten(),
    decreases quota.len(),
{
    reveal(Seq::filter);
    let own = |entry: AccountQuota| entry.vendor == vendor;
    let told = |entry: AccountQuota| quota_report_lines(programs, entry);
    let lists = quota.filter(own).map_values(told);
    lists.lemma_flatten_and_flatten_alt_are_equivalent();
    if quota.len() > 0 {
        let init = quota.drop_last();
        every_account_of_the_vendor_is_told(programs, init, vendor);
        let before = init.filter(own).map_values(told);
        before.lemma_flatten_and_flatten_alt_are_equivalent();
        if quota.last().vendor == vendor {
            assert(lists.drop_last() =~= before);
            assert(lists.last() == quota_report_lines(programs, quota.last()));
        } else {
            assert(lists =~= before);
        }
    } else {
        assert(reports_of(programs, quota, vendor) =~= lists.flatten());
    }
}

} // verus!
