//! What an operator is shown.

use vstd::prelude::*;

use crate::config::{
    account_at, accounts_of, default_alias, home_of, keys_of, machine_paths_of, no_launch,
    rewrites_of, AccountModel, ConfigModel, LaunchModel, Platform,
};
use crate::delegate::{program_of, ProgramsModel, Vendor};
use crate::laws::render::{
    all_stand, lemma_deep, lemma_joined, lemma_more, lemma_new, lemma_self, lemma_through,
};
use crate::laws::text::padding_only_adds_spaces;
use crate::laws::transcript::{counted_from_one, stands_at, stands_somewhere};
use crate::mcp::render::{
    delegate_line_text, duration_text, outcome_line_text, quota_block_lines, rate_limit_line_text,
};
use crate::mcp::tools::{
    account_notes, described, fallback_text, roster_entries, roster_entry, roster_text,
    vendor_roster,
};
use crate::ordered::{in_order, lemma_entry, map_of, walkable};
use crate::path::expanded;
use crate::report::{
    account_facts, accounts_report, accounts_text, block_text, continuity_line, cost_line,
    default_text, dir_fact, drift_line, earlier_text, fact, follow_up_line, ignored_text,
    launch_text, limit_line, means_of, names_text, project_text, reopening_line, rewrites_text,
    searched_text, set_fact, source_text, status_text, token_line, vendor_text, withheld_text,
};
use crate::report::listing::redacted_config;
use crate::run::status::RunStatus;
use crate::run::HookReopening;
use crate::text::{decimal, joined, padded_to};
use crate::time::Moment;
use crate::transcript::{cost_model, failure_label, limit_model, tally_summary, FailureKind};

verus! {

/// The printed state of a consultation says which one it is, how it stands, where it was pointed,
/// where its transcript and its events are, and names an earlier failure; a follow-up is offered
/// exactly where one can be made.
pub proof fn a_printed_state_tells_what_matters(
    programs: ProgramsModel,
    status: RunStatus,
    at: Moment,
)
    ensures
        ({
            let shown = status_text(programs, status, at);
            &&& stands_somewhere(shown, status.run_id@)
            &&& stands_somewhere(shown, outcome_line_text(status.outcome@))
            &&& stands_somewhere(shown, status.cwd@)
            &&& stands_somewhere(shown, decimal(status.message_count as nat))
            &&& stands_somewhere(shown, status.transcript_path@)
            &&& stands_somewhere(shown, status.events_path@)
            &&& status.earlier_failure matches Some((turn, kind)) ==> stands_somewhere(
                shown,
                "turn "@ + decimal(counted_from_one(turn)) + " failed: "@ + failure_label(kind),
            )
            &&& status.resumable ==> stands_somewhere(
                shown,
                "agentmux follow-up "@ + status.run_id@,
            )
        }),
{
    let shown = status_text(programs, status, at);
    let id = status.run_id@;
    let earlier = earlier_text(status.earlier_failure);
    let follow = follow_up_line(status.resumable, id);
    lemma_printed(programs, status, at);
    let p = printed_pieces(status);
    assert(p[0] == id && p[1] == outcome_line_text(status.outcome@) && p[2] == earlier);
    assert(p[3] == status.cwd@ && p[4] == decimal(status.message_count as nat));
    assert(p[5] == status.transcript_path@ && p[6] == status.events_path@ && p[7] == follow);
    if let Some((turn, kind)) = status.earlier_failure {
        lemma_earlier(turn, kind);
        lemma_through(
            shown,
            earlier,
            "turn "@ + decimal(counted_from_one(turn)) + " failed: "@ + failure_label(kind),
        );
    }
    if status.resumable {
        lemma_follow(id);
        lemma_through(shown, follow, "agentmux follow-up "@ + id);
    }
}

proof fn lemma_earlier(turn: u32, kind: FailureKind)
    ensures
        stands_somewhere(
            earlier_text(Some((turn, kind))),
            "turn "@ + decimal(counted_from_one(turn)) + " failed: "@ + failure_label(kind),
        ),
{
    let earlier = earlier_text(Some((turn, kind)));
    let words = "turn "@ + decimal(counted_from_one(turn)) + " failed: "@ + failure_label(kind);
    reveal_strlit("  EARLIER     turn ");
    reveal_strlit("  EARLIER     ");
    reveal_strlit("turn ");
    assert("  EARLIER     turn "@ =~= "  EARLIER     "@ + "turn "@);
    let from = "  EARLIER     "@.len() as int;
    assert(earlier.subrange(from, from + words.len()) =~= words);
    assert(stands_at(earlier, words, from));
}

proof fn lemma_follow(id: Seq<char>)
    ensures
        stands_somewhere(follow_up_line(true, id), "agentmux follow-up "@ + id),
{
    let follow = follow_up_line(true, id);
    let words = "agentmux follow-up "@ + id;
    reveal_strlit("  follow up   agentmux follow-up ");
    reveal_strlit("  follow up   ");
    reveal_strlit("agentmux follow-up ");
    assert("  follow up   agentmux follow-up "@ =~= "  follow up   "@ + "agentmux follow-up "@);
    let from = "  follow up   "@.len() as int;
    assert(follow.subrange(from, from + words.len()) =~= words);
    assert(stands_at(follow, words, from));
}

/// The pieces of a printed state that a reader looks for.
spec fn printed_pieces(status: RunStatus) -> Seq<Seq<char>> {
    Seq::<Seq<char>>::empty().push(status.run_id@).push(outcome_line_text(status.outcome@)).push(
        earlier_text(status.earlier_failure),
    ).push(status.cwd@).push(decimal(status.message_count as nat)).push(
        status.transcript_path@,
    ).push(status.events_path@).push(follow_up_line(status.resumable, status.run_id@))
}

/// What a printed state warns of and what it tells of use.
spec fn printed_lines(status: RunStatus, at: Moment) -> Seq<Seq<char>> {
    Seq::<Seq<char>>::empty().push(
        token_line(status.usage.input_tokens, status.usage.output_tokens),
    ).push(cost_line(cost_model(status.cost_usd))).push(
        limit_line(limit_model(status.rate_limit), at),
    ).push(drift_line(tally_summary(status.unrecognised@))).push(
        continuity_line(status.broke_continuity),
    ).push(reopening_line(status.hook_reopening))
}

/// The warnings of a printed state, and what it tells of use, stand in it.
proof fn lemma_printed_lines(programs: ProgramsModel, status: RunStatus, at: Moment)
    ensures
        all_stand(status_text(programs, status, at), printed_lines(status, at)),
{
    let p0 = Seq::<Seq<char>>::empty();
    let id = status.run_id@;
    let a0 = id + "  "@ + delegate_line_text(programs, status) + "\n  state       "@
        + outcome_line_text(status.outcome@) + "\n"@ + earlier_text(status.earlier_failure)
        + "  reading     "@ + status.cwd@ + "\n  elapsed     "@ + duration_text(
        status.elapsed.seconds as nat,
    ) + "\n  turns       "@ + decimal(status.turns as nat) + "\n  messages    "@ + decimal(
        status.message_count as nat,
    ) + "\n"@;
    let tokens = token_line(status.usage.input_tokens, status.usage.output_tokens);
    lemma_new(a0, tokens, p0);
    let a1 = a0 + tokens;
    let p1 = p0.push(tokens);
    let cost = cost_line(cost_model(status.cost_usd));
    lemma_new(a1, cost, p1);
    let a2 = a1 + cost;
    let p2 = p1.push(cost);
    let limit = limit_line(limit_model(status.rate_limit), at);
    lemma_new(a2, limit, p2);
    let a3 = a2 + limit;
    let p3 = p2.push(limit);
    let block = block_text(quota_block_lines(programs, status));
    lemma_more(a3, block, p3);
    let a4 = a3 + block;
    let drift = drift_line(tally_summary(status.unrecognised@));
    lemma_new(a4, drift, p3);
    let a5 = a4 + drift;
    let p4 = p3.push(drift);
    let lost = continuity_line(status.broke_continuity);
    lemma_new(a5, lost, p4);
    let a6 = a5 + lost;
    let p5 = p4.push(lost);
    let again = reopening_line(status.hook_reopening);
    lemma_new(a6, again, p5);
    let a7 = a6 + again;
    let p6 = p5.push(again);
    lemma_more(a7, "  transcript  "@, p6);
    let a8 = a7 + "  transcript  "@;
    lemma_more(a8, status.transcript_path@, p6);
    let a9 = a8 + status.transcript_path@;
    lemma_more(a9, "\n  events      "@, p6);
    let a10 = a9 + "\n  events      "@;
    lemma_more(a10, status.events_path@, p6);
    let a11 = a10 + status.events_path@;
    lemma_more(a11, "\n"@, p6);
    let a12 = a11 + "\n"@;
    lemma_more(a12, follow_up_line(status.resumable, id), p6);
    assert(status_text(programs, status, at) == a12 + follow_up_line(status.resumable, id));
}

/// A printed state warns of a lost session, of a reopened turn and of what was not understood, and
/// tells what was used, what it cost and where the usage window stands.
pub proof fn a_printed_state_warns(programs: ProgramsModel, status: RunStatus, at: Moment)
    ensures
        ({
            let shown = status_text(programs, status, at);
            &&& status.usage.input_tokens matches Some(n) ==> stands_somewhere(
                shown,
                decimal(n as nat) + " in, "@,
            )
            &&& status.cost_usd matches Some(cost) ==> stands_somewhere(shown, cost@.text)
            &&& limit_model(status.rate_limit) matches Some(limit) ==> stands_somewhere(
                shown,
                rate_limit_line_text(limit, at),
            )
            &&& tally_summary(status.unrecognised@) matches Some(drift) ==> stands_somewhere(
                shown,
                "UNRECOGNISED "@ + drift,
            )
            &&& status.broke_continuity ==> stands_somewhere(
                shown,
                "  WARNING     a follow-up did not resume the earlier session"@,
            )
            &&& status.hook_reopening == Some(HookReopening::Unexpected) ==> stands_somewhere(
                shown,
                "  WARNING     a hook reopened a finished turn"@,
            )
            &&& status.hook_reopening == Some(HookReopening::Expected) ==> stands_somewhere(
                shown,
                "  NOTE        a hook in the inherited settings reopened a finished turn"@,
            )
        }),
{
    let shown = status_text(programs, status, at);
    lemma_printed_lines(programs, status, at);
    lemma_lines_tell(status, at);
    let p = printed_lines(status, at);
    assert(p[0] == token_line(status.usage.input_tokens, status.usage.output_tokens));
    assert(p[1] == cost_line(cost_model(status.cost_usd)));
    assert(p[2] == limit_line(limit_model(status.rate_limit), at));
    assert(p[3] == drift_line(tally_summary(status.unrecognised@)));
    assert(p[4] == continuity_line(status.broke_continuity));
    assert(p[5] == reopening_line(status.hook_reopening));
    if let Some(n) = status.usage.input_tokens {
        lemma_through(shown, p[0], decimal(n as nat) + " in, "@);
    }
    if let Some(cost) = status.cost_usd {
        lemma_through(shown, p[1], cost@.text);
    }
    if let Some(limit) = limit_model(status.rate_limit) {
        lemma_through(shown, p[2], rate_limit_line_text(limit, at));
    }
    if let Some(drift) = tally_summary(status.unrecognised@) {
        lemma_through(shown, p[3], "UNRECOGNISED "@ + drift);
    }
    if status.broke_continuity {
        lemma_through(
            shown,
            p[4],
            "  WARNING     a follow-up did not resume the earlier session"@,
        );
    }
    if status.hook_reopening == Some(HookReopening::Unexpected) {
        lemma_through(shown, p[5], "  WARNING     a hook reopened a finished turn"@);
    }
    if status.hook_reopening == Some(HookReopening::Expected) {
        lemma_through(
            shown,
            p[5],
            "  NOTE        a hook in the inherited settings reopened a finished turn"@,
        );
    }
}

proof fn lemma_lines_tell(status: RunStatus, at: Moment)
    ensures
        status.usage.input_tokens matches Some(n) ==> stands_somewhere(
            token_line(status.usage.input_tokens, status.usage.output_tokens),
            decimal(n as nat) + " in, "@,
        ),
        status.cost_usd matches Some(cost) ==> stands_somewhere(
            cost_line(cost_model(status.cost_usd)),
            cost@.text,
        ),
        limit_model(status.rate_limit) matches Some(limit) ==> stands_somewhere(
            limit_line(limit_model(status.rate_limit), at),
            rate_limit_line_text(limit, at),
        ),
        tally_summary(status.unrecognised@) matches Some(drift) ==> stands_somewhere(
            drift_line(tally_summary(status.unrecognised@)),
            "UNRECOGNISED "@ + drift,
        ),
        status.broke_continuity ==> stands_somewhere(
            continuity_line(true),
            "  WARNING     a follow-up did not resume the earlier session"@,
        ),
        stands_somewhere(
            reopening_line(Some(HookReopening::Unexpected)),
            "  WARNING     a hook reopened a finished turn"@,
        ),
        stands_somewhere(
            reopening_line(Some(HookReopening::Expected)),
            "  NOTE        a hook in the inherited settings reopened a finished turn"@,
        ),
{
    if let Some(n) = status.usage.input_tokens {
        let line = token_line(status.usage.input_tokens, status.usage.output_tokens);
        let words = decimal(n as nat) + " in, "@;
        let from = "  tokens      "@.len() as int;
        assert(line.subrange(from, from + words.len()) =~= words);
        assert(stands_at(line, words, from));
    }
    if let Some(cost) = status.cost_usd {
        lemma_self(cost@.text);
        lemma_deep("  cost        $"@, cost@.text, cost@.text);
        lemma_deep("  cost        $"@ + cost@.text, "\n"@, cost@.text);
    }
    if let Some(limit) = limit_model(status.rate_limit) {
        let words = rate_limit_line_text(limit, at);
        lemma_self(words);
        lemma_deep("  rate limit  "@, words, words);
        lemma_deep("  rate limit  "@ + words, "\n"@, words);
    }
    if let Some(drift) = tally_summary(status.unrecognised@) {
        let line = drift_line(Some(drift));
        let words = "UNRECOGNISED "@ + drift;
        reveal_strlit("  UNRECOGNISED ");
        reveal_strlit("UNRECOGNISED ");
        assert(line.subrange(2, words.len() as int + 2) =~= words);
        assert(stands_at(line, words, 2));
    }
    lemma_warning_lines();
}

proof fn lemma_warning_lines()
    ensures
        stands_somewhere(
            continuity_line(true),
            "  WARNING     a follow-up did not resume the earlier session"@,
        ),
        stands_somewhere(
            reopening_line(Some(HookReopening::Unexpected)),
            "  WARNING     a hook reopened a finished turn"@,
        ),
        stands_somewhere(
            reopening_line(Some(HookReopening::Expected)),
            "  NOTE        a hook in the inherited settings reopened a finished turn"@,
        ),
{
    reveal_strlit("  WARNING     a follow-up did not resume the earlier session");
    reveal_strlit(
        "  WARNING     a follow-up did not resume the earlier session; that turn answered with no memory of the brief\n",
    );
    reveal_strlit("  WARNING     a hook reopened a finished turn");
    reveal_strlit(
        "  WARNING     a hook reopened a finished turn although no settings were loaded; treat the transcript as untrusted — the last message is not the answer\n",
    );
    reveal_strlit("  NOTE        a hook in the inherited settings reopened a finished turn");
    reveal_strlit(
        "  NOTE        a hook in the inherited settings reopened a finished turn; the answer is above the injection\n",
    );
    let a = "  WARNING     a follow-up did not resume the earlier session"@;
    let b = "  WARNING     a hook reopened a finished turn"@;
    let c = "  NOTE        a hook in the inherited settings reopened a finished turn"@;
    assert(continuity_line(true).subrange(0, a.len() as int) =~= a);
    assert(stands_at(continuity_line(true), a, 0));
    let x = reopening_line(Some(HookReopening::Unexpected));
    assert(x.subrange(0, b.len() as int) =~= b);
    assert(stands_at(x, b, 0));
    let y = reopening_line(Some(HookReopening::Expected));
    assert(y.subrange(0, c.len() as int) =~= c);
    assert(stands_at(y, c, 0));
}

/// The pieces of a printed state stand in it.
proof fn lemma_printed(programs: ProgramsModel, status: RunStatus, at: Moment)
    ensures
        all_stand(status_text(programs, status, at), printed_pieces(status)),
{
    let shown = status_text(programs, status, at);
    let p0 = Seq::<Seq<char>>::empty();
    let id = status.run_id@;
    let line = outcome_line_text(status.outcome@);
    let earlier = earlier_text(status.earlier_failure);
    let count = decimal(status.message_count as nat);
    let follow = follow_up_line(status.resumable, id);
    let a1 = id + "  "@;
    let who = delegate_line_text(programs, status);
    let a2 = a1 + who;
    let a3 = a2 + "\n  state       "@;
    let a4 = a3 + line;
    let a5 = a4 + "\n"@;
    let a6 = a5 + earlier;
    let a7 = a6 + "  reading     "@;
    let a8 = a7 + status.cwd@;
    lemma_new(Seq::empty(), id, p0);
    assert(Seq::<char>::empty() + id =~= id);
    let q = p0.push(id);
    lemma_more(id, "  "@, q);
    lemma_more(a1, who, q);
    lemma_more(a2, "\n  state       "@, q);
    lemma_new(a3, line, q);
    let p1 = q.push(line);
    lemma_more(a4, "\n"@, p1);
    lemma_new(a5, earlier, p1);
    let p2 = p1.push(earlier);
    lemma_more(a6, "  reading     "@, p2);
    lemma_new(a7, status.cwd@, p2);
    let p3 = p2.push(status.cwd@);
    let a9 = a8 + "\n  elapsed     "@;
    lemma_more(a8, "\n  elapsed     "@, p3);
    let spent = duration_text(status.elapsed.seconds as nat);
    let a10 = a9 + spent;
    lemma_more(a9, spent, p3);
    let a11 = a10 + "\n  turns       "@;
    lemma_more(a10, "\n  turns       "@, p3);
    let a12 = a11 + decimal(status.turns as nat);
    lemma_more(a11, decimal(status.turns as nat), p3);
    let a13 = a12 + "\n  messages    "@;
    lemma_more(a12, "\n  messages    "@, p3);
    let a14 = a13 + count;
    lemma_new(a13, count, p3);
    let p4 = p3.push(count);
    let a15 = a14 + "\n"@;
    lemma_more(a14, "\n"@, p4);
    let tokens = token_line(status.usage.input_tokens, status.usage.output_tokens);
    let a16 = a15 + tokens;
    lemma_more(a15, tokens, p4);
    let cost = cost_line(cost_model(status.cost_usd));
    let a17 = a16 + cost;
    lemma_more(a16, cost, p4);
    let limit = limit_line(limit_model(status.rate_limit), at);
    let a18 = a17 + limit;
    lemma_more(a17, limit, p4);
    let block = block_text(quota_block_lines(programs, status));
    let a19 = a18 + block;
    lemma_more(a18, block, p4);
    let drift = drift_line(tally_summary(status.unrecognised@));
    let a20 = a19 + drift;
    lemma_more(a19, drift, p4);
    let lost = continuity_line(status.broke_continuity);
    let a21 = a20 + lost;
    lemma_more(a20, lost, p4);
    let again = reopening_line(status.hook_reopening);
    let a22 = a21 + again;
    lemma_more(a21, again, p4);
    let a23 = a22 + "  transcript  "@;
    lemma_more(a22, "  transcript  "@, p4);
    let a24 = a23 + status.transcript_path@;
    lemma_new(a23, status.transcript_path@, p4);
    let p5 = p4.push(status.transcript_path@);
    let a25 = a24 + "\n  events      "@;
    lemma_more(a24, "\n  events      "@, p5);
    let a26 = a25 + status.events_path@;
    lemma_new(a25, status.events_path@, p5);
    let p6 = p5.push(status.events_path@);
    let a27 = a26 + "\n"@;
    lemma_more(a26, "\n"@, p6);
    lemma_new(a27, follow, p6);
    let p7 = p6.push(follow);
    assert(shown == a27 + follow);
}

proof fn lemma_padded(text: Seq<char>, width: nat)
    ensures
        stands_somewhere(padded_to(text, width), text),
{
    padding_only_adds_spaces(text, width);
    let whole = padded_to(text, width);
    assert(whole.subrange(0, text.len() as int) =~= whole.take(text.len() as int));
    assert(stands_at(whole, text, 0));
}

/// Every account of a list stands in what is printed of it, with its description.
proof fn lemma_accounts(
    platform: Platform,
    entries: Seq<(Seq<char>, AccountModel)>,
    home: Option<Seq<char>>,
    present: Seq<String>,
    i: int,
)
    requires
        0 <= i < entries.len(),
    ensures
        stands_somewhere(accounts_text(platform, entries, home, present), entries[i].0),
        entries[i].1.description matches Some(text) ==> stands_somewhere(
            accounts_text(platform, entries, home, present),
            text,
        ),
    decreases entries.len(),
{
    let init = entries.drop_last();
    let alias = entries[i].0;
    let last = entries.last();
    if i < init.len() {
        lemma_accounts(platform, init, home, present, i);
    }
    let a0 = accounts_text(platform, init, home, present);
    let a1 = a0 + "  "@;
    let name = padded_to(last.0, 14);
    let a2 = a1 + name;
    let a3 = a2 + " "@;
    let facts = joined(account_facts(platform, last.1, home, present), ", "@);
    let a4 = a3 + facts;
    let a5 = a4 + "\n"@;
    let note: Seq<char> = match last.1.description {
        Some(description) => "  "@ + padded_to(""@, 14) + " "@ + description + "\n"@,
        None => ""@,
    };
    assert(accounts_text(platform, entries, home, present) == a5 + note);
    lemma_padded(last.0, 14);
    if i < init.len() {
        lemma_deep(a0, "  "@, alias);
    }
    lemma_deep(a1, name, alias);
    lemma_deep(a2, " "@, alias);
    lemma_deep(a3, facts, alias);
    lemma_deep(a4, "\n"@, alias);
    lemma_deep(a5, note, alias);
    if let Some(text) = entries[i].1.description {
        if i < init.len() {
            lemma_deep(a0, "  "@, text);
            lemma_deep(a1, name, text);
            lemma_deep(a2, " "@, text);
            lemma_deep(a3, facts, text);
            lemma_deep(a4, "\n"@, text);
        } else {
            lemma_self(text);
            lemma_deep("  "@ + padded_to(""@, 14) + " "@, text, text);
            lemma_deep("  "@ + padded_to(""@, 14) + " "@ + text, "\n"@, text);
        }
        lemma_deep(a5, note, text);
    }
}

/// Every account of a vendor that the machine defines is printed under its alias, with its
/// description, and so is the default of the vendor.
pub proof fn every_account_is_printed(
    platform: Platform,
    config: ConfigModel,
    host: Map<Seq<char>, Seq<char>>,
    present: Seq<String>,
    vendor: Vendor,
    alias: Seq<char>,
)
    requires
        walkable(accounts_of(config, vendor)),
    ensures
        account_at(config, vendor, alias) matches Some(account) ==> {
            &&& stands_somewhere(accounts_report(platform, config, host, present), alias)
            &&& account.description matches Some(text) ==> stands_somewhere(
                accounts_report(platform, config, host, present),
                text,
            )
        },
        default_alias(config, vendor) matches Some(default) ==> stands_somewhere(
            accounts_report(platform, config, host, present),
            " default: "@ + default,
        ),
{
    let whole = accounts_report(platform, config, host, present);
    let home = home_of(host);
    let own = vendor_text(platform, vendor, config, home, present);
    lemma_vendor_is_printed(platform, config, host, present, vendor);
    let accounts = accounts_of(config, vendor);
    let p = in_order(accounts);
    let b0 = "\n"@ + default_text(vendor, config);
    let b1 = b0 + rewrites_text(in_order(rewrites_of(config, vendor)));
    if account_at(config, vendor, alias) is Some {
        assert(map_of(p).contains_key(alias));
        let i = choose|i: int| 0 <= i < p.len() && (#[trigger] p[i]).0 == alias;
        lemma_entry(p, i);
        assert(accounts.contains_key(alias));
        let list = accounts_text(platform, p, home, present);
        assert(own == b1 + list);
        lemma_accounts(platform, p, home, present, i);
        lemma_deep(b1, list, alias);
        lemma_through(whole, own, alias);
        if let Some(text) = accounts[alias].description {
            lemma_deep(b1, list, text);
            lemma_through(whole, own, text);
        }
    }
    if let Some(default) = default_alias(config, vendor) {
        let words = " default: "@ + default;
        let name = padded_to(program_of(config.programs, vendor), 11);
        let line = default_text(vendor, config);
        assert(line.subrange(name.len() as int, name.len() as int + words.len()) =~= words);
        assert(stands_at(line, words, name.len() as int));
        lemma_deep("\n"@, line, words);
        lemma_deep(b0, rewrites_text(in_order(rewrites_of(config, vendor))), words);
        let rest: Seq<char> = if accounts == Map::<Seq<char>, AccountModel>::empty() {
            "  (none configured — omit --account to use the CLI's own default)\n"@
        } else {
            accounts_text(platform, p, home, present)
        };
        assert(own == b1 + rest);
        lemma_deep(b1, rest, words);
        lemma_through(whole, own, words);
    }
}

proof fn lemma_vendor_is_printed(
    platform: Platform,
    config: ConfigModel,
    host: Map<Seq<char>, Seq<char>>,
    present: Seq<String>,
    vendor: Vendor,
)
    ensures
        stands_somewhere(
            accounts_report(platform, config, host, present),
            vendor_text(platform, vendor, config, home_of(host), present),
        ),
{
    let home = home_of(host);
    let head = source_text(config.source, machine_paths_of(platform, host)) + project_text(
        config.project_source,
    ) + ignored_text(config.unknown) + launch_text(config.launch);
    let a = vendor_text(platform, Vendor::Claude, config, home, present);
    let b = vendor_text(platform, Vendor::Codex, config, home, present);
    lemma_self(a);
    lemma_self(b);
    lemma_deep(head, a, a);
    lemma_deep(head + a, b, a);
    lemma_deep(head + a, b, b);
}

/// Every key of a file that nobody reads is printed, with the file that sets it.
pub proof fn every_ignored_key_is_printed(
    platform: Platform,
    config: ConfigModel,
    host: Map<Seq<char>, Seq<char>>,
    present: Seq<String>,
    i: int,
)
    requires
        0 <= i < config.unknown.len(),
    ensures
        stands_somewhere(
            accounts_report(platform, config, host, present),
            config.unknown[i].0 + " sets "@ + config.unknown[i].1,
        ),
{
    let words = config.unknown[i].0 + " sets "@ + config.unknown[i].1;
    let home = home_of(host);
    let a = source_text(config.source, machine_paths_of(platform, host)) + project_text(
        config.project_source,
    );
    let list = ignored_text(config.unknown);
    lemma_ignored(config.unknown, i);
    lemma_deep(a, list, words);
    let b = a + list;
    lemma_deep(b, launch_text(config.launch), words);
    let c = b + launch_text(config.launch);
    let first = vendor_text(platform, Vendor::Claude, config, home, present);
    let second = vendor_text(platform, Vendor::Codex, config, home, present);
    lemma_deep(c, first, words);
    lemma_deep(c + first, second, words);
}

proof fn lemma_ignored(unknown: Seq<(Seq<char>, Seq<char>)>, i: int)
    requires
        0 <= i < unknown.len(),
    ensures
        stands_somewhere(ignored_text(unknown), unknown[i].0 + " sets "@ + unknown[i].1),
    decreases unknown.len(),
{
    let init = unknown.drop_last();
    let words = unknown[i].0 + " sets "@ + unknown[i].1;
    let own = unknown.last().0 + " sets "@ + unknown.last().1;
    let a = ignored_text(init);
    if i < init.len() {
        lemma_ignored(init, i);
        lemma_deep(a, "ignored     "@, words);
    } else {
        lemma_self(words);
    }
    lemma_deep(a + "ignored     "@, own, words);
    lemma_deep(
        a + "ignored     "@ + own,
        " (a misspelling, or a key newer than this agentmux)\n"@,
        words,
    );
}

/// Every account that a caller may name is in the instructions they are given, with what it is for
/// and whether it inherits settings.
pub proof fn every_account_is_advertised(config: ConfigModel, vendor: Vendor, alias: Seq<char>)
    requires
        walkable(accounts_of(config, vendor)),
    ensures
        account_at(config, vendor, alias) matches Some(account) ==> {
            &&& stands_somewhere(roster_text(config), "`"@ + alias + "`"@)
            &&& account.description matches Some(text) ==> stands_somewhere(
                roster_text(config),
                text,
            )
            &&& account.inherit_settings == Some(true) ==> stands_somewhere(
                roster_text(config),
                "INHERITS this machine's settings, hooks and MCP servers"@,
            )
        },
{
    if let Some(account) = account_at(config, vendor, alias) {
        let accounts = accounts_of(config, vendor);
        let p = in_order(accounts);
        assert(map_of(p).contains_key(alias));
        let i = choose|i: int| 0 <= i < p.len() && (#[trigger] p[i]).0 == alias;
        lemma_entry(p, i);
        assert(accounts.contains_key(alias));
        let entries = roster_entries(p);
        let entry = roster_entry(alias, account);
        assert(entries[i] == entry);
        lemma_joined(entries, i);
        let names = joined(entries, ", "@);
        let program = program_of(config.programs, vendor);
        let a = program + ": "@;
        let b = a + names;
        let c = b + " — omitting `account` uses "@;
        let d = c + fallback_text(config.programs, vendor, default_alias(config, vendor));
        let tail = " unless the checkout's own agentmux.toml selects another"@;
        let roster = vendor_roster(vendor, config);
        assert(roster == d + tail);
        lemma_deep(a, names, entry);
        lemma_deep(b, " — omitting `account` uses "@, entry);
        lemma_deep(
            c,
            fallback_text(config.programs, vendor, default_alias(config, vendor)),
            entry,
        );
        lemma_deep(d, tail, entry);
        lemma_roster(config, vendor);
        lemma_through(roster_text(config), roster, entry);
        lemma_entry_tells(alias, account);
        lemma_through(roster_text(config), entry, "`"@ + alias + "`"@);
        if let Some(text) = account.description {
            lemma_through(roster_text(config), entry, text);
        }
        if account.inherit_settings == Some(true) {
            lemma_through(
                roster_text(config),
                entry,
                "INHERITS this machine's settings, hooks and MCP servers"@,
            );
        }
    }
}

proof fn lemma_entry_tells(alias: Seq<char>, account: AccountModel)
    ensures
        stands_somewhere(roster_entry(alias, account), "`"@ + alias + "`"@),
        account.description matches Some(text) ==> stands_somewhere(
            roster_entry(alias, account),
            text,
        ),
        account.inherit_settings == Some(true) ==> stands_somewhere(
            roster_entry(alias, account),
            "INHERITS this machine's settings, hooks and MCP servers"@,
        ),
{
    let quoted = "`"@ + alias + "`"@;
    let notes = account_notes(account);
    let entry = roster_entry(alias, account);
    if notes.len() == 0 {
        lemma_self(quoted);
    } else {
        let list = joined(notes, ", "@);
        let a = "`"@ + alias + "` ("@;
        reveal_strlit("` (");
        reveal_strlit("`");
        assert(entry.subrange(0, quoted.len() as int) =~= quoted);
        assert(stands_at(entry, quoted, 0));
        if account.description is Some {
            lemma_joined(notes, 0);
            lemma_deep(a, list, notes[0]);
            lemma_deep(a + list, ")"@, notes[0]);
        }
        if account.inherit_settings == Some(true) {
            let n = notes.len() - 1;
            lemma_joined(notes, n);
            lemma_deep(a, list, notes[n]);
            lemma_deep(a + list, ")"@, notes[n]);
        }
    }
}

proof fn lemma_roster(config: ConfigModel, vendor: Vendor)
    requires
        accounts_of(config, vendor) != Map::<Seq<char>, AccountModel>::empty(),
    ensures
        stands_somewhere(roster_text(config), vendor_roster(vendor, config)),
{
    let own = vendor_roster(vendor, config);
    let first = described(Vendor::Claude, config);
    let second = described(Vendor::Codex, config);
    let parts = first + second;
    let lead = "This machine defines these accounts — "@;
    let list = joined(parts, "; "@);
    let tail = ". Pass one as `account`, or omit it for the default; the `delegate:` line of every result names the account that actually ran."@;
    lemma_self(own);
    if parts.len() == 1 {
        assert(parts[0] == own);
        assert(list == own);
    } else {
        assert(parts.drop_last() =~= first);
        assert(joined(first, "; "@) == first[0]);
        if vendor == Vendor::Claude {
            lemma_deep(own, "; "@, own);
            lemma_deep(own + "; "@, parts.last(), own);
        } else {
            lemma_deep(first[0] + "; "@, own, own);
        }
    }
    lemma_deep(lead, list, own);
    lemma_deep(lead + list, tail, own);
}

/// What is handed out of an account is all of it but its secrets.
pub proof fn only_secrets_are_left_out(
    config: ConfigModel,
    vendor: Seq<char>,
    alias: Seq<char>,
)
    ensures
        ({
            let told = redacted_config(config);
            &&& told.source == config.source
            &&& told.project_source == config.project_source
            &&& told.defaults == config.defaults
            &&& told.models == config.models
            &&& told.efforts == config.efforts
            &&& told.unknown == config.unknown
            &&& told.launch.env_passthrough == config.launch.env_passthrough
            &&& told.launch.request_env == config.launch.request_env
            &&& told.accounts.contains_key(vendor) == config.accounts.contains_key(vendor)
            &&& config.accounts.contains_key(vendor) ==> {
                &&& told.accounts[vendor].contains_key(alias)
                    == config.accounts[vendor].contains_key(alias)
                &&& config.accounts[vendor].contains_key(alias) ==> {
                    let a = told.accounts[vendor][alias];
                    let b = config.accounts[vendor][alias];
                    &&& a.config_dir == b.config_dir
                    &&& a.api_key_env == b.api_key_env
                    &&& a.auth_token_env == b.auth_token_env
                    &&& a.base_url == b.base_url
                    &&& a.inherit_settings == b.inherit_settings
                    &&& a.description == b.description
                    &&& a.launch.env_passthrough == b.launch.env_passthrough
                    &&& a.launch.request_env == b.launch.request_env
                }
            }
        }),
{
}

/// Every name of a list stands in what is printed of it.
proof fn lemma_names(names: Seq<Seq<char>>, origin: Seq<char>, i: int)
    requires
        0 <= i < names.len(),
    ensures
        stands_somewhere(names_text(names, origin), names[i]),
    decreases names.len(),
{
    let init = names.drop_last();
    let name = names[i];
    let a = names_text(init, origin);
    let b = a + "              "@;
    if i < init.len() {
        lemma_names(init, origin, i);
        lemma_deep(a, "              "@, name);
    } else {
        lemma_self(name);
    }
    let c = b + names.last();
    lemma_deep(b, names.last(), name);
    let d = c + " ("@;
    lemma_deep(c, " ("@, name);
    let e = d + origin;
    lemma_deep(d, origin, name);
    let f = e + withheld_text(names.last());
    lemma_deep(e, withheld_text(names.last()), name);
    lemma_deep(f, ")\n"@, name);
}

/// Every variable that a launch layer sets, forwards or lets a request set is printed by its name.
pub proof fn every_launch_name_is_printed(launch: LaunchModel, name: Seq<char>)
    requires
        walkable(launch.env),
    ensures
        launch.env.contains_key(name) || launch.env_passthrough.contains(name)
            || launch.request_env.contains(name) ==> stands_somewhere(launch_text(launch), name),
{
    let keys = keys_of(in_order(launch.env));
    let a = "launch      every delegate also gets:\n"@;
    let set = names_text(keys, "set in config"@);
    let passed = names_text(launch.env_passthrough, "forwarded from this environment"@);
    let asked: Seq<char> = if launch.request_env.len() == 0 {
        ""@
    } else {
        "              a request may set: "@ + joined(launch.request_env, ", "@) + "\n"@
    };
    if launch.env.contains_key(name) {
        let p = in_order(launch.env);
        assert(map_of(p).contains_key(name));
        let i = choose|i: int| 0 <= i < p.len() && (#[trigger] p[i]).0 == name;
        assert(keys[i] == name);
        lemma_names(keys, "set in config"@, i);
        lemma_deep(a, set, name);
        lemma_deep(a + set, passed, name);
        lemma_deep(a + set + passed, asked, name);
    }
    if launch.env_passthrough.contains(name) {
        let i = choose|i: int|
            0 <= i < launch.env_passthrough.len() && launch.env_passthrough[i] == name;
        lemma_names(launch.env_passthrough, "forwarded from this environment"@, i);
        lemma_deep(a + set, passed, name);
        lemma_deep(a + set + passed, asked, name);
    }
    if launch.request_env.contains(name) {
        let i = choose|i: int|
            0 <= i < launch.request_env.len() && launch.request_env[i] == name;
        let list = joined(launch.request_env, ", "@);
        lemma_joined(launch.request_env, i);
        lemma_deep("              a request may set: "@, list, name);
        lemma_deep("              a request may set: "@ + list, "\n"@, name);
        lemma_deep(a + set + passed, asked, name);
    }
    assert(launch != no_launch() ==> launch_text(launch) == a + set + passed + asked);
    if launch.env_passthrough.contains(name) || launch.request_env.contains(name)
        || launch.env.contains_key(name) {
        assert(launch != no_launch());
    }
}

/// Every rule that exchanges a model is printed, with what it exchanges for what.
pub proof fn every_rewrite_is_printed(rules: Seq<(Seq<char>, Seq<char>)>, i: int)
    requires
        0 <= i < rules.len(),
    ensures
        stands_somewhere(rewrites_text(rules), rules[i].0 + " -> "@ + rules[i].1),
    decreases rules.len(),
{
    let init = rules.drop_last();
    let words = rules[i].0 + " -> "@ + rules[i].1;
    let own = rules.last().0 + " -> "@ + rules.last().1;
    let a = rewrites_text(init);
    let head = "  "@ + padded_to(
        if rules.len() == 1 {
            "models"@
        } else {
            ""@
        },
        14,
    ) + " "@;
    assert(rewrites_text(rules) =~= a + head + own + "\n"@);
    if i < init.len() {
        every_rewrite_is_printed(init, i);
        lemma_deep(a, head, words);
    } else {
        lemma_self(words);
    }
    lemma_deep(a + head, own, words);
    lemma_deep(a + head + own, "\n"@, words);
}

/// Where no configuration is found, every place that was looked at is printed.
pub proof fn every_place_that_was_searched_is_printed(paths: Seq<Seq<char>>, i: int)
    requires
        0 <= i < paths.len(),
    ensures
        stands_somewhere(source_text(None, paths), paths[i]),
{
    lemma_searched(paths, i);
    lemma_deep(
        "config      none found. A machine file defines accounts; first that exists:\n              $AGENTMUX_CONFIG (unset)\n"@,
        searched_text(paths),
        paths[i],
    );
}

proof fn lemma_searched(paths: Seq<Seq<char>>, i: int)
    requires
        0 <= i < paths.len(),
    ensures
        stands_somewhere(searched_text(paths), paths[i]),
    decreases paths.len(),
{
    let init = paths.drop_last();
    let a = searched_text(init);
    let b = a + "              "@;
    if i < init.len() {
        lemma_searched(init, i);
        lemma_deep(a, "              "@, paths[i]);
    } else {
        lemma_self(paths[i]);
    }
    lemma_deep(b, paths.last(), paths[i]);
    lemma_deep(b + paths.last(), "\n"@, paths[i]);
}

/// What is in one of two lists is in both together.
proof fn lemma_kept(first: Seq<Seq<char>>, second: Seq<Seq<char>>, words: Seq<char>)
    requires
        first.contains(words) || second.contains(words),
    ensures
        (first + second).contains(words),
{
    let both = first + second;
    if first.contains(words) {
        let i = choose|i: int| 0 <= i < first.len() && first[i] == words;
        assert(both[i] == words);
    } else {
        let i = choose|i: int| 0 <= i < second.len() && second[i] == words;
        assert(both[first.len() + i] == words);
    }
}

/// What is told by one of six parts is told of the account.
proof fn lemma_means(
    platform: Platform,
    account: AccountModel,
    home: Option<Seq<char>>,
    present: Seq<String>,
    words: Seq<char>,
)
    requires
        ({
            ||| dir_fact(platform, account.config_dir, home, present).contains(words)
            ||| fact("base_url="@, account.base_url).contains(words)
            ||| set_fact("api_key=<set in config>"@, account.api_key).contains(words)
            ||| fact("api_key=$"@, account.api_key_env).contains(words)
            ||| set_fact("auth_token=<set in config>"@, account.auth_token).contains(words)
            ||| fact("auth_token=$"@, account.auth_token_env).contains(words)
        }),
    ensures
        account_facts(platform, account, home, present).contains(words),
{
    let a = dir_fact(platform, account.config_dir, home, present);
    let b = fact("base_url="@, account.base_url);
    let c = set_fact("api_key=<set in config>"@, account.api_key);
    let d = fact("api_key=$"@, account.api_key_env);
    let e = set_fact("auth_token=<set in config>"@, account.auth_token);
    let f = fact("auth_token=$"@, account.auth_token_env);
    if a.contains(words) || b.contains(words) {
        lemma_kept(a, b, words);
    }
    if (a + b).contains(words) || c.contains(words) {
        lemma_kept(a + b, c, words);
    }
    if (a + b + c).contains(words) || d.contains(words) {
        lemma_kept(a + b + c, d, words);
    }
    if (a + b + c + d).contains(words) || e.contains(words) {
        lemma_kept(a + b + c + d, e, words);
    }
    lemma_kept(a + b + c + d + e, f, words);
    let means = means_of(platform, account, home, present);
    assert(means == a + b + c + d + e + f);
    let rest: Seq<Seq<char>> = if account.inherit_settings == Some(true) {
        seq!["inherits settings and hooks"@]
    } else {
        Seq::empty()
    };
    lemma_kept(means, rest, words);
    assert(account_facts(platform, account, home, present) == means + rest);
}

/// How an account authenticates is told part by part: its directory and whether it is there, its
/// endpoint, and of each credential where it comes from but not what it is.
pub proof fn how_an_account_authenticates_is_told(
    platform: Platform,
    account: AccountModel,
    home: Option<Seq<char>>,
    present: Seq<String>,
)
    ensures
        ({
            let told = account_facts(platform, account, home, present);
            &&& account.config_dir matches Some(dir) ==> told.contains(
                if exists|i: int|
                    0 <= i < present.len() && (#[trigger] present[i])@ == expanded(
                        platform,
                        dir,
                        home,
                    ) {
                    "config_dir="@ + dir + " ("@ + "ok"@ + ")"@
                } else {
                    "config_dir="@ + dir + " ("@ + "MISSING"@ + ")"@
                },
            )
            &&& account.base_url matches Some(url) ==> told.contains("base_url="@ + url)
            &&& account.api_key is Some ==> told.contains("api_key=<set in config>"@)
            &&& account.api_key_env matches Some(name) ==> told.contains("api_key=$"@ + name)
            &&& account.auth_token is Some ==> told.contains("auth_token=<set in config>"@)
            &&& account.auth_token_env matches Some(name) ==> told.contains("auth_token=$"@ + name)
            &&& account.inherit_settings == Some(true) ==> told.contains(
                "inherits settings and hooks"@,
            )
        }),
{
    if let Some(dir) = account.config_dir {
        let fact = dir_fact(platform, account.config_dir, home, present);
        assert(fact.contains(fact[0]));
        lemma_means(platform, account, home, present, fact[0]);
    }
    if let Some(url) = account.base_url {
        assert(fact("base_url="@, account.base_url)[0] == "base_url="@ + url);
        lemma_means(platform, account, home, present, "base_url="@ + url);
    }
    if account.api_key is Some {
        assert(set_fact("api_key=<set in config>"@, account.api_key)[0]
            == "api_key=<set in config>"@);
        lemma_means(platform, account, home, present, "api_key=<set in config>"@);
    }
    if let Some(name) = account.api_key_env {
        assert(fact("api_key=$"@, account.api_key_env)[0] == "api_key=$"@ + name);
        lemma_means(platform, account, home, present, "api_key=$"@ + name);
    }
    if account.auth_token is Some {
        assert(set_fact("auth_token=<set in config>"@, account.auth_token)[0]
            == "auth_token=<set in config>"@);
        lemma_means(platform, account, home, present, "auth_token=<set in config>"@);
    }
    if let Some(name) = account.auth_token_env {
        assert(fact("auth_token=$"@, account.auth_token_env)[0] == "auth_token=$"@ + name);
        lemma_means(platform, account, home, present, "auth_token=$"@ + name);
    }
    if account.inherit_settings == Some(true) {
        let means = means_of(platform, account, home, present);
        let first = if means.len() == 0 {
            seq!["the CLI's own login"@]
        } else {
            means
        };
        let rest = seq!["inherits settings and hooks"@];
        assert(rest[0] == "inherits settings and hooks"@);
        lemma_kept(first, rest, "inherits settings and hooks"@);
    }
}

/// A caller is told what runs where they name no account: the default, or the CLI's own login.
pub proof fn what_runs_by_default_is_advertised(config: ConfigModel, vendor: Vendor)
    requires
        accounts_of(config, vendor) != Map::<Seq<char>, AccountModel>::empty(),
    ensures
        default_alias(config, vendor) matches Some(alias) ==> stands_somewhere(
            roster_text(config),
            "omitting `account` uses `"@ + alias + "`"@,
        ),
        default_alias(config, vendor) is None ==> stands_somewhere(
            roster_text(config),
            "omitting `account` uses the "@ + program_of(config.programs, vendor),
        ),
{
    let roster = vendor_roster(vendor, config);
    let program = program_of(config.programs, vendor);
    let names = joined(roster_entries(in_order(accounts_of(config, vendor))), ", "@);
    let a = program + ": "@ + names;
    let said = fallback_text(config.programs, vendor, default_alias(config, vendor));
    let tail = " unless the checkout's own agentmux.toml selects another"@;
    reveal_strlit(" — omitting `account` uses ");
    reveal_strlit("omitting `account` uses `");
    reveal_strlit("omitting `account` uses the ");
    reveal_strlit("`");
    reveal_strlit("the ");
    let words: Seq<char> = match default_alias(config, vendor) {
        Some(alias) => "omitting `account` uses `"@ + alias + "`"@,
        None => "omitting `account` uses the "@ + program,
    };
    let middle = " — omitting `account` uses "@ + said;
    assert(middle.subrange(3, words.len() as int + 3) =~= words);
    assert(stands_at(middle, words, 3));
    assert(roster =~= a + middle + tail);
    lemma_deep(a, middle, words);
    lemma_deep(a + middle, tail, words);
    lemma_roster(config, vendor);
    lemma_through(roster_text(config), roster, words);
}

} // verus!
