//! What a calling model reads: the header, the warnings, and the next call.

use agentmux::config::Platform;
use agentmux::delegate::{AccountAlias, CodexSandbox, Delegate, Isolation, Programs, Vendor};
use agentmux::launch::ExitStatus;
use agentmux::mcp::render;
use agentmux::mcp::render::Caller;
use agentmux::ordered::TextMap;
use agentmux::quota::{AccountQuota, Observation, Origin, Refresh};
use agentmux::run::lifecycle::begin;
use agentmux::run::paging::TranscriptPage;
use agentmux::run::settle::{fold_run, render as render_run, ExitRecord, TurnFacts};
use agentmux::run::status::{describe, Reading, RunStatus, RunSummary};
use agentmux::run::{HookReopening, Meta, Retention, RunId, RunStore, StartRequest};
use agentmux::stream::claude::{
    ClaudeLine, Content, ContentBlock, MessageEvent, ResultEvent, SystemEvent,
};
use agentmux::stream::codex::{CodexLine, CodexUsage, Item};
use agentmux::stream::Events;
use agentmux::time::{Moment, Span};
use agentmux::transcript::{Cost, FailureKind, Outcome, RateLimit};

const NOW: Moment = Moment { seconds: 1_700_000_000, nanos: 0 };

/// What Anthropic's CLI is called: the vendor's own name, as it is typed.
fn cli() -> String {
    format!("{:?}", Vendor::Claude).to_lowercase()
}

/// A text with the name of Anthropic's CLI filled in.
fn spelt(text: &str) -> String {
    let name = cli();
    let capital = format!("{}{}", name[..1].to_uppercase(), &name[1..]);
    text.replace("{cli}", &name)
        .replace("{Cli}", &capital)
        .replace("{CLI}", &name.to_uppercase())
}

fn programs() -> Programs {
    Programs::installed()
}

fn later(seconds: i64) -> Moment {
    Moment { seconds: NOW.seconds + seconds, nanos: 0 }
}

fn codex() -> Delegate {
    Delegate::from_parts(
        Vendor::Codex,
        "gpt-6-astra",
        Some("xhigh"),
        None,
        None,
        Some(CodexSandbox::ReadOnly),
    )
    .unwrap()
}

fn anthropic(model: &str) -> Delegate {
    Delegate::from_parts(Vendor::Claude, model, Some("high"), None, None, None).unwrap()
}

fn meta_of(delegate: Delegate, config: &agentmux::config::Config) -> Meta {
    begin(
        RunId::parse("20231114T221320-0123456789ab").unwrap(),
        StartRequest {
            delegate,
            question: "Review the diff for correctness bugs.".to_owned(),
            cwd: "/work/project".to_owned(),
            retention: Retention::Ttl,
            env: TextMap::new(),
        },
        "/work/project".to_owned(),
        config,
        NOW,
    )
}

fn facts(events: Events, launched: bool, exit: Option<ExitRecord>) -> TurnFacts {
    TurnFacts {
        index: 0,
        question: "Review the diff for correctness bugs.".to_owned(),
        events,
        events_path: "/state/events.jsonl".to_owned(),
        launched,
        exit,
        resumed_from: None,
        window: None,
        recovered: None,
        last_message: None,
        last_write: None,
    }
}

fn finished() -> Option<ExitRecord> {
    Some(ExitRecord::Exited {
        status: Some(ExitStatus { code: Some(0), signal: None }),
        events_len: 0,
        stderr_tail: String::new(),
    })
}

/// Drive one consultation to a status and the whole of its transcript.
fn consult(meta: Meta, files: Vec<TurnFacts>) -> (RunStatus, TranscriptPage) {
    let store = RunStore::open(Platform::Unix, "/state", TextMap::new());
    let vendor = meta.delegate.vendor();
    let state = fold_run(&programs(), vendor, &files);
    let text = render_run(&programs(), &meta, &state.transcript);
    let status = describe(
        &store,
        &meta,
        &state,
        Reading {
            rendered_bytes: text.len() as u64,
            cost_usd: None,
            quota: Vec::new(),
            at: later(90),
        },
    );
    let page = store.page(&text, 0, 100_000);
    (status, page)
}

fn plain() -> agentmux::config::Config {
    agentmux::config::Config::empty(programs())
}

fn consult_codex(lines: Vec<CodexLine>) -> (RunStatus, TranscriptPage) {
    consult(meta_of(codex(), &plain()), vec![facts(Events::Codex(lines), true, finished())])
}

fn said(text: &str) -> CodexLine {
    CodexLine::ItemCompleted(Some(Item {
        kind: "agent_message".to_owned(),
        text: Some(text.to_owned()),
        message: None,
    }))
}

fn thread() -> CodexLine {
    CodexLine::ThreadStarted(Some("01a0".to_owned()))
}

fn failed(message: &str) -> CodexLine {
    CodexLine::TurnFailed(Some(message.to_owned()))
}

fn completed() -> CodexLine {
    CodexLine::TurnCompleted(Some(Some(CodexUsage {
        input_tokens: Some(1200),
        cached_input_tokens: None,
        cache_write_input_tokens: None,
        output_tokens: Some(34),
        reasoning_output_tokens: None,
    })))
}

fn happy() -> (RunStatus, TranscriptPage) {
    consult_codex(vec![thread(), said("the report"), completed()])
}

fn block(kind: &str, text: Option<&str>) -> ContentBlock {
    ContentBlock { kind: kind.to_owned(), text: text.map(str::to_owned) }
}

fn spoke(text: &str, model: Option<&str>) -> ClaudeLine {
    ClaudeLine::Assistant(Some(MessageEvent {
        content: Content::Blocks(vec![block("text", Some(text))]),
        model: model.map(str::to_owned),
        parent_tool_use_id: None,
    }))
}

fn session() -> ClaudeLine {
    ClaudeLine::System(Some(SystemEvent {
        subtype: Some("init".to_owned()),
        session_id: Some("s-1".to_owned()),
    }))
}

fn result(cost: Option<Cost>) -> ClaudeLine {
    ClaudeLine::Result(Some(ResultEvent {
        is_error: false,
        terminal_reason: None,
        api_error_status: None,
        result: Some("whatever came last".to_owned()),
        usage: None,
        total_cost_usd: cost,
    }))
}

fn consult_anthropic(lines: Vec<ClaudeLine>, model: &str) -> (RunStatus, TranscriptPage) {
    consult(
        meta_of(anthropic(model), &plain()),
        vec![facts(Events::Claude(lines), true, finished())],
    )
}

fn rate_limited(limit: Option<RateLimit>, quota: Vec<AccountQuota>) -> RunStatus {
    let (mut status, _) = consult_codex(vec![thread(), failed("rate limit reached")]);
    status.outcome = Outcome::Failed {
        kind: FailureKind::RateLimited,
        detail: "rate limit reached".to_owned(),
    };
    status.rate_limit = limit;
    status.quota = quota;
    status
}

fn window(seconds: i64, name: &str) -> Option<RateLimit> {
    Some(RateLimit { resets_at: later(seconds), window: Some(name.to_owned()) })
}

fn reported(vendor: Vendor, alias: &str, percent: i64) -> AccountQuota {
    AccountQuota {
        vendor,
        account: Some(AccountAlias::parse(alias).unwrap()),
        description: None,
        observation: Observation::Reported {
            origin: Origin::Live,
            payload: format!(
                "{{\"utilization\":{{\"limits\":[{{\"kind\":\"weekly_all\",\"percent\":{},\"severity\":\"normal\"}}]}}}}",
                percent
            ),
        },
    }
}

fn cached_with(refresh: Refresh) -> AccountQuota {
    AccountQuota {
        vendor: Vendor::Claude,
        account: None,
        description: None,
        observation: Observation::Reported {
            origin: Origin::Cache {
                path: "/home/dev/.usage.json".to_owned(),
                fetched_at_ms: None,
                refresh,
            },
            payload: "{\"utilization\":{\"limits\":[]}}".to_owned(),
        },
    }
}

fn transcript(status: &RunStatus, page: &TranscriptPage) -> String {
    render::transcript_at(&programs(), status, page, later(90))
}

fn warnings(status: &RunStatus) -> String {
    render::warnings_at(&programs(), status, NOW)
}

#[test]
fn a_content_flagged_failure_says_the_work_survived() {
    let (status, page) = consult_codex(vec![
        thread(),
        said("an hour of findings"),
        failed("ERROR: This content was flagged for possible cybersecurity risk"),
    ]);
    let rendered = transcript(&status, &page);
    let (header, body) = rendered.split_once("\n---\n").unwrap();
    assert!(header.contains("failed (content flagged)"));
    assert!(header.contains("did not discard the work"));
    assert!(header.contains("read them before retrying"));
    assert!(body.contains("an hour of findings"));
}

#[test]
fn an_unavailable_model_is_told_to_fix_the_model_not_to_wait() {
    let (status, page) = consult_codex(vec![
        thread(),
        failed("The 'gpt-9' model is not supported for this account"),
    ]);
    let rendered = transcript(&status, &page);
    assert!(rendered.contains("failed (model unavailable)"));
    assert!(rendered.contains("Correct `model` and try again"));
    assert_eq!(status.resumable, false);
    assert!(!rendered.contains("follow_up"));
}

#[test]
fn a_long_failure_detail_does_not_break_the_header() {
    let sprawling = "line one\nline two\n".repeat(60);
    let (status, page) = consult_codex(vec![thread(), failed(&sprawling)]);
    let rendered = transcript(&status, &page);
    let header = rendered.split("\n---\n").next().unwrap();
    for key in ["run_id:", "state:", "delegate:", "reading:", "transcript:", "bytes:"] {
        assert!(header.contains(key));
    }
    let state_line = header.lines().find(|l| l.starts_with("state:")).unwrap();
    assert!(state_line.chars().count() <= 220);
}

#[test]
fn the_hook_warning_lands_above_the_transcript() {
    let (status, page) = consult_anthropic(
        vec![
            session(),
            spoke("THE_REPORT_BODY", None),
            ClaudeLine::User(Some(MessageEvent {
                content: Content::Blocks(vec![block(
                    "text",
                    Some("Stop hook feedback: keep going"),
                )]),
                model: None,
                parent_tool_use_id: None,
            })),
            spoke("nothing more", None),
            result(None),
        ],
        &spelt("{cli}-opus-5"),
    );
    let rendered = transcript(&status, &page);
    let (header, body) = rendered.split_once("\n---\n").unwrap();
    assert!(header.contains("is NOT the answer"));
    assert!(body.contains("THE_REPORT_BODY"));
    assert_eq!(status.hook_reopening, Some(HookReopening::Unexpected));
}

#[test]
fn a_finished_consultation_names_the_next_call() {
    let (status, _) = happy();
    let rendered = render::status(&programs(), &status);
    let expected = format!("\"run_id\": \"{}\"", status.run_id.as_str());
    assert!(rendered.contains(&expected));
    assert!(rendered.contains("result {"));
    assert!(rendered.contains("follow_up {"));
}

#[test]
fn a_finished_transcript_offers_the_follow_up() {
    let (status, page) = happy();
    let rendered = transcript(&status, &page);
    assert!(rendered.contains("follow_up {"));
    assert!(rendered.contains(&format!("\"run_id\": \"{}\"", status.run_id.as_str())));
}

#[test]
fn a_running_consultation_hands_back_a_usable_cursor() {
    let (status, _) = consult(
        meta_of(codex(), &plain()),
        vec![facts(Events::Codex(vec![thread()]), true, None)],
    );
    let rendered = render::status_at(&programs(), &status, NOW);
    assert!(rendered.contains("Still working"));
    assert!(rendered.contains(&format!("\"cursor\": {}", status.transcript_bytes)));
    assert!(rendered.contains("cancel {"));
    assert!(!rendered.contains("follow_up"));
}

#[test]
fn no_rendered_result_names_an_answer_field() {
    let (status, page) = happy();
    for rendered in [
        render::status(&programs(), &status),
        render::transcript(&programs(), &status, &page),
        render::tail(&programs(), &status, &page),
    ] {
        for forbidden in ["final_message", "the answer is:", "summary:"] {
            assert!(!rendered.contains(forbidden));
        }
    }
}

#[test]
fn a_window_reopening_soon_advises_waiting_rather_than_switching() {
    let text = warnings(&rate_limited(window(240, "five_hour"), Vec::new()));
    assert!(text.contains("five_hour"));
    assert!(text.contains("wait_seconds"));
    assert!(!text.contains("other vendor"));
}

#[test]
fn a_window_hours_away_advises_switching_rather_than_waiting() {
    let text = warnings(&rate_limited(window(9 * 3600, "seven_day_overage_included"), Vec::new()));
    assert!(text.contains("seven_day_overage_included"));
    assert!(text.contains("other vendor"));
    assert!(!text.contains("wait_seconds"));
}

#[test]
fn a_rate_limit_without_a_window_still_advises_something_actionable() {
    let text = warnings(&rate_limited(None, Vec::new()));
    assert!(text.contains("rate limited"));
    assert!(text.contains("other vendor"));
}

#[test]
fn a_model_the_vendor_expanded_is_reported_beside_the_one_requested() {
    let (status, _) = consult_anthropic(
        vec![session(), spoke("done", Some(spelt("{cli}-sonnet-5").as_str())), result(None)],
        &spelt("{cli}-opus-5"),
    );
    let rendered = render::status(&programs(), &status);
    assert!(rendered.contains(&spelt("{cli}-opus-5")));
    assert!(rendered.contains(&spelt("answered by {cli}-sonnet-5")));
}

#[test]
fn a_model_this_machine_rewrote_is_named_beside_the_one_that_ran() {
    let mut config = plain();
    let mut rules: TextMap<String> = TextMap::new();
    rules.insert("sonnet", spelt("{cli}-opus-5"));
    config.models.insert(&cli(), rules);
    let (status, _) = consult(
        meta_of(anthropic("sonnet"), &config),
        vec![facts(
            Events::Claude(vec![session(), spoke("done", Some(spelt("{cli}-sonnet-5").as_str())), result(None)]),
            true,
            finished(),
        )],
    );
    let rendered = render::status(&programs(), &status);
    assert!(rendered.contains(&spelt("{cli} {cli}-opus-5")));
    assert!(rendered.contains("(asked for sonnet)"));
    assert!(rendered.contains(&spelt("answered by {cli}-sonnet-5")));
}

#[test]
fn a_model_that_matches_the_request_is_not_repeated() {
    let (status, _) = consult_anthropic(
        vec![session(), spoke("done", Some(spelt("{cli}-sonnet-5").as_str())), result(None)],
        &spelt("{cli}-sonnet-5"),
    );
    assert!(!render::status(&programs(), &status).contains("answered by"));
}

#[test]
fn cost_says_which_kind_of_number_it_is() {
    let (mut priced, _) =
        consult_anthropic(vec![session(), spoke("done", None), result(None)], &spelt("{cli}-opus-5"));
    priced.cost_usd = Some(Cost { bits: 0.25f64.to_bits(), text: "0.2500".to_owned() });
    let (unpriced, _) = happy();
    let priced = render::status(&programs(), &priced);
    let unpriced = render::status(&programs(), &unpriced);
    assert!(priced.contains("$0.2500 list price"));
    assert!(unpriced.contains("no cost reported"));
}

#[test]
fn an_unavailable_account_never_reads_as_spare_capacity() {
    let entry = AccountQuota {
        vendor: Vendor::Claude,
        account: None,
        description: None,
        observation: Observation::Unavailable { reason: "not logged in".to_owned() },
    };
    let rendered = render::quota_report(&programs(), &entry).join("\n");
    assert!(rendered.contains("unavailable"));
    assert!(rendered.contains("not idle"));
    assert!(!rendered.contains("%"));
    assert_eq!(
        rendered,
        spelt("{cli}  the CLI's own login\n  unavailable, which is not idle: not logged in")
    );
}

#[test]
fn nothing_rendered_recommends_an_account() {
    let rendered = render::quota_report(&programs(), &reported(Vendor::Claude, "main", 3))
        .join("\n")
        .to_lowercase();
    for verdict in ["best", "recommend", "use this", "most capacity", "prefer"] {
        assert!(!rendered.contains(verdict));
    }
}

#[test]
fn a_rate_limit_with_another_account_available_names_that_account() {
    let text = warnings(&rate_limited(
        window(9 * 3600, "seven_day"),
        vec![reported(Vendor::Codex, "personal", 11), reported(Vendor::Codex, "work", 99)],
    ));
    assert!(text.contains("personal"));
    assert!(text.contains("pass one as `account`"));
    assert!(!text.contains("waiting is not worth it"));
}

#[test]
fn a_rate_limit_with_no_alternative_still_advises_from_the_window() {
    assert!(warnings(&rate_limited(window(9 * 3600, "seven_day"), Vec::new()))
        .contains("other vendor"));
}

#[test]
fn a_reopened_window_is_retried_rather_than_routed_elsewhere() {
    let text = warnings(&rate_limited(
        window(-300, "five_hour"),
        vec![reported(Vendor::Codex, "personal", 11)],
    ));
    assert!(text.contains("already reopened"));
    assert!(!text.contains("Retry with a different"));
}

#[test]
fn a_window_reopening_soon_outranks_switching_account() {
    let text = warnings(&rate_limited(
        window(180, "five_hour"),
        vec![reported(Vendor::Codex, "personal", 11)],
    ));
    assert!(text.contains("wait_seconds"));
    assert!(!text.contains("Retry with a different"));
}

#[test]
fn a_reopened_turn_reads_as_expected_when_settings_were_inherited() {
    let (mut status, _) = happy();
    status.hook_reopening = Some(HookReopening::Expected);
    let inherited = warnings(&status);
    assert!(inherited.contains("expected because this run inherited"));
    assert!(!inherited.contains("should not be possible"));
    status.hook_reopening = Some(HookReopening::Unexpected);
    let isolated = warnings(&status);
    assert!(isolated.contains("should not be possible"));
    assert!(isolated.contains("NOT the answer"));
}

#[test]
fn the_advice_never_names_an_account_of_the_other_vendor() {
    let text = warnings(&rate_limited(
        window(9 * 3600, "seven_day"),
        vec![reported(Vendor::Claude, "other-vendor-account", 3)],
    ));
    assert!(!text.contains("other-vendor-account"));
    assert!(text.contains("other vendor"));
}

#[test]
fn a_refresh_that_did_not_happen_is_named_rather_than_implied() {
    let timed_out = render::quota_report(&programs(), &cached_with(Refresh::TimedOut)).join("\n");
    let failed = render::quota_report(
        &programs(),
        &cached_with(Refresh::Failed {
            reason: spelt("`{cli} --print /usage` exited with exit status: 1"),
        }),
    )
    .join("\n");
    assert!(timed_out.contains("timed out"));
    assert!(timed_out.contains("predate it"));
    assert!(failed.contains("refresh failed"));
    assert!(failed.contains("exit status: 1"));
}

#[test]
fn a_refresh_that_happened_says_so() {
    let refreshed = render::quota_report(&programs(), &cached_with(Refresh::Succeeded)).join("\n");
    let skipped = render::quota_report(&programs(), &cached_with(Refresh::Skipped)).join("\n");
    assert!(refreshed.contains("just refreshed"));
    assert!(skipped.contains("still inside the refresh window"));
}

#[test]
fn durations_are_told_in_the_largest_two_units() {
    assert_eq!(render::duration(Span { seconds: 45, nanos: 0 }), "45s");
    assert_eq!(render::duration(Span { seconds: 90, nanos: 0 }), "1m30s");
    assert_eq!(render::duration(Span { seconds: 3 * 3600 + 120, nanos: 0 }), "3h2m");
}

#[test]
fn a_window_is_told_with_its_reopening_time() {
    let limit = RateLimit { resets_at: later(90), window: None };
    assert_eq!(
        render::rate_limit_line_at(&limit, NOW),
        "usage window reopens in 1m30s (2023-11-14T22:14:50+00:00)"
    );
    assert_eq!(render::rate_limit_line_at(&limit, later(90)), "usage window has reopened");
    // The moment is the real one here, and that window closed years ago.
    assert_eq!(render::rate_limit_line(&limit), "usage window has reopened");
}

#[test]
fn the_header_reads_exactly() {
    let (status, page) = happy();
    let expected = format!(
        "run_id:     20231114T221320-0123456789ab\n\
         state:      completed\n\
         delegate:   codex gpt-6-astra effort=xhigh sandbox=read-only account=cli-default\n\
         reading:    /work/project\n\
         progress:   1m30s elapsed · 1 turn(s) · 1 message(s) · 1200 in / 34 out · no cost reported\n\
         transcript: /state/runs/20231114T221320-0123456789ab/transcript.md\n\
         bytes:      0-{} of {}\n",
        page.total_bytes, page.total_bytes
    );
    assert_eq!(
        render::header_at(&programs(), &status, Caller::Result, Some(&page), NOW),
        expected
    );
}

#[test]
fn a_page_that_is_not_the_last_names_the_next() {
    let (status, page) = happy();
    let cut = TranscriptPage {
        text: "half".to_owned(),
        offset: 0,
        next_offset: 4,
        total_bytes: page.total_bytes,
        at_end: false,
    };
    let whole = transcript(&status, &cut);
    assert!(whole.contains("more follows; call result with offset 4"));
    assert!(whole.contains("\"offset\": 4}"));
    let followed = render::tail_at(&programs(), &status, &cut, NOW);
    assert!(followed.contains("call tail again with cursor 4"));
    assert!(followed.contains("next_cursor: 4\n"));
    assert!(followed.ends_with("[more is already waiting; call tail again with next_cursor.]\n"));
}

#[test]
fn an_empty_tail_says_where_it_looked() {
    let (status, page) = happy();
    let nothing = TranscriptPage {
        text: String::new(),
        offset: page.total_bytes,
        next_offset: page.total_bytes,
        total_bytes: page.total_bytes,
        at_end: true,
    };
    assert!(render::tail_at(&programs(), &status, &nothing, NOW).ends_with(&format!(
        "No new output since byte {}. Call tail again with the cursor above.\n",
        page.total_bytes
    )));
}

#[test]
fn a_delegate_of_anthropics_is_told_to_read_instruction_files() {
    let (status, _) = consult_anthropic(
        vec![session(), spoke("done", None), result(None)],
        &spelt("{cli}-opus-5"),
    );
    assert_eq!(
        warnings(&status),
        spelt("note:       a {Cli} delegate also reads any {CLI}.md or AGENTS.md it finds at or \n            above /work/project. Those become part of its prompt and you did not write them.\n")
    );
    let (codex, _) = happy();
    assert_eq!(warnings(&codex), "");
}

#[test]
fn a_list_names_each_consultation() {
    assert_eq!(
        render::list(&Vec::new()),
        "no consultations yet. Start one with `ask`, or with `start` if it will take minutes."
    );
    let runs = vec![RunSummary {
        run_id: RunId::parse("one").unwrap(),
        delegate: "codex gpt-6-astra".to_owned(),
        outcome: Outcome::Running,
        created_at: NOW,
        question: "why?".to_owned(),
    }];
    assert_eq!(
        render::list(&runs),
        "one  running    2023-11-14T22:13:20+00:00\n    codex gpt-6-astra\n    why?\n"
    );
}

#[test]
fn every_account_of_a_report_stands_on_its_own() {
    let mut entry = reported(Vendor::Codex, "work", 5);
    entry.description = Some("the team plan".to_owned());
    let text = render::quota(&programs(), &vec![entry]);
    assert!(text.starts_with("codex  work — the team plan\n  read live from the vendor\n  {"));
    assert!(text.ends_with("}\n\n"));
}

#[test]
fn an_inherited_run_expects_its_hooks() {
    assert_eq!(HookReopening::of(false, Some(Isolation::Inherit)), None);
    assert_eq!(
        HookReopening::of(true, Some(Isolation::Inherit)),
        Some(HookReopening::Expected)
    );
    assert_eq!(HookReopening::of(true, None), Some(HookReopening::Unexpected));
}
