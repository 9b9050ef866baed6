//! Folding the vendors' event streams.

use agentmux::launch::{ExitStatus, Liveness};
use agentmux::ordered::TextMap;
use agentmux::stream::claude::{
    classify_injection, outcome_of, shape as claude_shape, ClaudeLine, ClaudeShape, ClaudeUsage,
    Content, ContentBlock, DelegateActivity, Injection, MessageEvent, RateLimitInfo, ResultEvent,
    SystemEvent,
};
use agentmux::stream::codex::{shape as codex_shape, CodexLine, CodexShape, CodexUsage, Item};
use agentmux::stream::{classify, complete_lines, fold, lines, Events, Fold};
use agentmux::testing::{RecordedLaunch, Script, ScriptedLauncher};
use agentmux::text::{clip, contains, has_word, number, pad_to, signed_number, single_line, trim};
use agentmux::time::Moment;
use agentmux::transcript::{
    render_turn, Cost, FailureKind, Message, MessageSource, Outcome, RateLimit, Role, Transcript,
    Turn, UnrecognisedEvents, Usage,
};

fn block(kind: &str, text: Option<&str>) -> ContentBlock {
    ContentBlock { kind: kind.to_owned(), text: text.map(str::to_owned) }
}

fn message(blocks: Vec<ContentBlock>) -> MessageEvent {
    MessageEvent { content: Content::Blocks(blocks), model: None, parent_tool_use_id: None }
}

fn spoke(text: &str) -> ClaudeLine {
    ClaudeLine::Assistant(Some(message(vec![block("text", Some(text))])))
}

fn injected(text: &str) -> ClaudeLine {
    ClaudeLine::User(Some(message(vec![block("text", Some(text))])))
}

fn ended(is_error: bool, reason: Option<&str>, status: Option<i64>, result: &str) -> ResultEvent {
    ResultEvent {
        is_error,
        terminal_reason: reason.map(str::to_owned),
        api_error_status: status,
        result: Some(result.to_owned()),
        usage: None,
        total_cost_usd: None,
    }
}

fn anthropic(lines: Vec<ClaudeLine>) -> Fold {
    fold(0, "why?", &Events::Claude(lines))
}

fn codex(lines: Vec<CodexLine>) -> Fold {
    fold(0, "why?", &Events::Codex(lines))
}

fn item(kind: &str, text: Option<&str>, message: Option<&str>) -> CodexLine {
    CodexLine::ItemCompleted(Some(Item {
        kind: kind.to_owned(),
        text: text.map(str::to_owned),
        message: message.map(str::to_owned),
    }))
}

fn counted(turn: &Turn) -> Vec<(String, u32)> {
    turn.unrecognised.iter()
}

#[test]
fn a_result_is_never_the_answer() {
    let fold = anthropic(vec![
        spoke("THE REPORT"),
        ClaudeLine::Result(Some(ended(false, None, None, "something else"))),
    ]);
    assert_eq!(fold.turn.messages.len(), 1);
    assert_eq!(fold.turn.messages[0].text, "THE REPORT");
    assert_eq!(fold.turn.outcome.state(), "completed");
}

#[test]
fn a_finished_turn_that_is_reopened_is_marked() {
    let fold = anthropic(vec![
        spoke("THE REPORT"),
        injected("anything at all"),
        spoke("ok"),
        ClaudeLine::Result(Some(ended(false, None, None, ""))),
    ]);
    assert!(fold.turn.was_reopened_by_hook());
    assert_eq!(fold.turn.messages[1].source, MessageSource::HookInjection);
    let whole = Transcript { turns: vec![fold.turn] };
    assert!(whole.was_reopened_by_hook());
    assert!(whole.has_delegate_content());
}

#[test]
fn context_during_a_tool_call_reopens_nothing() {
    let fold = anthropic(vec![
        ClaudeLine::Assistant(Some(message(vec![block("tool_use", None)]))),
        injected("be careful"),
    ]);
    assert!(!fold.turn.was_reopened_by_hook());
    assert_eq!(fold.turn.messages[0].source, MessageSource::HookContext);
    assert_eq!(
        classify_injection("hello", DelegateActivity::Silent),
        Injection::Nothing
    );
    assert_eq!(classify_injection("hello", DelegateActivity::Finished), Injection::Reopening);
}

#[test]
fn subagents_and_blanks_are_no_part_of_the_answer() {
    let mut inner = message(vec![block("text", Some("chatter"))]);
    inner.parent_tool_use_id = Some("t".to_owned());
    let fold = anthropic(vec![ClaudeLine::Assistant(Some(inner)), spoke("  \n")]);
    assert_eq!(fold.turn.messages.len(), 0);
}

#[test]
fn a_session_is_announced() {
    let fold = anthropic(vec![ClaudeLine::System(Some(SystemEvent {
        subtype: Some("init".to_owned()),
        session_id: Some("s-1".to_owned()),
    }))]);
    assert_eq!(fold.session.map(|s| s.as_str().to_owned()), Some("s-1".to_owned()));
}

#[test]
fn what_is_not_recognised_is_counted() {
    let fold = anthropic(vec![
        ClaudeLine::Malformed,
        ClaudeLine::Other("novel".to_owned()),
        ClaudeLine::Other("novel".to_owned()),
        ClaudeLine::Assistant(None),
    ]);
    assert_eq!(
        counted(&fold.turn),
        vec![
            ("<malformed-json-line>".to_owned(), 1),
            ("assistant.<unparsable>".to_owned(), 1),
            ("novel".to_owned(), 2),
        ]
    );
    assert_eq!(fold.turn.unrecognised.total(), 4);
    let fold = codex(vec![item("novel", None, None), CodexLine::Malformed]);
    assert_eq!(
        counted(&fold.turn),
        vec![("<malformed-json-line>".to_owned(), 1), ("item.completed.novel".to_owned(), 1)]
    );
}

#[test]
fn a_usage_window_is_kept_and_a_refusal_noted() {
    let fold = anthropic(vec![ClaudeLine::RateLimit(Some(RateLimitInfo {
        status: Some("rejected".to_owned()),
        resets_at: Some(1_700_000_000),
        rate_limit_type: Some("five_hour".to_owned()),
    }))]);
    assert_eq!(
        fold.turn.rate_limit,
        Some(RateLimit {
            resets_at: Moment { seconds: 1_700_000_000, nanos: 0 },
            window: Some("five_hour".to_owned())
        })
    );
    assert_eq!(
        fold.turn.messages[0].text,
        "delegate rate limit status: rejected; the five_hour window reopens at 2023-11-14T22:13:20+00:00"
    );
    let allowed = anthropic(vec![ClaudeLine::RateLimit(Some(RateLimitInfo {
        status: Some("allowed".to_owned()),
        resets_at: Some(i64::MAX),
        rate_limit_type: None,
    }))]);
    assert_eq!(allowed.turn.messages.len(), 0);
    assert_eq!(allowed.turn.rate_limit, None);
}

#[test]
fn a_failure_is_classified_by_status_then_reason_then_text() {
    let kind = |event: ResultEvent, reopened: bool| match outcome_of(&event, reopened) {
        Outcome::Failed { kind, detail } => (kind, detail),
        _ => panic!("not a failure"),
    };
    assert_eq!(kind(ended(true, None, Some(404), "x"), false).0, FailureKind::ModelUnavailable);
    assert_eq!(kind(ended(true, None, Some(429), "x"), false).0, FailureKind::RateLimited);
    assert_eq!(kind(ended(true, None, Some(402), "x"), false).0, FailureKind::BudgetExceeded);
    assert_eq!(kind(ended(true, Some("max_turns"), None, "x"), false).0, FailureKind::TurnLimit);
    assert_eq!(kind(ended(true, Some("refusal"), None, "x"), false).0, FailureKind::ContentFlagged);
    assert_eq!(
        kind(ended(true, Some("error"), None, "content policy"), false),
        (FailureKind::ContentFlagged, "error: content policy".to_owned())
    );
    // What a reopened turn said is no account of the failure.
    assert_eq!(
        kind(ended(true, Some("error"), None, "content policy"), true),
        (FailureKind::Unclassified, "error".to_owned())
    );
}

#[test]
fn failures_are_told_apart_by_their_words() {
    assert_eq!(classify("Rate limit reached"), FailureKind::RateLimited);
    assert_eq!(classify("HTTP 429"), FailureKind::RateLimited);
    assert_eq!(classify("port 4290 busy"), FailureKind::Unclassified);
    assert_eq!(classify("insufficient_quota"), FailureKind::BudgetExceeded);
    assert_eq!(classify("The model does not exist"), FailureKind::ModelUnavailable);
    assert_eq!(classify("model is fine"), FailureKind::Unclassified);
    assert_eq!(classify("hit max turns"), FailureKind::TurnLimit);
    assert_eq!(classify("a refusal"), FailureKind::ContentFlagged);
    assert_eq!(FailureKind::LaunchFailed.label(), "launch failed");
}

#[test]
fn tokens_are_told_in_the_same_terms() {
    let mut event = ended(false, None, None, "");
    event.usage = Some(ClaudeUsage {
        input_tokens: Some(1),
        output_tokens: Some(2),
        cache_read_input_tokens: Some(3),
        cache_creation_input_tokens: Some(4),
        thinking_tokens: Some(5),
    });
    event.total_cost_usd = Some(Cost { bits: 1.5f64.to_bits(), text: "1.5000".to_owned() });
    assert_eq!(
        outcome_of(&event, false),
        Outcome::Completed {
            usage: Usage {
                input_tokens: Some(1),
                cached_input_tokens: Some(3),
                cache_write_input_tokens: Some(4),
                output_tokens: Some(2),
                reasoning_output_tokens: Some(5),
            },
            cost_usd: Some(Cost { bits: 1.5f64.to_bits(), text: "1.5000".to_owned() }),
        }
    );
    let fold = codex(vec![CodexLine::TurnCompleted(Some(Some(CodexUsage {
        input_tokens: Some(7),
        cached_input_tokens: None,
        cache_write_input_tokens: None,
        output_tokens: Some(8),
        reasoning_output_tokens: None,
    })))]);
    let whole = Transcript { turns: vec![fold.turn] };
    assert_eq!(whole.usage().input_tokens, Some(7));
    assert_eq!(whole.outcome().state(), "completed");
}

#[test]
fn nothing_counts_behind_the_end() {
    let fold = codex(vec![
        item("agent_message", Some("a"), None),
        CodexLine::TurnFailed(Some("boom".to_owned())),
        item("agent_message", Some("b"), None),
        CodexLine::Malformed,
    ]);
    assert_eq!(fold.turn.messages.len(), 1);
    assert!(fold.turn.unrecognised.is_empty());
    assert_eq!(
        fold.turn.outcome,
        Outcome::Failed { kind: FailureKind::Unclassified, detail: "boom".to_owned() }
    );
}

#[test]
fn an_item_never_ends_a_turn() {
    let fold = codex(vec![
        item("error", None, Some("slow")),
        item("command_execution", None, None),
        item("agent_message", None, None),
    ]);
    assert_eq!(fold.turn.outcome, Outcome::Running);
    assert_eq!(fold.turn.messages[0].text, "delegate warning: slow");
    assert_eq!(counted(&fold.turn), vec![("item.completed.agent_message.text".to_owned(), 1)]);
    let failed = codex(vec![CodexLine::Error(None)]);
    assert_eq!(
        failed.turn.outcome,
        Outcome::Failed {
            kind: FailureKind::Unclassified,
            detail: "delegate reported an error".to_owned()
        }
    );
}

#[test]
fn an_event_is_read_by_its_type() {
    assert_eq!(codex_shape("item.updated"), CodexShape::Progress);
    assert_eq!(codex_shape("turn.failed"), CodexShape::TurnFailed);
    assert_eq!(codex_shape("novel"), CodexShape::Other);
    assert_eq!(claude_shape("rate_limit_event"), ClaudeShape::RateLimit);
    assert_eq!(claude_shape("result"), ClaudeShape::Result);
    assert_eq!(claude_shape("novel"), ClaudeShape::Other);
}

#[test]
fn a_half_written_line_is_no_line() {
    assert_eq!(complete_lines("one\n\n  two \nthr"), vec!["one", "two"]);
    assert_eq!(complete_lines("one\n\n  two \nthree\n"), vec!["one", "two", "three"]);
    assert_eq!(lines("a\r\nb\n\nc"), vec!["a", "b", "", "c"]);
}

#[test]
fn a_turn_renders_its_messages_then_its_end() {
    let fold = codex(vec![
        item("agent_message", Some("the report"), None),
        CodexLine::TurnCompleted(Some(None)),
    ]);
    let open = codex(vec![item("agent_message", Some("the report"), None)]);
    let closed = render_turn(&fold.turn);
    assert!(closed.starts_with(&render_turn(&open.turn)));
    assert!(closed.contains("the report"));
    assert!(closed.len() > render_turn(&open.turn).len());
}

#[test]
fn messages_know_where_they_came_from() {
    assert!(Message::delegate(Role::Assistant, "x").is_report_content());
    assert!(!Message::hook_injection("x").is_report_content());
    assert!(!Message::hook_context("x").is_report_content());
    assert!(!Message::synthetic("x").is_report_content());
    let mut turn = Turn::new(0, "q");
    turn.messages.push(Message::delegate(Role::Assistant, "the answer"));
    turn.messages.push(Message::synthetic("a note"));
    let whole = Transcript { turns: vec![turn] };
    assert_eq!(whole.final_message(), Some("the answer".to_owned()));
    assert_eq!(whole.messages().len(), 2);
    assert_eq!(whole.outcome(), Outcome::Running);
}

#[test]
fn an_earlier_failure_is_not_forgotten() {
    let mut first = Turn::new(0, "q");
    first.outcome = Outcome::Failed { kind: FailureKind::TurnLimit, detail: "x".to_owned() };
    let mut second = Turn::new(1, "q");
    second.outcome = Outcome::Completed { usage: Usage::default(), cost_usd: None };
    let whole = Transcript { turns: vec![first, second] };
    assert_eq!(whole.earlier_failure(), Some((0, FailureKind::TurnLimit)));
    assert_eq!(whole.outcome().state(), "completed");
}

#[test]
fn sightings_are_merged() {
    let mut a = UnrecognisedEvents::default();
    a.record("x");
    let mut b = UnrecognisedEvents::default();
    b.record("x");
    b.record("y");
    a.merge(&b);
    assert_eq!(a.iter(), vec![("x".to_owned(), 2), ("y".to_owned(), 1)]);
    assert!(a.summary().unwrap().contains("x"));
    assert_eq!(UnrecognisedEvents::default().summary(), None);
}

#[test]
fn a_window_counts_down() {
    let limit = RateLimit { resets_at: Moment { seconds: 100, nanos: 0 }, window: None };
    assert_eq!(
        limit.reopens_in(Moment { seconds: 40, nanos: 500_000_000 }).map(|s| (s.seconds, s.nanos)),
        Some((59, 500_000_000))
    );
    assert!(limit.reopens_in(Moment { seconds: 100, nanos: 0 }).is_none());
}

fn recorded() -> RecordedLaunch {
    RecordedLaunch {
        program: "codex".to_owned(),
        args: vec!["--model".to_owned(), "gpt-6".to_owned(), "-".to_owned()],
        env: TextMap::new(),
        cwd: "/work".to_owned(),
        events: "/e".to_owned(),
        question: "why?".to_owned(),
    }
}

#[test]
fn a_scripted_child_flushes_once_as_it_leaves() {
    let mut launcher = ScriptedLauncher::new(vec![
        Script::flushes_as_it_exits("a\n", "b\n"),
        Script::running("c\n"),
    ]);
    let (first, script) = launcher.launch(recorded());
    assert_eq!(script.events, "a\n");
    let seen = launcher.observe(first);
    assert_eq!(seen.flush, Some("b\n".to_owned()));
    assert_eq!(seen.liveness, Liveness::Gone);
    assert_eq!(seen.exit, Some(ExitStatus { code: Some(0), signal: None }));
    assert_eq!(launcher.observe(first).flush, None);
    let (second, _) = launcher.launch(recorded());
    assert_eq!(second.pid, first.pid + 1);
    assert_eq!(launcher.observe(second).liveness, Liveness::Alive);
    assert_eq!(launcher.terminate(second), None);
    assert_eq!(launcher.terminated(), &vec![second.pid]);
    let stopped = launcher.observe(second);
    assert_eq!(stopped.liveness, Liveness::Gone);
    assert_eq!(stopped.exit, Some(ExitStatus { code: None, signal: Some(15) }));
    assert_eq!(launcher.launches().len(), 2);
    assert!(launcher.launches()[0].has_flag_with("--model", "gpt-6"));
    assert!(!launcher.launches()[0].has_flag_with("--model", "-"));
    assert!(launcher.launches()[0].has_flag("-"));
}

#[test]
fn a_stopped_child_flushes_its_last_words() {
    let mut launcher = ScriptedLauncher::new(vec![Script::flushes_when_stopped("a\n", "b\n")]);
    let (child, _) = launcher.launch(recorded());
    assert_eq!(launcher.observe(child).flush, None);
    assert_eq!(launcher.kill(child), None);
    assert_eq!(launcher.killed(), &vec![child.pid]);
    assert_eq!(launcher.observe(child).flush, Some("b\n".to_owned()));
    assert_eq!(Script::exited("", "boom", 3).stderr, "boom");
    assert_eq!(Script::completed("x").exit, Some(ExitStatus { code: Some(0), signal: None }));
}

#[test]
fn texts_are_cut_and_padded_by_characters() {
    assert_eq!(clip("héllo", 5), "héllo");
    assert!(clip("héllo wörld", 5).chars().count() <= 6);
    assert_eq!(pad_to("é", 3), "é  ");
    assert_eq!(pad_to("long", 2), "long");
    assert_eq!(single_line(" a\n\tb  c "), "a b c");
    assert_eq!(trim("\u{2003} x \n"), "x");
    assert!(contains("abc", "bc"));
    assert!(!contains("abc", "cb"));
    assert!(has_word("a 429 b", "429"));
    assert!(!has_word("a4290", "429"));
    assert!(!has_word("é429", "429"));
    assert_eq!(number(u64::MAX), u64::MAX.to_string());
    assert_eq!(number(0), "0");
    assert_eq!(signed_number(i64::MIN), i64::MIN.to_string());
    assert_eq!(signed_number(-7), "-7");
}
