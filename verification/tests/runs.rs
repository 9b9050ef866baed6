//! The life of a consultation: its id, its files, its turns and its pages.

use agentmux::config::{Account, Config, Defaults, Platform};
use agentmux::delegate::{AccountAlias, Delegate, Isolation, Programs, SessionRef, Vendor};
use agentmux::launch::{
    delivery, launched, liveness_by_identity, next_ancestor, observed_exit, observed_liveness,
    refuse_working_directory, shim, Delivery, ExitStatus, GroupLookup, LaunchError, Launched,
    Liveness, Observed, ProcessLookup, Spawned,
};
use agentmux::ordered::TextMap;
use agentmux::path::DirEntry;
use agentmux::run::lifecycle::{
    begin, cancel_plan, claim_turn, expired, for_follow_up, is_published, next_index,
    refuse_removal, run_ids, stop_step, sweeps, turns_among, wait_step, wants_quota, CancelPlan,
    Claim, StopPhase, StopStep, TurnRecords, WaitStep, KILL_GRACE, MAX_POLL, MIN_POLL,
    TERMINATE_GRACE,
};
use agentmux::run::paging::{complete_records, first_line, page_of, tail_of, text_of_bytes};
use agentmux::run::settle::{
    departure_record, died_without_saying_so, fold_run, fold_turn, has_departed, next_look,
    recover_from_last_message, render, resumable_session, wants_rollout, ExitRecord, Look,
    TurnFacts,
};
use agentmux::run::status::{elapsed_since, recent, summarise_run};
use agentmux::run::{
    pin_defaults, ChildRecord, Meta, NotResumable, Retention, RunError, RunId, RunIdError,
    RunStore, StartRequest,
};
use agentmux::stream::codex::{CodexLine, Item};
use agentmux::stream::Events;
use agentmux::time::{Moment, Span};
use agentmux::transcript::{FailureKind, Outcome, Transcript, Turn, Usage};

const NOW: Moment = Moment { seconds: 1_700_000_000, nanos: 0 };

/// What Anthropic's CLI is called: the vendor's own name, as it is typed.
fn cli() -> String {
    format!("{:?}", Vendor::Claude).to_lowercase()
}

/// A text with the name of Anthropic's CLI filled in.
fn spelt(text: &str) -> String {
    let name = cli();
    let capital = format!("{}{}", name[..1].to_uppercase(), &name[1..]);
    text.replace("{cli}", &name)
        .replace("{Cli}", &capital)
        .replace("{CLI}", &name.to_uppercase())
}

fn programs() -> Programs {
    Programs::installed()
}

fn at(seconds: i64) -> Moment {
    Moment { seconds: NOW.seconds + seconds, nanos: 0 }
}

fn codex() -> Delegate {
    Delegate::from_parts(Vendor::Codex, "gpt-6", None, None, None, None).unwrap()
}

fn id(text: &str) -> RunId {
    RunId::parse(text).unwrap()
}

fn meta(run_id: &str, created_at: Moment, retention: Retention) -> Meta {
    Meta {
        run_id: id(run_id),
        delegate: codex(),
        requested_model: None,
        cwd: "/work".to_owned(),
        retention,
        created_at,
        env: TextMap::new(),
    }
}

fn env(pairs: &[(&str, &str)]) -> TextMap<String> {
    let mut map: TextMap<String> = TextMap::new();
    for (name, value) in pairs {
        map.insert(name, (*value).to_owned());
    }
    map
}

fn said(text: &str) -> CodexLine {
    CodexLine::ItemCompleted(Some(Item {
        kind: "agent_message".to_owned(),
        text: Some(text.to_owned()),
        message: None,
    }))
}

fn thread() -> CodexLine {
    CodexLine::ThreadStarted(Some("01a0".to_owned()))
}

fn done() -> CodexLine {
    CodexLine::TurnCompleted(Some(None))
}

fn facts(index: u32, lines: Vec<CodexLine>, exit: Option<ExitRecord>) -> TurnFacts {
    TurnFacts {
        index,
        question: "why?".to_owned(),
        events: Events::Codex(lines),
        events_path: "/state/events.jsonl".to_owned(),
        launched: true,
        exit,
        resumed_from: None,
        window: None,
        recovered: None,
        last_message: None,
        last_write: None,
    }
}

fn exited(code: i32, stderr: &str) -> ExitRecord {
    ExitRecord::Exited {
        status: Some(ExitStatus { code: Some(code), signal: None }),
        events_len: 0,
        stderr_tail: stderr.to_owned(),
    }
}

fn child(liveness: Liveness, settled: bool) -> ChildRecord {
    ChildRecord {
        launched: Launched { pid: 77, process_group: None, started: Some(5) },
        settled,
        reaped: false,
        liveness,
    }
}

fn failed() -> Outcome {
    Outcome::Failed { kind: FailureKind::Unclassified, detail: "x".to_owned() }
}

#[test]
fn an_id_is_never_a_path() {
    assert!(RunId::parse("20231114T221320-abc").is_ok());
    for bad in ["", "../x", "a/b", "a.b", "a_b", "é"] {
        assert_eq!(RunId::parse(bad), Err(RunIdError { value: bad.to_owned() }), "{bad}");
    }
    assert!(RunId::parse(&"a".repeat(64)).is_ok());
    assert_eq!(
        RunId::parse(&"a".repeat(65)).unwrap_err().message(),
        format!(
            "invalid consultation id \"{}\": ids are 1-64 characters of [0-9A-Za-z-]",
            "a".repeat(65)
        )
    );
}

#[test]
fn a_fresh_id_sorts_by_time_and_is_not_repeated() {
    let a = RunId::generate();
    let b = RunId::generate();
    assert!(a != b);
    let text = a.as_str();
    assert_eq!(&text[8..9], "T");
    assert_eq!(&text[15..16], "-");
    assert!(text[..8].chars().all(|c| c.is_ascii_digit()));
    assert!(&text[..4] >= "2024");
    assert!(text[16..].chars().all(|c| c.is_ascii_hexdigit()));
    assert!(RunId::parse(text).is_ok());
}

#[test]
fn the_files_of_a_run_stay_in_its_directory() {
    let store = RunStore::open(Platform::Unix, "/state", env(&[]));
    let run = id("abc");
    assert_eq!(store.runs_dir(), "/state/runs");
    assert_eq!(store.run_dir(&run), "/state/runs/abc");
    assert_eq!(store.lock_path(&run), "/state/runs/abc.lock");
    assert_eq!(store.meta_path(&run), "/state/runs/abc/meta.json");
    assert_eq!(store.transcript_path(&run), "/state/runs/abc/transcript.md");
    let turn = store.turn_dir(&run, 7);
    assert!(turn.root.starts_with("/state/runs/abc/turns/"));
    assert!(turn.events().ends_with("/events.jsonl"));
    assert!(turn.question().starts_with(&turn.root));
}

#[test]
fn a_state_directory_is_named_or_the_platforms() {
    assert_eq!(
        RunStore::default_root(&env(&[("AGENTMUX_STATE_DIR", "/s")]), Some("/p")).unwrap(),
        "/s"
    );
    assert_eq!(
        RunStore::default_root(&env(&[("AGENTMUX_STATE_DIR", "")]), Some("/p")).unwrap(),
        "/p"
    );
    assert_eq!(
        RunStore::default_root(&env(&[]), None).unwrap_err().message(&programs()),
        "cannot locate a state directory; set AGENTMUX_STATE_DIR"
    );
}

#[test]
fn a_denied_vendor_is_not_launched() {
    let store = RunStore::open(Platform::Unix, "/state", env(&[]))
        .with_denied_vendors(&vec![Vendor::Claude]);
    assert_eq!(store.denied_vendors(), vec![Vendor::Claude]);
    assert!(store.refuse_to_spawn(Vendor::Codex, false).is_ok());
    let refusal = store.refuse_to_spawn(Vendor::Claude, false).unwrap_err();
    assert!(refusal
        .message(&programs())
        .starts_with(&spelt("this agentmux server does not launch `{cli}` delegates: it was started with `--deny {cli}`")));
    assert_eq!(store.refuse_to_spawn(Vendor::Codex, true), Err(RunError::Recursive));
    assert_eq!(RunStore::refuse_to_serve(true), Err(RunError::Recursive));
    assert_eq!(RunStore::refuse_to_serve(false), Ok(()));
}

#[test]
fn a_delegate_is_known_by_its_marker_or_its_ancestors() {
    let unreadable = || Err(RunError::NoStateDir);
    let alive = || Ok(vec![child(Liveness::Alive, false)]);
    let marked = RunStore::open(Platform::Unix, "/s", env(&[("AGENTMUX_DELEGATE", "1")]));
    assert!(marked.marked_by_a_delegate());
    assert_eq!(marked.running_inside_a_delegate(None, &Vec::new(), Vec::new()), Ok(true));
    assert_eq!(marked.running_inside_a_delegate(None, &vec![77], vec![unreadable()]), Ok(true));
    let store = RunStore::open(Platform::Unix, "/s", env(&[("AGENTMUX_DELEGATE", "")]));
    assert!(!store.marked_by_a_delegate());
    let ask = |above: u32, looked| store.running_inside_a_delegate(None, &vec![above], looked);
    assert_eq!(ask(77, Vec::new()), Ok(false));
    assert_eq!(ask(77, vec![alive()]), Ok(true));
    assert_eq!(ask(77, vec![Ok(Vec::new()), alive()]), Ok(true));
    assert_eq!(ask(77, vec![Ok(vec![child(Liveness::Gone, false)])]), Ok(false));
    assert_eq!(ask(77, vec![Ok(vec![child(Liveness::Alive, true)])]), Ok(false));
    assert_eq!(ask(78, vec![alive()]), Ok(false));
}

#[test]
fn an_unreadable_record_is_a_failure_unless_a_live_ancestor_came_first() {
    let unreadable = || Err(RunError::NoStateDir);
    let alive = || Ok(vec![child(Liveness::Alive, false)]);
    let store = RunStore::open(Platform::Unix, "/s", env(&[]));
    let ask = |known, looked| store.running_inside_a_delegate(known, &vec![77], looked);
    assert_eq!(ask(None, vec![unreadable()]), Err(RunError::NoStateDir));
    assert_eq!(ask(None, vec![unreadable(), alive()]), Err(RunError::NoStateDir));
    assert_eq!(ask(None, vec![alive(), unreadable()]), Ok(true));
    assert_eq!(
        store.running_inside_a_delegate(None, &Vec::new(), vec![unreadable()]),
        Ok(false)
    );
    assert_eq!(ask(Some(false), vec![alive()]), Ok(false));
    assert_eq!(ask(Some(true), vec![unreadable()]), Ok(true));
}

#[test]
fn a_store_on_windows_speaks_of_windows_paths() {
    let store = RunStore::open(Platform::Windows, "C:\\state", env(&[]));
    let id = RunId::parse("20231114T221320-0123456789ab").unwrap();
    assert_eq!(store.run_dir(&id), "C:\\state\\runs\\20231114T221320-0123456789ab");
    assert_eq!(
        store.turn_dir(&id, 2).events(),
        "C:\\state\\runs\\20231114T221320-0123456789ab\\turns\\0002\\events.jsonl"
    );
}

#[test]
fn what_is_decided_at_the_start_is_pinned() {
    let mut config = Config::empty(programs());
    let mut rules: TextMap<String> = TextMap::new();
    rules.insert("gpt-6", "gpt-7".to_owned());
    config.models.insert("codex", rules);
    let mut efforts: TextMap<String> = TextMap::new();
    efforts.insert("gpt-7", "low".to_owned());
    config.efforts.insert("codex", efforts);
    config.defaults.insert("codex", Defaults { account: Some("work".to_owned()) });
    // A default the configuration does not define is left for the launch to report.
    assert!(pin_defaults(&codex(), &config).0.account().is_none());
    let mut accounts: TextMap<Account> = TextMap::new();
    accounts.insert(
        "work",
        Account { base_url: Some("https://x".to_owned()), ..Account::default() },
    );
    config.accounts.insert("codex", accounts);
    let (pinned, asked) = pin_defaults(&codex(), &config);
    assert_eq!(pinned.model().as_str(), "gpt-7");
    assert_eq!(asked.map(|m| m.as_str().to_owned()), Some("gpt-6".to_owned()));
    assert_eq!(pinned.effort().map(|e| e.as_str().to_owned()), Some("low".to_owned()));
    assert_eq!(pinned.account().map(|a: &AccountAlias| a.as_str().to_owned()), Some("work".to_owned()));
    assert_eq!(pinned.isolation(), Some(Isolation::Isolated));
    let (again, none) = pin_defaults(&pinned, &config);
    assert_eq!(again.model().as_str(), "gpt-7");
    assert!(none.is_none());
    let meta = begin(
        id("abc"),
        StartRequest {
            delegate: codex(),
            question: "why?".to_owned(),
            cwd: "/asked".to_owned(),
            retention: Retention::UntilReleased,
            env: TextMap::new(),
        },
        "/resolved".to_owned(),
        &config,
        NOW,
    );
    assert_eq!(meta.cwd, "/resolved");
    assert_eq!(meta.retention, Retention::UntilReleased);
    assert_eq!(meta.delegate.model().as_str(), "gpt-7");
}

#[test]
fn a_follow_up_keeps_the_delegate() {
    let again = for_follow_up(codex().with_isolation(Isolation::Inherit));
    assert_eq!(again.isolation(), Some(Isolation::Inherit));
    assert_eq!(again.model().as_str(), "gpt-6");
}

#[test]
fn a_turn_is_claimed_once() {
    assert_eq!(claim_turn(&id("a"), 1, false, false, false), Ok(Claim::Fresh));
    assert_eq!(claim_turn(&id("a"), 1, true, false, false), Ok(Claim::TakeOver));
    assert_eq!(
        claim_turn(&id("a"), 1, true, true, false).unwrap_err().message(&programs()),
        "consultation a already has a turn 1, started by another caller. Only one follow-up can be outstanding at a time; read the consultation again with `result`."
    );
    assert_eq!(next_index(&Transcript { turns: Vec::new() }), 0);
    assert_eq!(
        next_index(&Transcript { turns: vec![Turn::new(0, "q"), Turn::new(1, "r")] }),
        2
    );
}

#[test]
fn a_finished_turn_reads_as_finished() {
    let settled =
        fold_turn(&programs(), Vendor::Codex, &facts(0, vec![thread(), said("a"), done()], None), true);
    assert!(settled.turn.outcome.is_terminal());
    assert_eq!(settled.session.map(|s| s.as_str().to_owned()), Some("01a0".to_owned()));
}

#[test]
fn the_stream_outranks_the_exit_record() {
    let settled = fold_turn(
        &programs(),
        Vendor::Codex,
        &facts(0, vec![thread(), done()], Some(ExitRecord::Cancelled { events_len: 0 })),
        true,
    );
    assert_eq!(settled.turn.outcome.state(), "completed");
}

#[test]
fn a_silent_death_says_what_stderr_said() {
    assert_eq!(
        died_without_saying_so(
            &programs(),
            ExitStatus { code: Some(1), signal: None },
            " boom \n",
            Vendor::Codex,
            "/e"
        ),
        Outcome::Failed {
            kind: FailureKind::LaunchFailed,
            detail: "the codex CLI exited with ExitStatus { code: Some(1), signal: None }: boom"
                .to_owned()
        }
    );
    assert_eq!(
        died_without_saying_so(
            &programs(),
            ExitStatus { code: Some(0), signal: None },
            "",
            Vendor::Claude,
            "/e"
        ),
        Outcome::Failed {
            kind: FailureKind::Unclassified,
            detail: spelt("the {cli} CLI exited successfully but its event stream carried no completion event. Its output format may have changed; the raw stream is at /e")
        }
    );
    let settled = fold_turn(
        &programs(),
        Vendor::Codex,
        &facts(0, vec![thread(), said("work")], Some(exited(2, "rate limit reached"))),
        true,
    );
    // The work that arrived is kept, and the failure is classified from what was said.
    assert_eq!(settled.turn.messages.len(), 1);
    assert!(matches!(
        settled.turn.outcome,
        Outcome::Failed { kind: FailureKind::RateLimited, .. }
    ));
}

#[test]
fn a_departure_is_recorded_once_the_child_has_gone() {
    assert!(has_departed(None, Liveness::Gone));
    assert!(!has_departed(None, Liveness::Unknown));
    assert!(has_departed(Some(ExitStatus { code: Some(0), signal: None }), Liveness::Alive));
    assert_eq!(
        departure_record(true, None, 9, "x"),
        ExitRecord::Cancelled { events_len: 9 }
    );
    let long = "é".repeat(1500);
    match departure_record(false, None, 9, &long) {
        ExitRecord::Exited { stderr_tail, events_len, .. } => {
            assert_eq!(events_len, 9);
            assert_eq!(stderr_tail.len(), 2000);
        }
        ExitRecord::Cancelled { .. } => panic!("cancelled"),
    }
    let running = Turn::new(0, "q");
    assert_eq!(next_look(&running, false, true), Look::Child);
    assert_eq!(next_look(&running, true, true), Look::Nothing);
    assert_eq!(next_look(&running, false, false), Look::Nothing);
}

#[test]
fn a_closing_message_is_recovered_once() {
    let mut turn = Turn::new(0, "q");
    turn.outcome = failed();
    let kept = Some("kept".to_owned());
    let last = Some("last".to_owned());
    assert_eq!(recover_from_last_message(&turn, true, &None, &last), last);
    assert_eq!(recover_from_last_message(&turn, false, &None, &last), None);
    assert_eq!(recover_from_last_message(&turn, false, &kept, &last), kept);
    assert_eq!(recover_from_last_message(&turn, true, &None, &Some(" \n".to_owned())), None);
    turn.outcome = Outcome::Running;
    assert_eq!(recover_from_last_message(&turn, true, &kept, &last), None);
    assert!(!wants_rollout(Vendor::Codex, &turn, &SessionRef::parse("s").ok()));
    turn.outcome = failed();
    assert!(wants_rollout(Vendor::Codex, &turn, &SessionRef::parse("s").ok()));
    assert!(!wants_rollout(Vendor::Claude, &turn, &SessionRef::parse("s").ok()));
    assert!(!wants_rollout(Vendor::Codex, &turn, &None));
}

#[test]
fn a_session_is_resumed_only_where_it_would_work() {
    let fold = |lines: Vec<CodexLine>, exit: Option<ExitRecord>| {
        fold_run(&programs(), Vendor::Codex, &vec![facts(0, lines, exit)])
    };
    let ok = fold(vec![thread(), said("a"), done()], None);
    assert_eq!(resumable_session(&id("a"), &ok).unwrap().as_str(), "01a0");
    let running = fold(vec![thread(), said("a")], None);
    assert_eq!(
        resumable_session(&id("a"), &running),
        Err(NotResumable::StillRunning { run_id: id("a") })
    );
    let nameless = fold(vec![said("a"), done()], None);
    assert_eq!(
        resumable_session(&id("a"), &nameless),
        Err(NotResumable::NoSession { run_id: id("a") })
    );
    let silent = fold(vec![thread(), done()], None);
    assert!(matches!(
        resumable_session(&id("a"), &silent),
        Err(NotResumable::NothingSaid { .. })
    ));
    let stopped =
        fold(vec![thread(), said("a")], Some(ExitRecord::Cancelled { events_len: 0 }));
    let refusal = resumable_session(&id("a"), &stopped).unwrap_err();
    assert_eq!(refusal, NotResumable::Cancelled { run_id: id("a") });
    assert!(refusal.message().starts_with("consultation a was cancelled, so its delegate was"));
}

#[test]
fn a_transcript_only_grows() {
    let meta = meta("abc", NOW, Retention::Ttl);
    let early = fold_run(&programs(), Vendor::Codex, &vec![facts(0, vec![thread(), said("a")], None)]);
    let late = fold_run(
        &programs(),
        Vendor::Codex,
        &vec![
            facts(0, vec![thread(), said("a"), said("b"), done()], None),
            facts(1, vec![thread(), said("c"), done()], None),
        ],
    );
    let before = render(&programs(), &meta, &early.transcript);
    let after = render(&programs(), &meta, &late.transcript);
    assert!(before.starts_with("# Consultation abc\n\n- delegate: codex gpt-6 effort=cli-default"));
    assert!(after.starts_with(&before));
    assert!(after.len() > before.len());
}

#[test]
fn pages_cover_a_transcript_and_split_no_character() {
    let full = "aé€\u{1F600}b".repeat(7);
    let mut offset = 0;
    let mut whole = String::new();
    loop {
        let page = page_of(&full, offset, 3);
        assert_eq!(page.offset, offset);
        assert!(page.next_offset > offset || page.at_end);
        whole.push_str(&page.text);
        offset = page.next_offset;
        if page.at_end {
            break;
        }
    }
    assert_eq!(whole, full);
    let beyond = page_of("abc", 99, 10);
    assert_eq!((beyond.text.as_str(), beyond.at_end), ("", true));
}

#[test]
fn a_page_outlives_what_is_appended() {
    let early = page_of("hello wor", 0, 5);
    let late = page_of("hello world, and more", 0, 5);
    assert_eq!(early.text, late.text);
    assert_eq!(early.next_offset, late.next_offset);
}

#[test]
fn only_complete_records_are_read() {
    let capture = b"one\ntwo\nthr".to_vec();
    assert_eq!(complete_records(&capture, None), ("one\ntwo\n".to_owned(), 8));
    assert_eq!(complete_records(&capture, Some(4)), ("one\n".to_owned(), 4));
    assert_eq!(complete_records(&capture, Some(5)), ("one\n".to_owned(), 4));
    let mut grown = capture.clone();
    grown.extend_from_slice(b"ee\n");
    assert_eq!(complete_records(&grown, Some(8)), complete_records(&capture, None));
    assert_eq!(text_of_bytes(&vec![b'a', 0xFF, b'b']), "a\u{FFFD}b");
    assert_eq!(tail_of("abcé", 3), "cé");
    assert_eq!(tail_of("abcé", 1), "é");
    assert_eq!(first_line("\n  \n  the first line \nmore", 120), "the first line");
}

#[test]
fn a_run_is_swept_only_when_it_is_old_over_and_alone() {
    let day = 86_400;
    let old = meta("a", NOW, Retention::Ttl);
    assert!(!sweeps(&old, None, at(day - 1), &None, &Vec::new()));
    assert!(sweeps(&old, None, at(day), &None, &Vec::new()));
    assert!(!sweeps(&old, Some(at(10)), at(day), &None, &Vec::new()));
    assert!(!sweeps(&old, None, at(day), &Some(Outcome::Running), &Vec::new()));
    assert!(sweeps(&old, None, at(day), &Some(failed()), &Vec::new()));
    assert!(!sweeps(&old, None, at(day), &Some(failed()), &vec![child(Liveness::Alive, false)]));
    let kept = meta("a", NOW, Retention::UntilReleased);
    assert!(!sweeps(&kept, None, at(10 * day), &Some(failed()), &Vec::new()));
    assert!(!expired(Retention::UntilReleased, NOW, None, at(10 * day)));
}

#[test]
fn a_running_consultation_is_not_removed() {
    assert!(refuse_removal(&id("a"), &Some(failed()), &Vec::new()).is_ok());
    assert_eq!(
        refuse_removal(&id("a"), &Some(Outcome::Running), &Vec::new())
            .unwrap_err()
            .message(&programs()),
        "consultation a is still running. Wait for it with `result`, or `cancel` it first."
    );
}

#[test]
fn a_cancellation_is_marked_before_anything_is_stopped() {
    assert_eq!(
        cancel_plan(Some(&Outcome::Running), true),
        CancelPlan { mark: true, stop: true }
    );
    assert_eq!(cancel_plan(Some(&failed()), true), CancelPlan { mark: false, stop: true });
    assert_eq!(cancel_plan(None, true), CancelPlan { mark: false, stop: false });
}

#[test]
fn a_child_is_asked_before_it_is_killed() {
    assert_eq!(stop_step(StopPhase::Asked, None, Liveness::Alive, 0), StopStep::LookAgain);
    assert_eq!(
        stop_step(StopPhase::Asked, None, Liveness::Alive, TERMINATE_GRACE),
        StopStep::Kill
    );
    assert_eq!(stop_step(StopPhase::Killed, None, Liveness::Alive, KILL_GRACE), StopStep::Done);
    assert_eq!(stop_step(StopPhase::Asked, None, Liveness::Unknown, 0), StopStep::Done);
}

#[test]
fn a_wait_backs_off_and_ends() {
    assert_eq!(
        wait_step(Some(&Outcome::Running), None, MIN_POLL),
        Some(WaitStep { sleep: MIN_POLL, next: 2 * MIN_POLL })
    );
    assert_eq!(
        wait_step(Some(&Outcome::Running), Some(5), MAX_POLL),
        Some(WaitStep { sleep: 5, next: MAX_POLL })
    );
    assert_eq!(wait_step(Some(&Outcome::Running), Some(0), MIN_POLL), None);
    assert_eq!(wait_step(Some(&failed()), None, MIN_POLL), None);
    assert_eq!(wait_step(None, None, MIN_POLL), None);
}

#[test]
fn the_clock_stops_with_the_last_sign_of_life() {
    assert_eq!(elapsed_since(NOW, false, Some(at(5)), at(90)), Span { seconds: 90, nanos: 0 });
    assert_eq!(elapsed_since(NOW, true, Some(at(5)), at(90)), Span { seconds: 5, nanos: 0 });
    assert_eq!(elapsed_since(NOW, false, None, at(-5)), Span { seconds: 0, nanos: 0 });
}

#[test]
fn recent_consultations_come_newest_first() {
    let listed = recent(
        vec![
            meta("a", at(1), Retention::Ttl),
            meta("b", at(3), Retention::Ttl),
            meta("c", at(3), Retention::Ttl),
            meta("d", at(2), Retention::Ttl),
        ],
        3,
    );
    let ids: Vec<&str> = listed.iter().map(|m| m.run_id.as_str()).collect();
    assert_eq!(ids, vec!["c", "b", "d"]);
    let summary = summarise_run(&programs(), &listed[0], None, Some("\nfirst\nsecond"));
    assert_eq!(summary.question, "first");
    assert_eq!(summary.outcome.state(), "running");
    assert_eq!(summary.delegate, "codex gpt-6 effort=cli-default sandbox=read-only account=cli-default");
}

#[test]
fn only_directories_that_are_ids_are_runs() {
    let entries = vec![
        DirEntry { name: "abc".to_owned(), is_dir: true },
        DirEntry { name: "abc.lock".to_owned(), is_dir: false },
        DirEntry { name: "..".to_owned(), is_dir: true },
        DirEntry { name: "def".to_owned(), is_dir: false },
    ];
    let ids: Vec<String> = run_ids(&entries).iter().map(|r| r.as_str().to_owned()).collect();
    assert_eq!(ids, vec!["abc"]);
    assert_eq!(
        turns_among(&vec![
            TurnRecords { launch: true, exit: false },
            TurnRecords { launch: false, exit: true },
            TurnRecords { launch: false, exit: false },
        ]),
        2
    );
}

#[test]
fn figures_are_wanted_only_after_a_rate_limit() {
    assert!(wants_quota(&Outcome::Failed {
        kind: FailureKind::RateLimited,
        detail: String::new()
    }));
    assert!(!wants_quota(&failed()));
    assert!(!wants_quota(&Outcome::Completed { usage: Usage::default(), cost_usd: None }));
}

#[test]
fn a_published_transcript_never_goes_back() {
    assert!(is_published("abc", "abc"));
    assert!(is_published("abcd", "abc"));
    assert!(!is_published("ab", "abc"));
}

#[test]
fn a_recycled_pid_is_not_a_child() {
    let ours = Launched { pid: 9, process_group: Some(9), started: Some(100) };
    let found = |start_time, exited| ProcessLookup::Present {
        exited,
        start_time,
        group: GroupLookup::Group(9),
    };
    assert_eq!(liveness_by_identity(ours, found(100, false)), Liveness::Alive);
    assert_eq!(liveness_by_identity(ours, found(101, false)), Liveness::Gone);
    assert_eq!(liveness_by_identity(ours, found(100, true)), Liveness::Gone);
    assert_eq!(liveness_by_identity(ours, ProcessLookup::Unsupported), Liveness::Unknown);
    let undated = Launched { started: None, ..ours };
    assert_eq!(liveness_by_identity(undated, found(7, false)), Liveness::Alive);
    assert_eq!(
        liveness_by_identity(
            undated,
            ProcessLookup::Present { exited: false, start_time: 7, group: GroupLookup::Group(8) }
        ),
        Liveness::Gone
    );
}

#[test]
fn a_handle_decides_where_it_can() {
    let status = ExitStatus::from(3);
    assert_eq!(status, ExitStatus { code: Some(3), signal: None });
    assert_eq!(observed_liveness(Some(Observed::Running)), Some(Liveness::Alive));
    assert_eq!(observed_liveness(Some(Observed::Unobservable)), None);
    assert_eq!(observed_exit(Some(Observed::Finished(status))), Some(status));
    assert_eq!(delivery(Some(Observed::Finished(status))), Delivery::Nobody);
    assert_eq!(delivery(None), Delivery::ByIdentity);
    assert!(!status.is_success());
    assert_eq!(status.fields(), "ExitStatus { code: Some(3), signal: None }");
}

#[test]
fn a_walk_up_the_process_tree_ends() {
    assert_eq!(next_ancestor(&vec![5], 5, Some(4)), Some(4));
    assert_eq!(next_ancestor(&vec![5], 5, Some(1)), None);
    assert_eq!(next_ancestor(&vec![5, 4], 4, Some(5)), None);
    assert_eq!(next_ancestor(&(100..132).collect(), 5, Some(4)), None);
    assert_eq!(next_ancestor(&Vec::new(), 5, None), None);
}

#[test]
fn every_failed_operation_says_what_to_do() {
    let text = |error: RunError| error.message(&programs());
    assert_eq!(
        text(RunError::NotFound(id("a"))),
        "no consultation with id a; call `list` to see recent ids"
    );
    assert!(text(RunError::BadRunId(RunIdError { value: "..".to_owned() })).contains("\"..\""));
    assert!(text(RunError::Recursive).starts_with("this agentmux is itself running inside"));
    assert_eq!(
        text(RunError::Io { context: "reading".to_owned(), source: "gone".to_owned() }),
        "reading: gone"
    );
    assert_eq!(
        text(RunError::Corrupt { run_id: id("a"), source: "eof".to_owned() }),
        "consultation a has unreadable metadata: eof"
    );
    assert_eq!(
        text(RunError::CorruptRecord { path: "/p".to_owned(), source: "eof".to_owned() }),
        "the record at /p cannot be parsed: eof"
    );
    assert_eq!(
        text(RunError::Launch(LaunchError::WorkingDirectory { path: "/w".to_owned() })),
        LaunchError::WorkingDirectory { path: "/w".to_owned() }.message()
    );
    assert!(LaunchError::Spawn { program: "codex".to_owned(), source: "gone".to_owned() }
        .message()
        .contains("codex"));
    assert!(LaunchError::Io { path: "/e".to_owned(), source: "full".to_owned() }
        .message()
        .contains("/e"));
}

#[test]
fn a_launch_comes_to_a_child_or_to_what_its_first_attempt_met() {
    let missing = || Spawned::Missing { reason: "no such file".to_owned() };
    let running = || Spawned::Running { pid: 7, started: Some(9) };
    assert_eq!(shim(Platform::Unix, "codex", &missing()), None);
    assert_eq!(shim(Platform::Windows, "codex", &missing()).as_deref(), Some("codex.cmd"));
    let failed = Spawned::Failed { reason: "denied".to_owned() };
    assert_eq!(shim(Platform::Windows, "codex", &failed), None);

    assert_eq!(
        launched(Platform::Unix, "codex", running(), None),
        Ok(Launched { pid: 7, process_group: Some(7), started: Some(9) })
    );
    assert_eq!(
        launched(Platform::Windows, "codex", missing(), Some(running())),
        Ok(Launched { pid: 7, process_group: None, started: Some(9) })
    );
    let error = launched(Platform::Windows, "codex", missing(), Some(failed)).unwrap_err();
    assert_eq!(
        error.message(),
        "cannot run `codex`: no such file. Is it installed and on PATH?"
    );
    assert_eq!(
        refuse_working_directory("/gone", false),
        Err(LaunchError::WorkingDirectory { path: "/gone".to_owned() })
    );
    assert_eq!(refuse_working_directory("/there", true), Ok(()));
}
