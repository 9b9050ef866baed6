//! What each account has left.

use agentmux::config::{Account, Config, Platform};
use agentmux::delegate::{AccountAlias, Programs, Vendor};
use agentmux::json::{integer_at, string_at};
use agentmux::ordered::TextMap;
use agentmux::path::DirEntry;
use agentmux::quota::{
    account_quota, cached_usage, claude_observation, codex_home, codex_observation, codex_reply,
    codex_rollout_rate_limits, codex_window, fetched_at, is_rollout, is_stale, judge,
    newest_reading, probe_account, refresh_due, refresh_outcome, refresh_step, rollout_step,
    searches_at, targets, window_from, AppServerLine, DisabledProbe, Exchange, Observation, Origin,
    ProbeRequest, ProbeTarget, Refresh, RefreshChild, RefreshLook, RefreshStep, SystemProbe, Target,
    APP_SERVER_ARGS, REFRESH_ARGS,
};
use agentmux::time::Moment;

/// What Anthropic's CLI is called: the vendor's own name, as it is typed.
fn cli() -> String {
    format!("{:?}", Vendor::Claude).to_lowercase()
}

/// A text with the name of Anthropic's CLI filled in.
fn spelt(text: &str) -> String {
    let name = cli();
    let capital = format!("{}{}", name[..1].to_uppercase(), &name[1..]);
    text.replace("{cli}", &name)
        .replace("{Cli}", &capital)
        .replace("{CLI}", &name.to_uppercase())
}

fn programs() -> Programs {
    Programs::installed()
}

fn env(pairs: &[(&str, &str)]) -> TextMap<String> {
    let mut map: TextMap<String> = TextMap::new();
    for (name, value) in pairs {
        map.insert(name, (*value).to_owned());
    }
    map
}

fn account(config_dir: Option<&str>, base_url: Option<&str>) -> Account {
    Account {
        config_dir: config_dir.map(str::to_owned),
        base_url: base_url.map(str::to_owned),
        description: Some("for work".to_owned()),
        ..Account::default()
    }
}

fn config(account: Account) -> Config {
    let mut config = Config::empty(programs());
    let mut accounts: TextMap<Account> = TextMap::new();
    accounts.insert("work", account);
    config.accounts.insert(&cli(), accounts);
    config
}

#[test]
fn a_document_is_read_by_its_pointers() {
    let document = "{\"a\":{\"b\":[1,-2,\"x\"]},\"n\":1.5}";
    assert_eq!(integer_at(document, "/a/b/1"), Some(-2));
    assert_eq!(string_at(document, "/a/b/2"), Some("x".to_owned()));
    assert_eq!(integer_at(document, "/a/b/2"), None);
    assert_eq!(integer_at(document, "/n"), None);
    assert_eq!(string_at(document, "/missing"), None);
    assert_eq!(integer_at("not json", "/a"), None);
}

#[test]
fn cached_figures_are_read_as_they_arrived() {
    let document = "{\"cachedUsageUtilization\":{\"fetchedAtMs\":1700000000000,\"limits\":[]}}";
    let cached = cached_usage(document);
    assert_eq!(cached, Some("{\"fetchedAtMs\":1700000000000,\"limits\":[]}".to_owned()));
    assert_eq!(fetched_at(&cached), Some(1_700_000_000_000));
    assert_eq!(cached_usage("{}"), None);
    assert_eq!(fetched_at(&None), None);
    assert!(refresh_due(None));
    assert!(refresh_due(Some("{}")));
    assert!(refresh_due(Some(document)));
}

#[test]
fn figures_are_stale_after_five_minutes() {
    let fetched = Some(1_700_000_000_000);
    assert!(!is_stale(fetched, Moment { seconds: 1_700_000_300, nanos: 0 }));
    assert!(is_stale(fetched, Moment { seconds: 1_700_000_300, nanos: 1 }));
    assert!(!is_stale(fetched, Moment { seconds: 1_600_000_000, nanos: 0 }));
    assert!(is_stale(None, Moment { seconds: 0, nanos: 0 }));
    assert!(is_stale(Some(i64::MAX), Moment { seconds: 0, nanos: 0 }));
    assert!(!is_stale(Some(1_700_000_000_500), Moment { seconds: 1_700_000_300, nanos: 0 }));
}

#[test]
fn a_refresh_is_told_by_how_its_child_ended() {
    assert_eq!(
        refresh_outcome(
            &programs(),
            &RefreshChild::Finished { success: true, status: "exit status: 0".to_owned() }
        ),
        Refresh::Succeeded
    );
    assert_eq!(
        refresh_outcome(
            &programs(),
            &RefreshChild::Finished { success: false, status: "exit status: 1".to_owned() }
        ),
        Refresh::Failed {
            reason: spelt("`{cli} --print /usage` exited with exit status: 1")
        }
    );
    assert_eq!(
        refresh_outcome(&programs(), &RefreshChild::NotStarted { reason: "gone".to_owned() }),
        Refresh::Failed { reason: spelt("cannot run `{cli} --print /usage`: gone") }
    );
    assert_eq!(
        refresh_outcome(&programs(), &RefreshChild::NotObserved { reason: "gone".to_owned() }),
        Refresh::Failed { reason: spelt("cannot wait for `{cli} --print /usage`: gone") }
    );
    assert_eq!(refresh_outcome(&programs(), &RefreshChild::Late), Refresh::TimedOut);
}

#[test]
fn a_refresh_is_waited_for_until_it_is_late() {
    assert_eq!(refresh_step(RefreshLook::Running, 0), RefreshStep::Again);
    assert_eq!(refresh_step(RefreshLook::Running, 14), RefreshStep::Again);
    assert_eq!(refresh_step(RefreshLook::Running, 15), RefreshStep::Late);
    assert_eq!(
        refresh_step(RefreshLook::Finished { success: true, status: "done".to_owned() }, 99),
        RefreshStep::Done(RefreshChild::Finished { success: true, status: "done".to_owned() })
    );
    assert_eq!(
        refresh_step(RefreshLook::NotObserved { reason: "gone".to_owned() }, 0),
        RefreshStep::Done(RefreshChild::NotObserved { reason: "gone".to_owned() })
    );
    assert_eq!(REFRESH_ARGS, ["--print", "/usage", "--output-format", "text"]);
    assert_eq!(APP_SERVER_ARGS, ["app-server"]);
}

#[test]
fn a_search_for_a_record_goes_four_directories_down() {
    assert!(searches_at(0));
    assert!(searches_at(4));
    assert!(!searches_at(5));
}

#[test]
fn the_cache_lies_in_the_accounts_directory_or_at_home() {
    let host = env(&[("HOME", "/home/dev")]);
    let own = ProbeRequest {
        vendor: Vendor::Claude,
        target: ProbeTarget::Window { config_dir: None },
        host_env: &host,
    };
    assert_eq!(
        SystemProbe.cache_path(&programs(), &own, Platform::Unix),
        Some(spelt("/home/dev/.{cli}.json"))
    );
    let named = ProbeRequest {
        target: ProbeTarget::Window { config_dir: Some("/w".to_owned()) },
        ..own
    };
    assert_eq!(
        SystemProbe.cache_path(&programs(), &named, Platform::Unix),
        Some(spelt("/w/.{cli}.json"))
    );
    let probe_env = SystemProbe.environment(&named, Platform::Unix);
    assert_eq!(probe_env.get("CLAUDE_CONFIG_DIR"), Some(&"/w".to_owned()));
}

#[test]
fn an_observation_names_where_it_came_from() {
    assert_eq!(
        claude_observation(None, None, Refresh::Skipped),
        Observation::Unavailable {
            reason: "neither an account config_dir nor HOME is known".to_owned()
        }
    );
    assert_eq!(
        claude_observation(Some("/f".to_owned()), None, Refresh::Skipped),
        Observation::Unavailable {
            reason: "/f holds no usage figures. That account may not be logged in on this machine."
                .to_owned()
        }
    );
    assert_eq!(
        claude_observation(
            Some("/f".to_owned()),
            Some("{\"fetchedAtMs\":5}".to_owned()),
            Refresh::Succeeded
        ),
        Observation::Reported {
            origin: Origin::Cache {
                path: "/f".to_owned(),
                fetched_at_ms: Some(5),
                refresh: Refresh::Succeeded
            },
            payload: "{\"fetchedAtMs\":5}".to_owned()
        }
    );
}

#[test]
fn a_reply_is_found_by_its_id() {
    assert_eq!(codex_reply("{\"id\":1,\"result\":{}}"), None);
    assert_eq!(codex_reply("{\"method\":\"note\"}"), None);
    assert_eq!(codex_reply("garbage"), None);
    assert_eq!(codex_reply("{\"id\":2,\"result\":{\"x\":1}}"), Some(Ok("{\"x\":1}".to_owned())));
    assert_eq!(
        codex_reply("{\"id\":2,\"error\":{\"message\":\"no\"}}"),
        Some(Err("codex app-server refused: no".to_owned()))
    );
    assert_eq!(
        codex_reply("{\"id\":2}"),
        Some(Err("codex app-server answered without a result".to_owned()))
    );
    assert_eq!(
        judge(AppServerLine { id: Some(2), refused: true, refusal: None, result: None }),
        Some(Err("codex app-server refused: no reason given".to_owned()))
    );
}

#[test]
fn an_exchange_that_fails_is_unavailable() {
    assert_eq!(
        codex_observation(Exchange::Answered(Ok("{}".to_owned()))),
        Observation::Reported { origin: Origin::Live, payload: "{}".to_owned() }
    );
    for exchange in [
        Exchange::NotStarted { reason: "gone".to_owned() },
        Exchange::NoStdio,
        Exchange::InputClosed,
        Exchange::Ended,
        Exchange::Unreadable { reason: "gone".to_owned() },
        Exchange::Answered(Err("refused".to_owned())),
        Exchange::Late,
    ] {
        assert!(matches!(codex_observation(exchange), Observation::Unavailable { .. }));
    }
}

#[test]
fn the_newest_reading_of_a_record_counts() {
    let document = "{\"payload\":{\"rate_limits\":{\"limit_id\":\"a\",\"primary\":{\"resets_at\":1}}}}\n{}\n{\"payload\":{\"rate_limits\":{\"limit_id\":\"b\",\"primary\":{\"resets_at\":1700000000}}}}\n";
    let limits = codex_rollout_rate_limits(document).unwrap();
    let window = codex_window(&limits).unwrap();
    assert_eq!(window.window, Some("b".to_owned()));
    assert_eq!(window.resets_at, Moment { seconds: 1_700_000_000, nanos: 0 });
    assert_eq!(codex_rollout_rate_limits("{}\n"), None);
    assert_eq!(newest_reading(&vec![Some("a".to_owned()), None]), Some("a".to_owned()));
    assert_eq!(window_from(None, None), None);
    assert_eq!(window_from(Some(i64::MAX), None), None);
}

#[test]
fn a_record_is_found_by_the_whole_thread() {
    assert!(is_rollout("rollout-2026-01-01-01a0.jsonl", "01a0"));
    assert!(!is_rollout("rollout-2026-01-01-x01a0.jsonl", "01a0"));
    assert!(!is_rollout("other-01a0.jsonl", "01a0"));
    let step = rollout_step(
        &vec![
            DirEntry { name: "2026".to_owned(), is_dir: true },
            DirEntry { name: "rollout-x-01a0.jsonl".to_owned(), is_dir: false },
            DirEntry { name: "notes.txt".to_owned(), is_dir: false },
        ],
        "01a0",
    );
    assert_eq!(step.found, Some("rollout-x-01a0.jsonl".to_owned()));
    assert_eq!(step.into, vec!["2026"]);
}

#[test]
fn every_account_is_asked_or_the_own_login() {
    let own = targets(Vendor::Codex, &Config::empty(programs()));
    assert_eq!(own.len(), 1);
    assert!(own[0].alias.is_none());
    let named = targets(Vendor::Claude, &config(account(Some("/w"), None)));
    assert_eq!(named[0].alias.as_ref().map(|a| a.as_str()), Some("work"));
    assert_eq!(named[0].description, Some("for work".to_owned()));
}

#[test]
fn an_account_with_a_key_has_no_window() {
    let host = env(&[("HOME", "/home/dev")]);
    let alias = AccountAlias::parse("work").unwrap();
    let credential = ProbeTarget::of(
        Vendor::Claude,
        Some(&alias),
        &config(account(None, Some("https://x"))),
        &host,
        Platform::Unix,
        true,
    )
    .unwrap();
    assert_eq!(credential, ProbeTarget::Credential);
    let window = ProbeTarget::of(
        Vendor::Claude,
        Some(&alias),
        &config(account(Some("/w"), None)),
        &host,
        Platform::Unix,
        true,
    )
    .unwrap();
    assert_eq!(window, ProbeTarget::Window { config_dir: Some("/w".to_owned()) });
    assert_eq!(window.config_dir(), Some("/w"));
    let request = ProbeRequest { vendor: Vendor::Claude, target: credential, host_env: &host };
    assert!(matches!(
        SystemProbe.refusal(&request, true),
        Some(Observation::Unavailable { .. })
    ));
}

#[test]
fn an_account_that_cannot_be_launched_says_why() {
    let host = env(&[("HOME", "/home/dev")]);
    let alias = AccountAlias::parse("work").unwrap();
    let seen = probe_account(
        &DisabledProbe,
        Vendor::Claude,
        Some(&alias),
        &config(account(Some("/gone"), None)),
        &host,
        Platform::Unix,
        false,
    );
    assert!(matches!(
        seen,
        Observation::Unavailable { ref reason } if reason.contains("points at /gone")
    ));
    let entry = account_quota(
        Vendor::Claude,
        Target { alias: Some(alias), description: None },
        None,
    );
    assert_eq!(
        entry.observation,
        Observation::Unavailable {
            reason: "the probe for this account failed inside agentmux".to_owned()
        }
    );
}

#[test]
fn codex_keeps_its_sessions_where_the_account_that_ran_says() {
    let mut config = Config::empty(programs());
    let mut accounts: TextMap<Account> = TextMap::new();
    accounts.insert("moved", account(Some("~/.codex-work"), None));
    accounts.insert("keyed", account(None, Some("http://localhost")));
    config.accounts.insert("codex", accounts);
    let host = env(&[("HOME", "/home/dev"), ("CODEX_HOME", "/host/codex")]);
    let home = |alias: Option<&str>| {
        let alias = alias.map(|alias| AccountAlias::parse(alias).unwrap());
        codex_home(alias.as_ref(), &config, &host, Platform::Unix)
    };
    assert_eq!(home(Some("moved")).as_deref(), Some("/home/dev/.codex-work"));
    assert_eq!(home(Some("keyed")).as_deref(), Some("/home/dev/.codex"));
    assert_eq!(home(Some("unknown")).as_deref(), Some("/home/dev/.codex"));
    assert_eq!(home(None).as_deref(), Some("/home/dev/.codex"));
    assert_eq!(codex_home(None, &config, &env(&[]), Platform::Unix), None);
}
