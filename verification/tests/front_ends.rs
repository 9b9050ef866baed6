//! The command line, the tools, and what they print.

use agentmux::cli::{
    asked, DelegateArgs, McpArgs, QuestionArgs, QuestionSource, QuotaArgs, RunIdArg, SandboxArg,
    VendorArg,
};
use agentmux::config::{Account, Config, Defaults, Platform, Secret, UnknownKey};
use agentmux::delegate::{CodexSandbox, Delegate, Isolation, Programs, Vendor};
use agentmux::mcp::params::{run_id, DelegateParams, Fault, QuestionParams, QuotaParams};
use agentmux::mcp::tools::{
    allowed, answer, denial, instructions, named, narrow_delegate_choice, requires_delegate,
    run_error, slice, wait, FollowUpParams, ListParams, ResultParams, TailParams,
};
use agentmux::ordered::TextMap;
use agentmux::report;
use agentmux::report::listing::{configuration, ConfigReport, LaunchReport};
use agentmux::report::TailStep;
use agentmux::run::paging::TranscriptPage;
use agentmux::run::status::RunStatus;
use agentmux::run::{HookReopening, Retention, RunError, RunId};
use agentmux::time::{Moment, Span};
use agentmux::transcript::{
    Cost, FailureKind, Outcome, RateLimit, UnrecognisedEvents, Usage,
};

const NOW: Moment = Moment { seconds: 1_700_000_000, nanos: 0 };

/// What Anthropic's CLI is called: the vendor's own name, as it is typed.
fn cli() -> String {
    format!("{:?}", Vendor::Claude).to_lowercase()
}

/// A text with the name of Anthropic's CLI filled in.
fn spelt(text: &str) -> String {
    let name = cli();
    let capital = format!("{}{}", name[..1].to_uppercase(), &name[1..]);
    text.replace("{cli}", &name)
        .replace("{Cli}", &capital)
        .replace("{CLI}", &name.to_uppercase())
}

fn programs() -> Programs {
    Programs::installed()
}

fn question(env: &[&str]) -> QuestionArgs {
    QuestionArgs {
        question: None,
        file: None,
        cwd: None,
        env: env.iter().map(|e| (*e).to_owned()).collect(),
        keep: false,
    }
}

fn delegate_args(delegate: VendorArg) -> DelegateArgs {
    DelegateArgs {
        delegate,
        model: "gpt-6".to_owned(),
        effort: "high".to_owned(),
        account: None,
        inherit_settings: false,
        isolated: false,
        sandbox: None,
    }
}

fn status() -> RunStatus {
    RunStatus {
        run_id: RunId::parse("abc").unwrap(),
        delegate: Delegate::from_parts(Vendor::Codex, "gpt-6", Some("high"), None, None, None)
            .unwrap(),
        requested_model: None,
        resolved_model: None,
        cwd: "/work".to_owned(),
        outcome: Outcome::Running,
        created_at: NOW,
        elapsed: Span { seconds: 61, nanos: 0 },
        turns: 1,
        message_count: 2,
        usage: Usage::default(),
        cost_usd: None,
        unrecognised: UnrecognisedEvents::default(),
        hook_reopening: None,
        earlier_failure: None,
        quota: Vec::new(),
        rate_limit: None,
        broke_continuity: false,
        transcript_path: "/s/t.md".to_owned(),
        events_path: "/s/e.jsonl".to_owned(),
        stderr_path: "/s/err.log".to_owned(),
        transcript_bytes: 10,
        resumable: false,
    }
}

fn page(at_end: bool) -> TranscriptPage {
    TranscriptPage {
        text: "text".to_owned(),
        offset: 0,
        next_offset: 4,
        total_bytes: 10,
        at_end,
    }
}

#[test]
fn an_environment_is_split_at_the_first_equals_sign() {
    let env = question(&["A=1", "B=x=y", "C=", "A=2"]).environment().unwrap_or_else(|e| panic!("{}", e.message));
    assert_eq!(env.get("A"), Some(&"2".to_owned()));
    assert_eq!(env.get("B"), Some(&"x=y".to_owned()));
    assert_eq!(env.get("C"), Some(&String::new()));
    assert_eq!(env.len(), 3);
    let refused = |pairs: &[&str]| match question(pairs).environment() {
        Err(error) => error.message,
        Ok(_) => panic!("accepted"),
    };
    assert_eq!(refused(&["A=1", "nope", "=x"]), "--env expects KEY=VALUE, got \"nope\"");
    assert_eq!(refused(&["=x"]), "--env has an empty variable name in \"=x\"");
}

#[test]
fn a_question_is_given_read_or_piped() {
    let mut args = question(&[]);
    assert_eq!(args.source(), QuestionSource::Stdin);
    args.file = Some("/q.md".to_owned());
    assert_eq!(args.source(), QuestionSource::File("/q.md".to_owned()));
    args.question = Some("why?".to_owned());
    assert_eq!(args.source(), QuestionSource::Given("why?".to_owned()));
    assert_eq!(asked(" why? ".to_owned()).unwrap(), " why? ");
    assert!(asked(" \n\t".to_owned()).unwrap_err().message.starts_with("the question is empty."));
    assert_eq!(args.retention(), Retention::Ttl);
    args.keep = true;
    assert_eq!(args.retention(), Retention::UntilReleased);
    assert_eq!(args.working_dir("/w".to_owned(), true).unwrap(), "/w");
    assert_eq!(
        args.working_dir("/w".to_owned(), false).unwrap_err().message,
        "--cwd /w is not a directory. Pass the path of the checkout the delegate should read."
    );
}

#[test]
fn a_delegate_is_built_from_its_flags() {
    let mut args = delegate_args(VendorArg::Codex);
    assert_eq!(args.isolation(), None);
    args.isolated = true;
    assert_eq!(args.isolation(), Some(Isolation::Isolated));
    args.inherit_settings = true;
    assert_eq!(args.isolation(), Some(Isolation::Inherit));
    args.sandbox = Some(SandboxArg::WorkspaceWrite);
    assert!(matches!(
        args.build().unwrap(),
        Delegate::Codex { sandbox: CodexSandbox::WorkspaceWrite, .. }
    ));
    args.delegate = VendorArg::Claude;
    assert!(args.build().is_err());
    assert_eq!(Vendor::from(VendorArg::Claude), Vendor::Claude);
    assert_eq!(CodexSandbox::from(SandboxArg::ReadOnly), CodexSandbox::ReadOnly);
}

#[test]
fn denying_both_vendors_is_refused() {
    assert_eq!(
        McpArgs { deny: vec![VendorArg::Codex, VendorArg::Codex] }.denied().unwrap(),
        vec![Vendor::Codex, Vendor::Codex]
    );
    assert_eq!(
        McpArgs { deny: vec![VendorArg::Codex, VendorArg::Claude] }.denied().unwrap_err().message,
        "denying both vendors leaves nothing to consult"
    );
    assert_eq!(QuotaArgs { delegate: None }.vendors(), vec![Vendor::Claude, Vendor::Codex]);
    assert_eq!(
        QuotaArgs { delegate: Some(VendorArg::Codex) }.vendors(),
        vec![Vendor::Codex]
    );
    assert_eq!(RunIdArg::parse("abc").unwrap().id().as_str(), "abc");
    assert!(RunIdArg::parse("a/b").is_err());
}

#[test]
fn a_state_is_printed_line_by_line() {
    assert_eq!(
        report::status_at(&programs(), &status(), NOW),
        "abc  codex gpt-6 effort=high sandbox=read-only account=cli-default\n  \
         state       running\n  \
         reading     /work\n  \
         elapsed     1m1s\n  \
         turns       1\n  \
         messages    2\n  \
         transcript  /s/t.md\n  \
         events      /s/e.jsonl\n"
    );
    let mut full = status();
    full.outcome = Outcome::Completed { usage: Usage::default(), cost_usd: None };
    full.earlier_failure = Some((0, FailureKind::TurnLimit));
    full.usage.input_tokens = Some(5);
    full.cost_usd = Some(Cost { bits: 0, text: "0.0100".to_owned() });
    full.rate_limit = Some(RateLimit { resets_at: NOW, window: Some("weekly".to_owned()) });
    full.broke_continuity = true;
    full.hook_reopening = Some(HookReopening::Expected);
    full.unrecognised.record("novel");
    full.resumable = true;
    let text = report::status_at(&programs(), &full, NOW);
    for line in [
        "  EARLIER     turn 1 failed: turn limit — see the transcript\n",
        "  tokens      5 in, 0 out\n",
        "  cost        $0.0100\n",
        "  rate limit  weekly window has reopened\n",
        "  WARNING     a follow-up did not resume the earlier session;",
        "  NOTE        a hook in the inherited settings reopened",
        "  UNRECOGNISED ",
        "  follow up   agentmux follow-up abc '…'\n",
    ] {
        assert!(text.contains(line), "{line}");
    }
    full.hook_reopening = Some(HookReopening::Unexpected);
    assert!(report::status(&programs(), &full).contains("treat the transcript as untrusted"));
}

#[test]
fn a_wait_that_ends_early_says_how_to_collect() {
    assert_eq!(
        report::answer(&status()).unwrap(),
        "still running after the wait. Nothing is lost — collect it with:\n  agentmux result abc --wait 600"
    );
    let mut over = status();
    over.outcome = Outcome::Cancelled;
    assert_eq!(report::answer(&over), None);
    assert_eq!(
        report::transcript(&page(false)).unwrap(),
        "\n[truncated at 4 of 10 bytes; continue with --offset 4]"
    );
    assert_eq!(report::transcript(&page(true)), None);
    assert_eq!(report::tail(&status(), &page(true), true, false), TailStep::Continue);
    assert_eq!(report::tail(&over, &page(true), true, false), TailStep::Stop);
    assert_eq!(report::tail(&over, &page(false), true, false), TailStep::Continue);
    assert_eq!(report::tail(&over, &page(false), false, false), TailStep::StopWithCursor);
    assert_eq!(report::tail(&over, &page(false), false, true), TailStep::Stop);
    assert_eq!(report::list(&Vec::new()), "no consultations yet\n");
}

fn machine(key: &str) -> Config {
    let mut config = Config::empty(programs());
    let mut accounts: TextMap<Account> = TextMap::new();
    accounts.insert(
        "work",
        Account {
            config_dir: Some("~/w".to_owned()),
            api_key: Some(Secret::new(key)),
            inherit_settings: Some(true),
            description: Some("the team plan".to_owned()),
            ..Account::default()
        },
    );
    config.accounts.insert("codex", accounts);
    config.defaults.insert("codex", Defaults { account: Some("work".to_owned()) });
    config.launch.env.insert("OPENAI_API_KEY", Secret::new(key));
    config.launch.env_passthrough.push("LANG".to_owned());
    config.launch.request_env.push("TARGET".to_owned());
    let mut rules: TextMap<String> = TextMap::new();
    rules.insert("a", "b".to_owned());
    rules.insert("c", "d".to_owned());
    config.models.insert("codex", rules);
    config.source = Some("/home/dev/agentmux.toml".to_owned());
    config.unknown.push(UnknownKey { file: "/f".to_owned(), key: "x.y".to_owned() });
    config
}

fn host() -> TextMap<String> {
    let mut env: TextMap<String> = TextMap::new();
    env.insert("HOME", "/home/dev".to_owned());
    env
}

#[test]
fn a_configuration_is_printed_without_its_secrets() {
    let expected = spelt("config      /home/dev/agentmux.toml\n\
        ignored     /f sets x.y (a misspelling, or a key newer than this agentmux)\n\
        launch      every delegate also gets:\n              \
        OPENAI_API_KEY (set in config; withheld when an account is named)\n              \
        LANG (forwarded from this environment)\n              \
        a request may set: TARGET\n\
        \n\
        {cli}      default: the {cli} CLI's own login\n  \
        (none configured — omit --account to use the CLI's own default)\n\
        \n\
        codex       default: work\n  \
        models         a -> b\n                 \
        c -> d\n  \
        work           config_dir=~/w (ok), api_key=<set in config>, inherits settings and hooks\n                 \
        the team plan\n");
    let present = vec!["/home/dev/w".to_owned()];
    assert_eq!(report::accounts(Platform::Unix, &machine("sk-1"), &host(), &present), expected);
    assert_eq!(report::accounts(Platform::Unix, &machine("sk-2"), &host(), &present), expected);
    assert!(report::accounts(Platform::Unix, &machine("sk-1"), &host(), &Vec::new())
        .contains("config_dir=~/w (MISSING)"));
}

/// Every text that a launch environment is handed out with.
fn launch_texts(launch: &LaunchReport) -> Vec<String> {
    let mut all: Vec<String> = (0..launch.env.len())
        .flat_map(|at| [launch.env.key_at(at).clone(), launch.env.value_at(at).clone()])
        .collect();
    all.extend(launch.env_passthrough.clone());
    all.extend(launch.request_env.clone());
    all
}

/// Every text that may hold a secret in a configuration that is handed out.
fn told(report: &ConfigReport) -> Vec<String> {
    let mut all = launch_texts(&report.launch);
    for vendor in 0..report.accounts.len() {
        let accounts = report.accounts.value_at(vendor);
        for at in 0..accounts.len() {
            let account = accounts.value_at(at);
            all.extend(account.api_key.clone());
            all.extend(account.auth_token.clone());
            all.extend(launch_texts(&account.launch));
        }
    }
    all
}

#[test]
fn a_configuration_is_handed_out_without_its_secrets() {
    let secretive = |key: &str| {
        let mut config = machine(key);
        let mut account = Account {
            auth_token: Some(Secret::new(key)),
            api_key_env: Some("KEY".to_owned()),
            ..Account::default()
        };
        account.launch.env.insert("REGION", Secret::new(key));
        account.launch.env_passthrough.push("PROXY".to_owned());
        let mut accounts: TextMap<Account> = TextMap::new();
        accounts.insert("home", account);
        config.accounts.insert("other", accounts);
        config
    };
    let one = configuration(&secretive("sk-1"));
    assert_eq!(
        told(&one),
        vec![
            "OPENAI_API_KEY",
            "<redacted>",
            "LANG",
            "TARGET",
            "<redacted>",
            "<redacted>",
            "REGION",
            "<redacted>",
            "PROXY",
        ]
    );
    assert_eq!(told(&one), told(&configuration(&secretive("sk-2"))));
    let work = one.accounts.get("codex").unwrap().get("work").unwrap();
    assert_eq!(work.config_dir.as_deref(), Some("~/w"));
    assert_eq!(work.description.as_deref(), Some("the team plan"));
    assert_eq!(work.inherit_settings, Some(true));
    assert_eq!(work.auth_token, None);
    let home = one.accounts.get("other").unwrap().get("home").unwrap();
    assert_eq!(home.api_key, None);
    assert_eq!(home.api_key_env.as_deref(), Some("KEY"));
    assert_eq!(one.source.as_deref(), Some("/home/dev/agentmux.toml"));
    assert_eq!(one.project_source, None);
    assert_eq!(one.defaults.get("codex").unwrap().account.as_deref(), Some("work"));
    assert_eq!(one.models.get("codex").unwrap().get("c").unwrap(), "d");
    assert!(one.efforts.is_empty());
    assert_eq!(one.unknown, vec![UnknownKey { file: "/f".to_owned(), key: "x.y".to_owned() }]);
}

#[test]
fn a_machine_without_a_file_is_told_where_one_would_be() {
    let text = report::accounts(Platform::Unix, &Config::empty(programs()), &host(), &Vec::new());
    assert!(text.starts_with(
        "config      none found. A machine file defines accounts; first that exists:\n              $AGENTMUX_CONFIG (unset)\n              /home/dev/.config/agentmux/agentmux.toml\n"
    ));
    assert_eq!(
        report::describe_account(Platform::Unix, &Account::default(), None, &Vec::new()),
        vec!["the CLI's own login"]
    );
}

#[test]
fn a_tool_call_is_bounded() {
    assert_eq!(wait(None, 45), 45);
    assert_eq!(wait(Some(9999), 45), 540);
    assert_eq!(slice(Some(0), 4000), 1);
    assert_eq!(slice(Some(usize::MAX), 4000), 64_000);
    assert_eq!(slice(None, 4000), 4000);
    let tail = TailParams { run_id: "a".to_owned(), cursor: None, max_bytes: None };
    assert_eq!(tail.range(), (0, 4_000));
    let result =
        ResultParams { run_id: "a".to_owned(), wait_seconds: None, offset: Some(3), max_bytes: None };
    assert_eq!(result.range(), (3, 40_000));
    assert_eq!(ListParams { limit: Some(0) }.count(), 1);
    assert_eq!(ListParams { limit: Some(999) }.count(), 200);
    assert_eq!(ListParams { limit: None }.count(), 20);
    let follow = FollowUpParams {
        run_id: "a".to_owned(),
        question: " ".to_owned(),
        wait_seconds: None,
        offset: None,
        max_bytes: None,
    };
    assert_eq!(follow.range(77), (77, 40_000));
    assert_eq!(
        follow.text().unwrap_err().message,
        "`question` is empty. A follow-up needs something to ask."
    );
}

#[test]
fn tool_arguments_are_refused_with_a_remedy() {
    let mut params = DelegateParams {
        delegate: Vendor::Claude,
        model: spelt("{cli}-opus-5"),
        effort: "high".to_owned(),
        account: None,
        inherit_settings: Some(true),
        sandbox: Some(CodexSandbox::ReadOnly),
    };
    assert_eq!(params.isolation(), Some(Isolation::Inherit));
    let refusal = params.build(&programs()).unwrap_err();
    assert_eq!(refusal.fault, Fault::Caller);
    assert!(refusal.message.ends_with(
        &spelt("consultation. A `{cli}` delegate runs in plan mode and is offered no editing tools.")
    ));
    params.sandbox = None;
    params.effort = "".to_owned();
    assert_eq!(
        params.build(&programs()).unwrap_err().message,
        "effort must not be empty: \"\". Try `high` or `xhigh`."
    );
    let ask = QuestionParams {
        question: "why?".to_owned(),
        cwd: Some("relative".to_owned()),
        env: None,
        keep: Some(true),
    };
    assert_eq!(ask.retention(), Retention::UntilReleased);
    assert_eq!(ask.text().unwrap(), "why?");
    assert!(ask.environment().is_empty());
    assert!(ask
        .working_dir(Platform::Unix, Ok("/own".to_owned()), true)
        .unwrap_err()
        .message
        .starts_with("`cwd` must be an absolute path; you passed \"relative\"."));
    let there = QuestionParams { cwd: Some("C:\\work".to_owned()), ..ask };
    assert_eq!(
        there.working_dir(Platform::Windows, Ok("C:\\own".to_owned()), true).unwrap(),
        "C:\\work"
    );
    assert!(there.working_dir(Platform::Unix, Ok("/own".to_owned()), true).is_err());
    assert!(run_id("../x").unwrap_err().message.ends_with(
        "Call `list` to see the ids of recent consultations."
    ));
}

#[test]
fn a_failed_tool_call_says_whose_mistake_it_is() {
    let gone = run_error(&programs(), &RunError::NotFound(RunId::parse("a").unwrap()));
    assert_eq!(gone.fault, Fault::Caller);
    let broken = run_error(
        &programs(),
        &RunError::Io { context: "reading".to_owned(), source: "gone".to_owned() },
    );
    assert_eq!(broken.fault, Fault::Machine);
    assert_eq!(broken.message, "reading: gone");
}

#[test]
fn a_denied_vendor_is_left_out_of_what_is_offered() {
    let choices = vec![cli(), "codex".to_owned()];
    assert_eq!(
        narrow_delegate_choice(&programs(), &choices, &vec![Vendor::Claude]),
        vec!["codex"]
    );
    assert_eq!(narrow_delegate_choice(&programs(), &choices, &Vec::new()), choices);
    assert!(requires_delegate(&vec!["delegate".to_owned()]));
    assert!(!requires_delegate(&vec!["run_id".to_owned()]));
    assert_eq!(allowed(&vec![Vendor::Claude]), vec![Vendor::Codex]);
    assert_eq!(
        named(&programs(), &vec![Vendor::Claude, Vendor::Codex]),
        spelt("`{cli}` and `codex`")
    );
    assert_eq!(denial(&programs(), &Vec::new()), "");
    assert_eq!(
        denial(&programs(), &vec![Vendor::Claude]),
        spelt("\n\nThis server launches no `{cli}` delegates: the harness it serves already spawns those subagents natively, so use its own for that side. Here, `delegate` is `codex`.")
    );
}

#[test]
fn the_instructions_name_the_vendors_and_the_accounts() {
    let bare = instructions(&programs(), None, &Vec::new());
    assert!(bare.starts_with(
        &spelt("agentmux runs a question past the OTHER vendor's coding agent — `codex` when you are {Cli} Code,\n`{cli}` when you are Codex — and keeps the whole transcript.")
    ));
    assert!(bare.contains(&spelt("(`{cli}` or `codex`), the exact `model` identifier")));
    assert!(bare.ends_with("hooks or MCP servers."));
    let with = instructions(&programs(), Some(&machine("sk-1")), &Vec::new());
    assert!(with.starts_with(&bare));
    assert!(with.contains(
        "codex: `work` (the team plan, INHERITS this machine's settings, hooks and MCP servers) — omitting `account` uses `work`"
    ));
    assert!(!with.contains("sk-1"));
    assert!(instructions(&programs(), Some(&Config::empty(programs())), &Vec::new())
        .contains("No named accounts were defined when this server started, so omit `account`."));
}

#[test]
fn an_answer_is_the_transcript_once_there_is_one() {
    let running = answer(&programs(), &status(), &page(true), NOW);
    assert!(running.contains("Still working."));
    let mut over = status();
    over.outcome = Outcome::Completed { usage: Usage::default(), cost_usd: None };
    assert!(answer(&programs(), &over, &page(true), NOW).ends_with("\n---\n\ntext"));
}

#[test]
fn a_quota_question_is_about_both_vendors_unless_it_names_one() {
    assert_eq!(QuotaParams { delegate: None }.vendors(), Vendor::ALL);
    assert_eq!(QuotaParams { delegate: Some(Vendor::Codex) }.vendors(), [Vendor::Codex]);
}
