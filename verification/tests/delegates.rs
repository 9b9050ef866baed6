//! The argument vector and the environment each delegate is launched with.

use agentmux::config::{Account, Config, Defaults, Platform, Secret};
use agentmux::delegate::{
    base_env, credential_vars, is_credential_name, AccountAlias, CodexSandbox, Delegate,
    DelegateError, Effort, Invocation, Isolation, ModelId, Programs, SessionRef, TurnPlan, Vendor,
    DELEGATE_MARKER,
};
use agentmux::ordered::TextMap;

/// What Anthropic's CLI is called: the vendor's own name, as it is typed.
fn cli() -> String {
    format!("{:?}", Vendor::Claude).to_lowercase()
}

/// A text with the name of Anthropic's CLI filled in.
fn spelt(text: &str) -> String {
    let name = cli();
    let capital = format!("{}{}", name[..1].to_uppercase(), &name[1..]);
    text.replace("{cli}", &name)
        .replace("{Cli}", &capital)
        .replace("{CLI}", &name.to_uppercase())
}

fn programs() -> Programs {
    Programs::installed()
}

fn env(pairs: &[(&str, &str)]) -> TextMap<String> {
    let mut map: TextMap<String> = TextMap::new();
    for (name, value) in pairs {
        map.insert(name, (*value).to_owned());
    }
    map
}

fn host() -> TextMap<String> {
    env(&[
        ("PATH", "/usr/bin"),
        ("HOME", "/home/dev"),
        ("ANTHROPIC_API_KEY", "host-key"),
        ("OPENAI_API_KEY", "host-openai"),
        ("CODEX_HOME", "/host/codex"),
        ("CLAUDE_CONFIG_DIR", "/host/session"),
        ("SECRET_TOKEN", "never"),
        ("WORK_KEY", "from-host"),
    ])
}

fn with_account(alias: &str, vendor: &str, account: Account) -> Config {
    let mut config = Config::empty(programs());
    let mut accounts: TextMap<Account> = TextMap::new();
    accounts.insert(alias, account);
    config.accounts.insert(vendor, accounts);
    config
}

fn anthropic(account: Option<&str>) -> Delegate {
    Delegate::from_parts(Vendor::Claude, &spelt("{cli}-opus-5"), Some("high"), account, None, None)
        .unwrap()
}

fn codex(account: Option<&str>) -> Delegate {
    Delegate::from_parts(Vendor::Codex, "gpt-6", Some("xhigh"), account, None, None).unwrap()
}

fn launch(
    delegate: &Delegate,
    config: &Config,
    resume: Option<&SessionRef>,
    extra: &TextMap<String>,
    dir_exists: bool,
) -> Result<Invocation, DelegateError> {
    delegate.invocation(
        &TurnPlan {
            question_path: "/state/question.md",
            last_message_path: "/state/last.md",
            resume,
            extra_env: extra,
        },
        &host(),
        config,
        Platform::Unix,
        dir_exists,
    )
}

fn message(error: DelegateError) -> String {
    error.message(&programs())
}

#[test]
fn a_program_is_named_by_what_an_operator_types() {
    let programs = programs();
    assert_eq!(Vendor::Claude.program(&programs), cli());
    assert_eq!(Vendor::Codex.program(&programs), "codex");
}

#[test]
fn a_token_that_would_be_a_flag_is_refused() {
    assert_eq!(
        message(ModelId::parse("--help").unwrap_err()),
        "model must not start with '-': \"--help\""
    );
    assert_eq!(message(ModelId::parse("").unwrap_err()), "model must not be empty: \"\"");
    assert_eq!(
        message(Effort::parse("hi there").unwrap_err()),
        "effort contains characters a delegate CLI will not accept: \"hi there\""
    );
    assert_eq!(
        message(Effort::parse(&"x".repeat(33)).unwrap_err()),
        format!("effort is too long: \"{}\"", "x".repeat(33))
    );
    assert!(Effort::parse(&"x".repeat(32)).is_ok());
    assert!(ModelId::parse("vendor/opus-5[1m]:beta@2_0.1").is_ok());
    assert!(AccountAlias::parse("work.main_2-b").is_ok());
    assert!(AccountAlias::parse("a/b").is_err());
    assert!(SessionRef::parse("01a0-b_c.d").is_ok());
}

#[test]
fn a_quoted_value_is_escaped() {
    assert_eq!(
        message(ModelId::parse("a\"b\n").unwrap_err()),
        "model contains characters a delegate CLI will not accept: \"a\\\"b\\n\""
    );
}

#[test]
fn a_sandbox_belongs_to_codex() {
    let error = Delegate::from_parts(
        Vendor::Claude,
        &spelt("{cli}-opus-5"),
        None,
        None,
        None,
        Some(CodexSandbox::ReadOnly),
    )
    .unwrap_err();
    assert_eq!(
        message(error),
        spelt("`sandbox` belongs to the codex delegate, which is the only one that has it; drop it for a {cli} consultation")
    );
}

#[test]
fn an_isolated_anthropic_delegate_is_launched_exactly() {
    let made = launch(&anthropic(None), &Config::empty(programs()), None, &env(&[]), false)
        .unwrap_or_else(|e| panic!("{}", message(e)));
    assert_eq!(made.program, cli());
    assert_eq!(
        made.args,
        vec![
            "--print",
            "--model",
            spelt("{cli}-opus-5").as_str(),
            "--effort",
            "high",
            "--permission-mode",
            "plan",
            "--tools",
            "Bash,Read,Grep,Glob,WebFetch,WebSearch",
            "--output-format",
            "stream-json",
            "--verbose",
            "--setting-sources",
            "",
            "--strict-mcp-config",
            "--mcp-config",
            "{\"mcpServers\":{}}",
        ]
    );
}

#[test]
fn a_resumed_codex_delegate_gives_its_sandbox_as_configuration() {
    let session = SessionRef::parse("01a0").unwrap();
    let made =
        launch(&codex(None), &Config::empty(programs()), Some(&session), &env(&[]), false)
            .unwrap_or_else(|e| panic!("{}", message(e)));
    assert_eq!(
        made.args,
        vec![
            "exec",
            "resume",
            "01a0",
            "--json",
            "--skip-git-repo-check",
            "--model",
            "gpt-6",
            "--config",
            "model_reasoning_effort=\"xhigh\"",
            "--ignore-user-config",
            "--config",
            "features.hooks=false",
            "--config",
            "sandbox_mode=\"read-only\"",
            "--output-last-message",
            "/state/last.md",
            "-",
        ]
    );
}

#[test]
fn inheriting_settings_only_drops_the_isolation_flags() {
    let isolated = launch(&codex(None), &Config::empty(programs()), None, &env(&[]), false)
        .unwrap_or_else(|e| panic!("{}", message(e)));
    let inheriting = codex(None).with_isolation(Isolation::Inherit);
    let inherited = launch(&inheriting, &Config::empty(programs()), None, &env(&[]), false)
        .unwrap_or_else(|e| panic!("{}", message(e)));
    let at = isolated.args.iter().position(|a| a == "--ignore-user-config").unwrap();
    let mut kept = isolated.args.clone();
    let dropped: Vec<String> = kept.drain(at..at + 3).collect();
    assert_eq!(dropped, vec!["--ignore-user-config", "--config", "features.hooks=false"]);
    assert_eq!(inherited.args, kept);
}

#[test]
fn the_environment_is_an_allowlist() {
    let made = launch(&anthropic(None), &Config::empty(programs()), None, &env(&[]), false)
        .unwrap_or_else(|e| panic!("{}", message(e)));
    assert_eq!(made.env.get("PATH"), Some(&"/usr/bin".to_owned()));
    assert_eq!(made.env.get("NO_COLOR"), Some(&"1".to_owned()));
    assert_eq!(made.env.get("TERM"), Some(&"dumb".to_owned()));
    assert_eq!(made.env.get("CI"), Some(&"1".to_owned()));
    assert_eq!(made.env.get("SECRET_TOKEN"), None);
    // The session's own identity is never handed on, and its key is, when no account is named.
    assert_eq!(made.env.get("CLAUDE_CONFIG_DIR"), None);
    assert_eq!(made.env.get("ANTHROPIC_API_KEY"), Some(&"host-key".to_owned()));
    assert_eq!(made.env.get("OPENAI_API_KEY"), None);
    assert_eq!(made.env.get(DELEGATE_MARKER), Some(&"1".to_owned()));
}

#[test]
fn a_named_account_withholds_the_hosts_own_key() {
    let account = Account {
        config_dir: Some("~/accounts/work".to_owned()),
        ..Account::default()
    };
    let config = with_account("work", &cli(), account);
    let made = launch(&anthropic(Some("work")), &config, None, &env(&[]), true)
        .unwrap_or_else(|e| panic!("{}", message(e)));
    assert_eq!(made.env.get("ANTHROPIC_API_KEY"), None);
    assert_eq!(made.env.get("CLAUDE_CONFIG_DIR"), Some(&"/home/dev/accounts/work".to_owned()));
}

#[test]
fn a_missing_account_directory_is_refused() {
    let account = Account { config_dir: Some("/gone".to_owned()), ..Account::default() };
    let config = with_account("work", "codex", account);
    let error = match launch(&codex(Some("work")), &config, None, &env(&[]), false) {
        Err(error) => error,
        Ok(_) => panic!("launched"),
    };
    assert_eq!(
        message(error),
        "the codex account `work` points at /gone, which does not exist. Either that account has not been logged in on this machine, or the path is wrong."
    );
}

#[test]
fn an_unknown_alias_names_those_there_are() {
    let account = Account { base_url: Some("https://x".to_owned()), ..Account::default() };
    let mut config = with_account("work", "codex", account);
    config.source = Some("/home/dev/agentmux.toml".to_owned());
    let error = match launch(&codex(Some("play")), &config, None, &env(&[]), true) {
        Err(error) => error,
        Ok(_) => panic!("launched"),
    };
    assert_eq!(
        message(error),
        "no codex account named `play` is configured. /home/dev/agentmux.toml defines: work."
    );
    let none = match launch(
        &codex(Some("play")),
        &Config::empty(programs()),
        None,
        &env(&[]),
        true,
    ) {
        Err(error) => message(error),
        Ok(_) => panic!("launched"),
    };
    assert!(none.starts_with("no codex account named `play` is configured. No agentmux.toml"));
}

#[test]
fn a_secret_read_from_an_unset_variable_is_an_error() {
    let account = Account { api_key_env: Some("NOT_SET".to_owned()), ..Account::default() };
    let error = match launch(
        &codex(Some("work")),
        &with_account("work", "codex", account),
        None,
        &env(&[]),
        true,
    ) {
        Err(error) => message(error),
        Ok(_) => panic!("launched"),
    };
    assert_eq!(
        error,
        "cannot build the delegate environment: the codex account `work` reads api_key from $NOT_SET, which is not set in the environment agentmux was launched with."
    );
}

#[test]
fn a_variable_wins_over_a_literal_key() {
    let account = Account {
        api_key: Some(Secret::new("literal")),
        api_key_env: Some("WORK_KEY".to_owned()),
        ..Account::default()
    };
    let made = launch(
        &codex(Some("work")),
        &with_account("work", "codex", account),
        None,
        &env(&[]),
        true,
    )
    .unwrap_or_else(|e| panic!("{}", message(e)));
    let name = credential_vars(Vendor::Codex).api_key;
    assert_eq!(made.env.get(name), Some(&"from-host".to_owned()));
}

#[test]
fn an_auth_token_is_only_for_anthropics_cli() {
    let account = Account { auth_token: Some(Secret::new("t")), ..Account::default() };
    let error = match launch(
        &codex(Some("work")),
        &with_account("work", "codex", account),
        None,
        &env(&[]),
        true,
    ) {
        Err(error) => message(error),
        Ok(_) => panic!("launched"),
    };
    assert_eq!(
        error,
        spelt("cannot build the delegate environment: the codex account `work` sets an auth token, which only the {cli} CLI reads. Use `api_key` or `api_key_env` instead.")
    );
}

#[test]
fn an_empty_account_is_refused() {
    let error = match launch(
        &codex(Some("work")),
        &with_account("work", "codex", Account::default()),
        None,
        &env(&[]),
        true,
    ) {
        Err(error) => message(error),
        Ok(_) => panic!("launched"),
    };
    assert!(error.contains("the codex account `work` is configured but empty."));
}

#[test]
fn a_request_sets_only_the_names_the_machine_lists() {
    let mut config = Config::empty(programs());
    config.launch.request_env.push("TARGET".to_owned());
    let made = launch(&codex(None), &config, None, &env(&[("TARGET", "x")]), true)
        .unwrap_or_else(|e| panic!("{}", message(e)));
    assert_eq!(made.env.get("TARGET"), Some(&"x".to_owned()));
    let refused = match launch(&codex(None), &config, None, &env(&[("OTHER", "x")]), true) {
        Err(error) => message(error),
        Ok(_) => panic!("launched"),
    };
    assert_eq!(
        refused,
        "cannot build the delegate environment: `OTHER` cannot be set per request: a request may only set the names agentmux.toml lists under `request_env` (TARGET). Standing settings belong in an account or in `[launch]`, which no request can reach."
    );
    let nul = match launch(&codex(None), &config, None, &env(&[("TARGET", "a\0b")]), true) {
        Err(error) => message(error),
        Ok(_) => panic!("launched"),
    };
    assert_eq!(
        nul,
        "env has a value containing a NUL byte, which no environment can carry: \"TARGET\""
    );
}

#[test]
fn no_layer_can_change_the_recursion_marker() {
    let mut config = Config::empty(programs());
    config.launch.env.insert(DELEGATE_MARKER, Secret::new("0"));
    let made = launch(&codex(None), &config, None, &env(&[]), true)
        .unwrap_or_else(|e| panic!("{}", message(e)));
    assert_eq!(made.env.get(DELEGATE_MARKER), Some(&"1".to_owned()));
}

#[test]
fn a_checkouts_account_is_never_inherited() {
    let account = Account {
        base_url: Some("https://x".to_owned()),
        inherit_settings: Some(true),
        ..Account::default()
    };
    let mut config = with_account("work", "codex", account);
    config.defaults.insert("codex", Defaults { account: Some("work".to_owned()) });
    assert_eq!(codex(None).resolved_isolation(&config), Isolation::Inherit);
    assert_eq!(codex(Some("work")).resolved_isolation(&config), Isolation::Inherit);
    config.project_source = Some("/work/agentmux.toml".to_owned());
    config.project_defaults.insert("codex", ());
    assert_eq!(codex(None).resolved_isolation(&config), Isolation::Isolated);
}

#[test]
fn a_credential_is_known_by_its_name() {
    for name in ["ANTHROPIC_API_KEY", "ANTHROPIC_AUTH_TOKEN", "OPENAI_API_KEY", "CODEX_HOME"] {
        assert!(is_credential_name(name), "{name}");
    }
    assert!(!is_credential_name("PATH"));
    assert!(!is_credential_name("CLAUDE_CONFIG_DIR"));
}

#[test]
fn every_child_starts_from_the_same_base() {
    let base = base_env(Platform::Unix, &env(&[("PATH", "/bin"), ("LD_PRELOAD", "x")]));
    assert_eq!(base.get("PATH"), Some(&"/bin".to_owned()));
    assert_eq!(base.get("LD_PRELOAD"), None);
    assert_eq!(base.len(), 4);
}

#[test]
fn a_summary_names_what_is_not_the_default() {
    assert_eq!(
        anthropic(Some("work")).with_isolation(Isolation::Inherit).summary(&programs()),
        spelt("{cli} {cli}-opus-5 effort=high account=work settings=inherited")
    );
    let bare = Delegate::from_parts(
        Vendor::Codex,
        "gpt-6",
        None,
        None,
        None,
        Some(CodexSandbox::WorkspaceWrite),
    )
    .unwrap();
    assert_eq!(
        bare.summary(&programs()),
        "codex gpt-6 effort=cli-default sandbox=workspace-write account=cli-default"
    );
}

#[test]
fn each_layer_overrides_the_last() {
    let mut account = Account::default();
    account.api_key = Some(Secret::new("k"));
    account.launch.env.insert("SHARED", Secret::new("account"));
    account.launch.env.insert("ASKED", Secret::new("account"));
    let mut config = with_account("work", "codex", account);
    for name in ["SHARED", "ASKED", "PATH", "MACHINE"] {
        config.launch.env.insert(name, Secret::new("machine"));
    }
    config.launch.request_env.push("ASKED".to_owned());
    let asked = env(&[("ASKED", "call")]);
    let made = launch(&codex(Some("work")), &config, None, &asked, true).unwrap();
    let value = |name: &str| made.env.get(name).map(String::as_str);
    assert_eq!(value("ASKED"), Some("call"));
    assert_eq!(value("SHARED"), Some("account"));
    assert_eq!(value("MACHINE"), Some("machine"));
    assert_eq!(value("PATH"), Some("machine"));
    assert_eq!(value("HOME"), Some("/home/dev"));
    assert_eq!(value(DELEGATE_MARKER), Some("1"));
}

#[test]
fn without_an_account_the_hosts_login_is_used_and_its_session_is_not() {
    let config = Config::empty(programs());
    let made = launch(&codex(None), &config, None, &env(&[]), true).unwrap();
    assert_eq!(made.env.get("CODEX_HOME").unwrap(), "/host/codex");
    assert_eq!(made.env.get("OPENAI_API_KEY").unwrap(), "host-openai");
    let made = launch(&anthropic(None), &config, None, &env(&[]), true).unwrap();
    assert_eq!(made.env.get("ANTHROPIC_API_KEY").unwrap(), "host-key");
    assert!(!made.env.contains_key("CLAUDE_CONFIG_DIR"));

    let mut config = Config::empty(programs());
    config.launch.env_passthrough.push("CLAUDE_CONFIG_DIR".to_owned());
    let made = launch(&anthropic(None), &config, None, &env(&[]), true).unwrap();
    assert_eq!(made.env.get("CLAUDE_CONFIG_DIR").unwrap(), "/host/session");
}

#[test]
fn a_model_and_an_effort_are_passed_on_as_they_are() {
    let follows = |args: &[String], flag: &str| -> Vec<String> {
        args.windows(2)
            .filter(|pair| pair[0] == flag)
            .map(|pair| pair[1].clone())
            .collect()
    };
    let session = SessionRef::parse("thread-1").unwrap();
    let config = Config::empty(programs());
    for resume in [None, Some(&session)] {
        let delegate = Delegate::from_parts(
            Vendor::Claude,
            "never-heard-of-it-9[1m]",
            Some("ultra-high"),
            None,
            None,
            None,
        )
        .unwrap();
        let made = launch(&delegate, &config, resume, &env(&[]), true).unwrap();
        assert_eq!(follows(&made.args, "--model"), ["never-heard-of-it-9[1m]"]);
        assert_eq!(follows(&made.args, "--effort"), ["ultra-high"]);
        let made = launch(&codex(None), &config, resume, &env(&[]), true).unwrap();
        assert_eq!(follows(&made.args, "--model"), ["gpt-6"]);
        assert_eq!(
            follows(&made.args, "--config")[0],
            "model_reasoning_effort=\"xhigh\""
        );
    }
}

#[test]
fn a_codex_sandbox_stands_whatever_is_inherited() {
    let config = Config::empty(programs());
    let made = |isolation: Isolation| {
        let delegate = codex(None).with_isolation(isolation);
        launch(&delegate, &config, None, &env(&[]), true).unwrap().args
    };
    let isolated = made(Isolation::Isolated);
    let inherited = made(Isolation::Inherit);
    let kept: Vec<String> = isolated
        .iter()
        .filter(|arg| *arg != "--ignore-user-config" && *arg != "features.hooks=false")
        .cloned()
        .collect();
    assert_eq!(kept.len(), inherited.len() + 1);
    for args in [&isolated, &inherited] {
        assert!(args.windows(2).any(|pair| pair[0] == "--sandbox" && pair[1] == "read-only"));
    }
    assert!(!inherited.contains(&"--ignore-user-config".to_owned()));
}
