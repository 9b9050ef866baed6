//! The machine's configuration file, and what a checkout may add to it.

use agentmux::config::{
    canonical_env_name, check_env_name, home_dir, refuse_if_untrusted, unknown_keys,
    unknown_keys_in,
    without_quoted_values, Account, ChosenBy, Config, ConfigError, Defaults, FileFacts, Found,
    KeyEntry, KeyTree, LaunchEnv, Platform, Secret, UnknownKey,
};
use agentmux::delegate::{Programs, Vendor};
use agentmux::ordered::TextMap;
use agentmux::path::{
    ancestors, components, expand_tilde, is_absolute, join_path, same_path, starts_with,
};

fn programs() -> Programs {
    Programs::installed()
}

fn env(pairs: &[(&str, &str)]) -> TextMap<String> {
    let mut map: TextMap<String> = TextMap::new();
    for (name, value) in pairs {
        map.insert(name, (*value).to_owned());
    }
    map
}

fn work() -> Account {
    Account { base_url: Some("https://x".to_owned()), ..Account::default() }
}

fn machine() -> Config {
    let mut config = Config::empty(programs());
    let mut accounts: TextMap<Account> = TextMap::new();
    accounts.insert("work", work());
    accounts.insert("home", work());
    config.accounts.insert("codex", accounts);
    config.defaults.insert("codex", Defaults { account: Some("work".to_owned()) });
    config
}

fn choosing(alias: &str) -> Config {
    let mut config = Config::empty(programs());
    config.defaults.insert("codex", Defaults { account: Some(alias.to_owned()) });
    config
}

fn found(path: &str, read: Result<Config, ConfigError>) -> Option<Found> {
    Some(Found { path: path.to_owned(), read })
}

fn refused<T>(r: Result<T, ConfigError>) -> String {
    match r {
        Err(error) => error.message(),
        Ok(_) => panic!("accepted"),
    }
}

#[test]
fn a_checkout_only_chooses_the_account() {
    let config = Config::load(
        Platform::Unix,
        &programs(),
        &env(&[("HOME", "/home/dev")]),
        found("/home/dev/agentmux.toml", Ok(machine())),
        found("/work/agentmux.toml", Ok(choosing("home"))),
    )
    .unwrap_or_else(|e| panic!("{}", e.message()));
    let default = config.default_account(Vendor::Codex).unwrap();
    assert_eq!(default.alias, "home");
    assert!(matches!(default.chosen_by, ChosenBy::Project("/work/agentmux.toml")));
    assert_eq!(config.alias_names(Vendor::Codex), vec!["home", "work"]);
}

#[test]
fn a_choice_that_restates_the_machines_is_the_machines() {
    let config = Config::load(
        Platform::Unix,
        &programs(),
        &env(&[]),
        found("/home/dev/agentmux.toml", Ok(machine())),
        found("/work/agentmux.toml", Ok(choosing("work"))),
    )
    .unwrap_or_else(|e| panic!("{}", e.message()));
    assert!(matches!(
        config.default_account(Vendor::Codex).unwrap().chosen_by,
        ChosenBy::Machine(_)
    ));
}

#[test]
fn a_checkout_that_defines_is_refused() {
    let text = refused(Config::load(
        Platform::Unix,
        &programs(),
        &env(&[]),
        None,
        found("/work/agentmux.toml", Ok(machine())),
    ));
    assert!(text.starts_with("/work/agentmux.toml defines accounts, model rewrites or a [launch]"));
}

#[test]
fn an_explicit_path_must_be_absolute_and_there() {
    assert_eq!(
        refused(Config::load(
            Platform::Unix,
            &programs(),
            &env(&[("AGENTMUX_CONFIG", "here.toml")]),
            None,
            None
        )),
        "AGENTMUX_CONFIG must be an absolute path, not here.toml"
    );
    assert_eq!(
        refused(Config::load(
            Platform::Unix,
            &programs(),
            &env(&[("AGENTMUX_CONFIG", "/gone.toml")]),
            None,
            None
        )),
        "AGENTMUX_CONFIG points at /gone.toml, which does not exist"
    );
    assert!(Config::load(Platform::Unix, &programs(), &env(&[]), None, None).is_ok());
}

#[test]
fn a_rewrite_is_never_a_chain() {
    let mut config = Config::empty(programs());
    let mut rules: TextMap<String> = TextMap::new();
    rules.insert("a", "b".to_owned());
    rules.insert("b", "c".to_owned());
    config.models.insert("codex", rules);
    assert!(refused(config.validate("/f")).contains(
        "rewrites the model \"a\" to \"b\", which it rewrites again"
    ));
    let mut config = Config::empty(programs());
    let mut rules: TextMap<String> = TextMap::new();
    rules.insert("a", "b".to_owned());
    rules.insert("b", "b".to_owned());
    config.models.insert("codex", rules);
    assert!(config.validate("/f").is_ok());
    assert_eq!(config.rewritten_model(Vendor::Codex, "a"), Some("b"));
    assert_eq!(config.rewritten_model(Vendor::Codex, "b"), None);
    assert_eq!(config.rewritten_model(Vendor::Claude, "a"), None);
}

#[test]
fn an_alias_nobody_could_pass_is_refused() {
    let mut config = Config::empty(programs());
    let mut accounts: TextMap<Account> = TextMap::new();
    accounts.insert("a b", work());
    config.accounts.insert("codex", accounts);
    assert!(refused(config.validate("/f")).starts_with("the agentmux config at /f names "));
}

#[test]
fn an_unreadable_and_a_malformed_file_say_so() {
    assert_eq!(
        ConfigError::Unreadable { path: "/f".to_owned(), source: "denied".to_owned() }.message(),
        "cannot read the agentmux config at /f: denied"
    );
    assert_eq!(
        ConfigError::Malformed {
            path: "/f".to_owned(),
            message: "expected `=`".to_owned(),
            offset: Some(12)
        }
        .message(),
        "the agentmux config at /f is not valid (at byte 12 of the file): expected `=`"
    );
}

#[test]
fn a_file_another_user_could_write_is_refused() {
    let facts = FileFacts { is_file: true, owner: 1, user: 1, mode: 0o100644 };
    assert!(refuse_if_untrusted("/f", &facts).is_ok());
    let writable = FileFacts { mode: 0o100664, ..facts };
    assert_eq!(
        refused(refuse_if_untrusted("/f", &writable)),
        "/f is writable by other users, and it can name commands, endpoints and credentials. Make it owned by you and writable only by you (`chmod go-w /f`) before agentmux will read it."
    );
    let foreign = FileFacts { owner: 2, mode: 0o100644, ..writable };
    assert!(refused(refuse_if_untrusted("/f", &foreign)).starts_with("/f is owned by another"));
    let odd = FileFacts { is_file: false, ..foreign };
    assert!(refused(refuse_if_untrusted("/f", &odd)).starts_with("/f is not a regular file"));
}

#[test]
fn a_quoted_value_is_blanked() {
    assert_eq!(
        without_quoted_values("invalid type: string \"sk-1\", expected \"x\" here"),
        "invalid type: string \"…\", expected \"…\" here"
    );
    assert_eq!(without_quoted_values("an open \"sk-1"), "an open \"…");
}

#[test]
fn a_misspelled_key_is_reported_with_its_place() {
    let written = vec![KeyEntry {
        key: "accounts".to_owned(),
        value: KeyTree::Table(vec![KeyEntry {
            key: "codex".to_owned(),
            value: KeyTree::Table(vec![
                KeyEntry { key: "configdir".to_owned(), value: KeyTree::Leaf },
                KeyEntry { key: "env".to_owned(), value: KeyTree::Table(Vec::new()) },
            ]),
        }]),
    }];
    let understood = vec![KeyEntry {
        key: "accounts".to_owned(),
        value: KeyTree::Table(vec![KeyEntry {
            key: "codex".to_owned(),
            value: KeyTree::Table(Vec::new()),
        }]),
    }];
    assert_eq!(
        unknown_keys(&written, &understood, "/f"),
        vec![UnknownKey { file: "/f".to_owned(), key: "accounts.codex.configdir".to_owned() }]
    );
}

#[test]
fn a_secret_is_shown_to_nobody() {
    let secret = Secret::new("sk-1");
    assert_eq!(secret.expose(), "sk-1");
    assert_eq!(secret.redacted(), "<redacted>");
    assert_eq!(secret.debug_text(), "Secret(<redacted>)");
    assert_eq!(Secret::new("").debug_text(), "Secret(<redacted>)");
}

#[test]
fn names_are_spelled_the_way_the_platform_reads_them() {
    assert_eq!(canonical_env_name(Platform::Unix, "Path"), "Path");
    assert_eq!(canonical_env_name(Platform::Windows, "Path"), "PATH");
    assert!(check_env_name("").is_err());
    assert!(check_env_name("A=B").is_err());
    assert!(check_env_name("TARGET").is_ok());
}

#[test]
fn a_launch_layer_forwards_and_sets() {
    let mut layer = LaunchEnv::default();
    assert!(layer.is_empty());
    layer.env.insert("A", Secret::new("1"));
    layer.env_passthrough.push("B".to_owned());
    layer.env_passthrough.push("MISSING".to_owned());
    assert!(!layer.is_empty());
    let mut target = env(&[("A", "0"), ("C", "3")]);
    layer.apply(&mut target, &env(&[("B", "2")]));
    assert_eq!(target.get("A"), Some(&"1".to_owned()));
    assert_eq!(target.get("B"), Some(&"2".to_owned()));
    assert_eq!(target.get("C"), Some(&"3".to_owned()));
    assert_eq!(target.get("MISSING"), None);
}

#[test]
fn a_file_is_read_under_the_platforms_spelling() {
    let mut config = machine();
    config.launch.request_env.push("Target".to_owned());
    let read = Config::read(config, "/f", Vec::new(), Platform::Windows)
        .unwrap_or_else(|e| panic!("{}", e.message()));
    assert_eq!(read.launch.request_env, vec!["TARGET"]);
    assert_eq!(read.source, Some("/f".to_owned()));
}

#[test]
fn the_effort_of_a_model_is_the_machines() {
    let mut config = Config::empty(programs());
    let mut efforts: TextMap<String> = TextMap::new();
    efforts.insert("gpt-6", "high".to_owned());
    config.efforts.insert("codex", efforts);
    assert_eq!(config.default_effort(Vendor::Codex, "gpt-6"), Some("high"));
    assert_eq!(config.default_effort(Vendor::Codex, "gpt-5"), None);
}

#[test]
fn machine_files_lie_under_home() {
    assert_eq!(
        Config::machine_paths(
            Platform::Unix,
            &env(&[("HOME", "/home/dev"), ("XDG_CONFIG_HOME", "/elsewhere")])
        ),
        vec!["/home/dev/.config/agentmux/agentmux.toml", "/home/dev/agentmux.toml"]
    );
    assert_eq!(
        Config::machine_paths(
            Platform::Unix,
            &env(&[("HOME", "/home/dev"), ("XDG_CONFIG_HOME", "/home/dev/x")])
        ),
        vec![
            "/home/dev/x/agentmux/agentmux.toml",
            "/home/dev/.config/agentmux/agentmux.toml",
            "/home/dev/agentmux.toml",
        ]
    );
    assert_eq!(home_dir(&env(&[("HOME", "/home/dev")])), Some("/home/dev".to_owned()));
}

#[test]
fn a_project_is_walked_to_its_repository_and_never_to_home() {
    assert_eq!(
        Config::project_paths(
            Platform::Unix,
            "/srv/repo/a",
            Some("/home/dev"),
            &vec![false, true, false, false]
        ),
        vec!["/srv/repo/a/agentmux.toml", "/srv/repo/agentmux.toml"]
    );
    assert_eq!(
        Config::project_paths(
            Platform::Unix,
            "/srv/loose/a",
            Some("/home/dev"),
            &vec![false, false, false, false]
        ),
        Vec::<String>::new()
    );
    assert_eq!(
        Config::project_paths(
            Platform::Unix,
            "/home/dev/a",
            Some("/home/dev"),
            &vec![false, true, false, false]
        ),
        vec!["/home/dev/a/agentmux.toml"]
    );
}

#[test]
fn paths_are_joined_and_compared_by_their_parts() {
    assert!(is_absolute(Platform::Unix, "/a"));
    assert!(!is_absolute(Platform::Unix, "a/b"));
    assert_eq!(join_path(Platform::Unix, "/a", "b"), "/a/b");
    assert_eq!(join_path(Platform::Unix, "/a/", "b"), "/a/b");
    assert_eq!(join_path(Platform::Unix, "/a", "/b"), "/b");
    assert_eq!(components(Platform::Unix, "/a//b/"), components(Platform::Unix, "/a/b"));
    assert!(same_path(Platform::Unix, "/a//b", "/a/b/"));
    assert!(starts_with(Platform::Unix, "/a/b", "/a"));
    assert!(!starts_with(Platform::Unix, "/ab", "/a"));
    assert_eq!(expand_tilde(Platform::Unix, "~/x", Some("/home/dev")), "/home/dev/x");
    assert_eq!(expand_tilde(Platform::Unix, "~other", Some("/home/dev")), "~other");
    assert_eq!(ancestors(Platform::Unix, "/a/b"), vec!["/a/b", "/a", "/"]);
}

/// A place on a Windows machine.
const AT_HOME: &str = "C:\\Users\\u";

#[test]
fn a_windows_path_is_divided_by_either_separator() {
    let on = Platform::Windows;
    assert!(is_absolute(on, "C:\\a"));
    assert!(is_absolute(on, "c:/a"));
    assert!(is_absolute(on, "\\\\server\\share"));
    assert!(is_absolute(on, "\\\\?\\C:"));
    assert!(!is_absolute(on, "C:a"));
    assert!(!is_absolute(on, "\\a"));
    assert!(!is_absolute(on, "/a"));
    assert!(!is_absolute(on, "a"));
    assert!(!is_absolute(Platform::Unix, "C:\\a"));
    assert_eq!(components(on, "c:/a\\.\\b/"), vec!["C:", "\\", "a", "b"]);
    assert_eq!(components(on, "C:a"), vec!["C:", "a"]);
    assert_eq!(components(on, "//server/share/a"), vec!["//server/share", "\\", "a"]);
    assert_eq!(components(on, "\\\\.\\COM1"), vec!["\\\\.\\COM1", "\\"]);
    assert_eq!(components(on, "\\\\?\\c:\\a/b\\."), vec!["\\\\?\\C:", "\\", "a/b", "."]);
    assert_eq!(
        components(on, "\\\\?\\UNC\\server\\share\\a"),
        vec!["\\\\?\\UNC\\server\\share", "\\", "a"]
    );
    assert_eq!(components(on, "\\\\?\\name"), vec!["\\\\?\\name"]);
    assert_eq!(components(on, "\\\\?\\C:/a\\b"), vec!["\\\\?\\C:", "\\", "a", "b"]);
    assert!(!same_path(on, "//?/C:/a", "\\\\?\\C:\\a"));
    assert_eq!(components(on, ".\\a"), vec![".", "a"]);
    assert_eq!(components(Platform::Unix, "C:\\a"), vec!["C:\\a"]);
    assert!(same_path(on, "C:\\a\\b", "c:/a//b/"));
    assert!(!same_path(on, "C:\\a", "C:\\A"));
    assert!(starts_with(on, "c:/Users/u/x", AT_HOME));
    assert!(!starts_with(on, "D:\\Users\\u\\x", AT_HOME));
    assert!(!starts_with(on, "\\\\?\\C:\\Users\\u\\x", AT_HOME));
}

#[test]
fn a_windows_path_is_joined_by_a_backslash() {
    let on = Platform::Windows;
    assert_eq!(join_path(on, "C:\\a", "b"), "C:\\a\\b");
    assert_eq!(join_path(on, "C:/a/", "b"), "C:/a/b");
    assert_eq!(join_path(on, "C:", "b"), "C:b");
    assert_eq!(join_path(on, "", "b"), "b");
    assert_eq!(join_path(on, "C:\\a", "D:b"), "D:b");
    assert_eq!(join_path(on, "C:\\a", "\\b"), "C:\\b");
    assert_eq!(join_path(on, "\\\\server\\share", "b"), "\\\\server\\share\\b");
    assert_eq!(join_path(on, "\\\\?\\C:\\a\\b", "..\\./c/d"), "\\\\?\\C:\\a\\c\\d");
    assert_eq!(join_path(on, "\\\\?\\C:/a", "b"), "\\\\?\\C:\\a\\b");
    assert_eq!(join_path(on, "\\\\?\\C:\\a", "/b"), "\\\\?\\C:\\b");
    assert_eq!(join_path(on, "\\\\?\\C:", ".."), "\\\\?\\C:");
    assert_eq!(join_path(on, "\\\\?\\C:\\a", ""), "\\\\?\\C:\\a\\");
    assert_eq!(expand_tilde(on, "~\\x", Some(AT_HOME)), "C:\\Users\\u\\x");
    assert_eq!(expand_tilde(on, "~/./x/", Some(AT_HOME)), "C:\\Users\\u\\x");
    assert_eq!(expand_tilde(on, "~", Some(AT_HOME)), "C:\\Users\\u\\");
    assert_eq!(expand_tilde(on, "~other", Some(AT_HOME)), "~other");
    assert_eq!(expand_tilde(Platform::Unix, "~\\x", Some("/home/dev")), "~\\x");
    assert_eq!(
        ancestors(on, "\\\\?\\C:\\a\\b"),
        vec!["\\\\?\\C:\\a\\b", "\\\\?\\C:\\a", "\\\\?\\C:\\"]
    );
    assert_eq!(ancestors(on, "C:/a"), vec!["C:/a", "C:/"]);
    assert_eq!(ancestors(on, "C:a"), vec!["C:a", "C:"]);
    assert_eq!(ancestors(Platform::Unix, "a"), vec!["a", ""]);
}

#[test]
fn machine_files_lie_under_home_on_windows() {
    let files = |vars: &[(&str, &str)]| Config::machine_paths(Platform::Windows, &env(vars));
    let own = vec![
        "C:\\Users\\u\\.config\\agentmux\\agentmux.toml".to_owned(),
        "C:\\Users\\u\\agentmux.toml".to_owned(),
    ];
    assert_eq!(files(&[("USERPROFILE", AT_HOME)]), own);
    let roaming = "C:\\Users\\u\\AppData\\Roaming";
    let mut all = own.clone();
    all.push(format!("{roaming}\\agentmux\\agentmux.toml"));
    assert_eq!(files(&[("USERPROFILE", AT_HOME), ("APPDATA", roaming)]), all);
    for elsewhere in ["D:\\x", "AppData", "C:\\Users\\u\\..\\v", "\\Users\\u\\x", "C:x"] {
        assert_eq!(files(&[("USERPROFILE", AT_HOME), ("APPDATA", elsewhere)]), own);
        assert_eq!(files(&[("USERPROFILE", AT_HOME), ("XDG_CONFIG_HOME", elsewhere)]), own);
    }
    assert_eq!(
        files(&[("USERPROFILE", AT_HOME), ("XDG_CONFIG_HOME", "c:/Users/u/.config")]),
        vec![
            "c:/Users/u/.config\\agentmux\\agentmux.toml".to_owned(),
            "C:\\Users\\u\\agentmux.toml".to_owned(),
        ]
    );
    assert_eq!(files(&[("USERPROFILE", "Users\\u"), ("APPDATA", roaming)]), Vec::<String>::new());
    assert_eq!(files(&[("APPDATA", roaming)]), Vec::<String>::new());
}

#[test]
fn a_windows_machine_is_configured_by_its_own_paths() {
    let load = |path: &str| {
        Config::load(Platform::Windows, &programs(), &env(&[("AGENTMUX_CONFIG", path)]), None, None)
    };
    assert_eq!(
        refused(load("C:\\gone.toml")),
        "AGENTMUX_CONFIG points at C:\\gone.toml, which does not exist"
    );
    assert_eq!(
        refused(load("\\gone.toml")),
        "AGENTMUX_CONFIG must be an absolute path, not \\gone.toml"
    );
    assert_eq!(
        Config::project_paths(
            Platform::Windows,
            "\\\\?\\C:\\Users\\u\\a",
            Some("\\\\?\\C:\\Users\\u"),
            &vec![false, false, false, false]
        ),
        vec!["\\\\?\\C:\\Users\\u\\a\\agentmux.toml"]
    );
}

#[test]
fn the_keys_of_a_file_are_read_from_its_text() {
    let understood = vec![KeyEntry {
        key: "accounts".to_owned(),
        value: KeyTree::Table(vec![KeyEntry {
            key: "codex".to_owned(),
            value: KeyTree::Table(Vec::new()),
        }]),
    }];
    let unknown = |text: &str| -> Vec<String> {
        unknown_keys_in(text, &understood, "/f")
            .iter()
            .map(UnknownKey::message)
            .collect()
    };
    assert_eq!(
        unknown("zebra = 1\nlist = [1]\nnone = []\n[accounts.codex]\nconfigdir = \"x\"\nenv = {}\n"),
        vec!["/f sets accounts.codex.configdir", "/f sets list", "/f sets zebra"]
    );
    assert_eq!(unknown("[accounts.codex]\n"), Vec::<String>::new());
    assert_eq!(unknown("not a document"), Vec::<String>::new());
}

#[test]
fn a_map_is_kept_in_the_order_of_its_keys() {
    let mut map: TextMap<String> = TextMap::new();
    map.insert("b", "2".to_owned());
    map.insert("a", "1".to_owned());
    map.insert("b", "3".to_owned());
    assert_eq!(map.len(), 2);
    assert_eq!(map.key_at(0), "a");
    assert_eq!(map.value_at(1), "3");
    map.remove("a");
    assert!(!map.contains_key("a"));
    assert_eq!(map.into_entries(), vec![("b".to_owned(), "3".to_owned())]);
}

#[test]
fn on_windows_case_never_tells_names_apart() {
    assert_eq!(canonical_env_name(Platform::Windows, "Path"), "PATH");
    assert_eq!(
        canonical_env_name(Platform::Windows, "path"),
        canonical_env_name(Platform::Windows, "PATH")
    );
    assert_eq!(canonical_env_name(Platform::Unix, "Path"), "Path");
}
