//! A configuration as plain values, with nothing secret among them.
//!
//! This is what the machine-readable form of the account listing is made of: whoever writes it out
//! never holds a secret.

use vstd::prelude::*;
use vstd::string::*;

use crate::config::{
    secret_of, unknown_of, Account, AccountModel, Config, ConfigModel, Defaults, LaunchEnv,
    LaunchModel, Platform, Secret, UnknownKey,
};
use crate::ordered::{copied_texts, in_order, lemma_one_more, map_of, walkable, TextMap};
use crate::report::{accounts_alike, accounts_report, alike, nothing_secret_is_printed};
use crate::text::{copied, text_of, texts};

verus! {

/// A [`LaunchEnv`], with its values redacted.
pub struct LaunchReport {
    /// Variables set to a literal value, each with the redaction in place of the value.
    pub env: TextMap<String>,
    /// Host variables to forward, by name.
    pub env_passthrough: Vec<String>,
    /// Names a single request may set.
    pub request_env: Vec<String>,
}

impl View for LaunchReport {
    type V = LaunchModel;

    open spec fn view(&self) -> LaunchModel {
        LaunchModel {
            env: self.env@,
            env_passthrough: texts(self.env_passthrough@),
            request_env: texts(self.request_env@),
        }
    }
}

/// An [`Account`], with its secrets redacted.
pub struct AccountReport {
    /// The configuration directory.
    pub config_dir: Option<String>,
    /// The redaction, where the file holds an API key.
    pub api_key: Option<String>,
    /// The variable to read the API key from.
    pub api_key_env: Option<String>,
    /// The redaction, where the file holds an OAuth token.
    pub auth_token: Option<String>,
    /// The variable to read the OAuth token from.
    pub auth_token_env: Option<String>,
    /// The endpoint.
    pub base_url: Option<String>,
    /// Whether delegates inherit the account's settings.
    pub inherit_settings: Option<bool>,
    /// Free text.
    pub description: Option<String>,
    /// Environment applied when the account is used.
    pub launch: LaunchReport,
}

impl View for AccountReport {
    type V = AccountModel;

    open spec fn view(&self) -> AccountModel {
        AccountModel {
            config_dir: text_of(self.config_dir),
            api_key: text_of(self.api_key),
            api_key_env: text_of(self.api_key_env),
            auth_token: text_of(self.auth_token),
            auth_token_env: text_of(self.auth_token_env),
            base_url: text_of(self.base_url),
            inherit_settings: self.inherit_settings,
            description: text_of(self.description),
            launch: self.launch@,
        }
    }
}

/// A [`Config`], with every secret redacted.
pub struct ConfigReport {
    /// The machine file.
    pub source: Option<String>,
    /// The project file.
    pub project_source: Option<String>,
    /// Accounts by vendor, then by alias.
    pub accounts: TextMap<TextMap<AccountReport>>,
    /// Default accounts by vendor.
    pub defaults: TextMap<Defaults>,
    /// Model rewrites by vendor.
    pub models: TextMap<TextMap<String>>,
    /// Reasoning efforts by vendor, then by model.
    pub efforts: TextMap<TextMap<String>>,
    /// Environment applied to every launch.
    pub launch: LaunchReport,
    /// Keys that are not read.
    pub unknown: Vec<UnknownKey>,
}

/// What a [`ConfigReport`] says.
#[verifier::ext_equal]
pub struct ConfigReportModel {
    /// The machine file.
    pub source: Option<Seq<char>>,
    /// The project file.
    pub project_source: Option<Seq<char>>,
    /// Accounts by vendor, then by alias.
    pub accounts: Map<Seq<char>, Map<Seq<char>, AccountModel>>,
    /// Default accounts by vendor.
    pub defaults: Map<Seq<char>, Option<Seq<char>>>,
    /// Model rewrites by vendor.
    pub models: Map<Seq<char>, Map<Seq<char>, Seq<char>>>,
    /// Reasoning efforts by vendor, then by model.
    pub efforts: Map<Seq<char>, Map<Seq<char>, Seq<char>>>,
    /// Environment applied to every launch.
    pub launch: LaunchModel,
    /// Keys that are not read.
    pub unknown: Seq<(Seq<char>, Seq<char>)>,
}

impl View for ConfigReport {
    type V = ConfigReportModel;

    open spec fn view(&self) -> ConfigReportModel {
        ConfigReportModel {
            source: text_of(self.source),
            project_source: text_of(self.project_source),
            accounts: self.accounts@,
            defaults: self.defaults@,
            models: self.models@,
            efforts: self.efforts@,
            launch: self.launch@,
            unknown: unknown_of(self.unknown@),
        }
    }
}

/// What stands in place of every secret.
pub open spec fn redaction() -> Seq<char> {
    "<redacted>"@
}

/// What is told of a secret that may be absent: whether it is there.
pub open spec fn redacted_value(secret: Option<Seq<char>>) -> Option<Seq<char>> {
    match secret {
        Some(_) => Some(redaction()),
        None => None,
    }
}

/// What is told of a launch environment: its names.
pub open spec fn redacted_launch(launch: LaunchModel) -> LaunchModel {
    LaunchModel { env: launch.env.map_values(|value: Seq<char>| redaction()), ..launch }
}

/// What is told of an account.
pub open spec fn redacted_account(account: AccountModel) -> AccountModel {
    AccountModel {
        api_key: redacted_value(account.api_key),
        auth_token: redacted_value(account.auth_token),
        launch: redacted_launch(account.launch),
        ..account
    }
}

/// What is told of the accounts of a vendor.
pub open spec fn redacted_accounts(accounts: Map<Seq<char>, AccountModel>) -> Map<
    Seq<char>,
    AccountModel,
> {
    accounts.map_values(|account: AccountModel| redacted_account(account))
}

/// What is told of a configuration: all of it, with the redaction in every place of a secret.
pub open spec fn redacted_config(config: ConfigModel) -> ConfigReportModel {
    ConfigReportModel {
        source: config.source,
        project_source: config.project_source,
        accounts: config.accounts.map_values(
            |accounts: Map<Seq<char>, AccountModel>| redacted_accounts(accounts),
        ),
        defaults: config.defaults,
        models: config.models,
        efforts: config.efforts,
        launch: redacted_launch(config.launch),
        unknown: config.unknown,
    }
}

fn redact(secret: &Option<Secret>) -> (r: Option<String>)
    ensures
        text_of(r) == redacted_value(secret_of(*secret)),
{
    match secret {
        Some(secret) => Some(secret.redacted().to_owned()),
        None => None,
    }
}

fn optional(text: &Option<String>) -> (r: Option<String>)
    ensures
        text_of(r) == text_of(*text),
{
    match text {
        Some(text) => Some(text.clone()),
        None => None,
    }
}

fn report_launch(launch: &LaunchEnv) -> (r: LaunchReport)
    ensures
        r@ == redacted_launch(launch@),
{
    let n: usize = launch.env.len();
    let mut env: TextMap<String> = TextMap::new();
    let ghost entries = launch.env.pairs();
    let ghost hide = |value: Seq<char>| redaction();
    let mut i: usize = 0;
    assert(map_of(entries.take(0)).map_values(hide) =~= Map::empty());
    while i < n
        invariant
            i <= n,
            n == entries.len(),
            entries == launch.env.pairs(),
            in_order(launch.env@) == entries,
            walkable(launch.env@),
            hide == (|value: Seq<char>| redaction()),
            env@ == map_of(entries.take(i as int)).map_values(hide),
        decreases n - i,
    {
        let key = launch.env.key_at(i);
        let value = launch.env.value_at(i).redacted().to_owned();
        proof {
            lemma_one_more(entries, i as int);
        }
        env.insert(key.as_str(), value);
        i = i + 1;
        assert(env@ =~= map_of(entries.take(i as int)).map_values(hide));
    }
    assert(entries.take(i as int) =~= entries);
    let r = LaunchReport {
        env,
        env_passthrough: copied(&launch.env_passthrough),
        request_env: copied(&launch.request_env),
    };
    assert(r@ =~= redacted_launch(launch@));
    r
}

fn report_account(account: &Account) -> (r: AccountReport)
    ensures
        r@ == redacted_account(account@),
{
    AccountReport {
        config_dir: optional(&account.config_dir),
        api_key: redact(&account.api_key),
        api_key_env: optional(&account.api_key_env),
        auth_token: redact(&account.auth_token),
        auth_token_env: optional(&account.auth_token_env),
        base_url: optional(&account.base_url),
        inherit_settings: account.inherit_settings,
        description: optional(&account.description),
        launch: report_launch(&account.launch),
    }
}

fn report_accounts(accounts: &TextMap<Account>) -> (r: TextMap<AccountReport>)
    ensures
        r@ == redacted_accounts(accounts@),
{
    let n: usize = accounts.len();
    let mut out: TextMap<AccountReport> = TextMap::new();
    let ghost entries = accounts.pairs();
    let mut i: usize = 0;
    assert(redacted_accounts(map_of(entries.take(0))) =~= Map::empty());
    while i < n
        invariant
            i <= n,
            n == entries.len(),
            entries == accounts.pairs(),
            in_order(accounts@) == entries,
            walkable(accounts@),
            out@ == redacted_accounts(map_of(entries.take(i as int))),
        decreases n - i,
    {
        let key = accounts.key_at(i);
        let value = report_account(accounts.value_at(i));
        proof {
            lemma_one_more(entries, i as int);
        }
        out.insert(key.as_str(), value);
        i = i + 1;
        assert(out@ =~= redacted_accounts(map_of(entries.take(i as int))));
    }
    assert(entries.take(i as int) =~= entries);
    out
}

fn report_vendors(vendors: &TextMap<TextMap<Account>>) -> (r: TextMap<TextMap<AccountReport>>)
    ensures
        r@ == vendors@.map_values(
            |accounts: Map<Seq<char>, AccountModel>| redacted_accounts(accounts),
        ),
{
    let n: usize = vendors.len();
    let mut out: TextMap<TextMap<AccountReport>> = TextMap::new();
    let ghost entries = vendors.pairs();
    let ghost hide = |accounts: Map<Seq<char>, AccountModel>| redacted_accounts(accounts);
    let mut i: usize = 0;
    assert(map_of(entries.take(0)).map_values(hide) =~= Map::empty());
    while i < n
        invariant
            i <= n,
            n == entries.len(),
            entries == vendors.pairs(),
            in_order(vendors@) == entries,
            walkable(vendors@),
            hide == (|accounts: Map<Seq<char>, AccountModel>| redacted_accounts(accounts)),
            out@ == map_of(entries.take(i as int)).map_values(hide),
        decreases n - i,
    {
        let key = vendors.key_at(i);
        let value = report_accounts(vendors.value_at(i));
        proof {
            lemma_one_more(entries, i as int);
        }
        out.insert(key.as_str(), value);
        i = i + 1;
        assert(out@ =~= map_of(entries.take(i as int)).map_values(hide));
    }
    assert(entries.take(i as int) =~= entries);
    out
}

fn copied_defaults(defaults: &TextMap<Defaults>) -> (r: TextMap<Defaults>)
    ensures
        r@ == defaults@,
{
    let n: usize = defaults.len();
    let mut out: TextMap<Defaults> = TextMap::new();
    let ghost entries = defaults.pairs();
    let mut i: usize = 0;
    assert(map_of(entries.take(0)) =~= Map::empty());
    while i < n
        invariant
            i <= n,
            n == entries.len(),
            entries == defaults.pairs(),
            in_order(defaults@) == entries,
            walkable(defaults@),
            out@ == map_of(entries.take(i as int)),
        decreases n - i,
    {
        let key = defaults.key_at(i);
        let value = Defaults { account: optional(&defaults.value_at(i).account) };
        proof {
            lemma_one_more(entries, i as int);
        }
        out.insert(key.as_str(), value);
        i = i + 1;
    }
    assert(entries.take(i as int) =~= entries);
    out
}

fn copied_tables(tables: &TextMap<TextMap<String>>) -> (r: TextMap<TextMap<String>>)
    ensures
        r@ == tables@,
{
    let n: usize = tables.len();
    let mut out: TextMap<TextMap<String>> = TextMap::new();
    let ghost entries = tables.pairs();
    let mut i: usize = 0;
    assert(map_of(entries.take(0)) =~= Map::empty());
    while i < n
        invariant
            i <= n,
            n == entries.len(),
            entries == tables.pairs(),
            in_order(tables@) == entries,
            walkable(tables@),
            out@ == map_of(entries.take(i as int)),
        decreases n - i,
    {
        let key = tables.key_at(i);
        let value = copied_texts(tables.value_at(i));
        proof {
            lemma_one_more(entries, i as int);
        }
        out.insert(key.as_str(), value);
        i = i + 1;
    }
    assert(entries.take(i as int) =~= entries);
    out
}

fn copied_keys(keys: &Vec<UnknownKey>) -> (r: Vec<UnknownKey>)
    ensures
        unknown_of(r@) == unknown_of(keys@),
{
    let mut out: Vec<UnknownKey> = Vec::new();
    let mut i: usize = 0;
    while i < keys.len()
        invariant
            i <= keys.len(),
            out@.len() == i,
            forall|j: int| 0 <= j < i ==> (#[trigger] out@[j])@ == keys@[j]@,
        decreases keys.len() - i,
    {
        out.push(UnknownKey { file: keys[i].file.clone(), key: keys[i].key.clone() });
        i = i + 1;
    }
    assert(unknown_of(out@) =~= unknown_of(keys@));
    out
}

/// A configuration as it is handed to whoever writes it out.
///
/// Every API key, every OAuth token and every value of a variable that the file sets is the
/// redaction here, whatever it is in the file.
pub fn configuration(config: &Config) -> (r: ConfigReport)
    ensures
        r@ == redacted_config(config@),
{
    ConfigReport {
        source: optional(&config.source),
        project_source: optional(&config.project_source),
        accounts: report_vendors(&config.accounts),
        defaults: copied_defaults(&config.defaults),
        models: copied_tables(&config.models),
        efforts: copied_tables(&config.efforts),
        launch: report_launch(&config.launch),
        unknown: copied_keys(&config.unknown),
    }
}

/// Whether two launch environments differ only in the values of the variables they set.
pub open spec fn only_values_differ(a: LaunchModel, b: LaunchModel) -> bool {
    &&& walkable(a.env)
    &&& walkable(b.env)
    &&& a.env.dom() == b.env.dom()
    &&& a.env_passthrough == b.env_passthrough
    &&& a.request_env == b.request_env
}

/// Whether two accounts differ only in what is secret.
pub open spec fn only_secrets_differ(a: AccountModel, b: AccountModel) -> bool {
    alike(a, b) && only_values_differ(a.launch, b.launch)
}

/// Whether the accounts of two vendors differ only in what is secret.
pub open spec fn only_their_secrets_differ(
    a: Map<Seq<char>, AccountModel>,
    b: Map<Seq<char>, AccountModel>,
) -> bool {
    &&& walkable(a)
    &&& walkable(b)
    &&& a.dom() == b.dom()
    &&& forall|alias: Seq<char>| #[trigger]
        a.contains_key(alias) ==> only_secrets_differ(a[alias], b[alias])
}

/// Every place of a secret holds the redaction, and says no more than that there is one.
pub proof fn every_secret_is_redacted(config: ConfigModel, vendor: Seq<char>, alias: Seq<char>)
    requires
        config.accounts.contains_key(vendor),
        config.accounts[vendor].contains_key(alias),
    ensures
        ({
            let told = redacted_config(config).accounts[vendor][alias];
            let held = config.accounts[vendor][alias];
            &&& told.api_key == (if held.api_key is Some {
                Some(redaction())
            } else {
                None
            })
            &&& told.auth_token == (if held.auth_token is Some {
                Some(redaction())
            } else {
                None
            })
            &&& told.launch.env.dom() == held.launch.env.dom()
            &&& forall|name: Seq<char>| #[trigger]
                told.launch.env.contains_key(name) ==> told.launch.env[name] == redaction()
        }),
        redacted_config(config).launch.env.dom() == config.launch.env.dom(),
        forall|name: Seq<char>| #[trigger]
            redacted_config(config).launch.env.contains_key(name) ==> redacted_config(
                config,
            ).launch.env[name] == redaction(),
{
    assert(redacted_config(config).accounts[vendor][alias].launch.env.dom()
        =~= config.accounts[vendor][alias].launch.env.dom());
    assert(redacted_config(config).launch.env.dom() =~= config.launch.env.dom());
}

proof fn lemma_launches_told_alike(a: LaunchModel, b: LaunchModel)
    requires
        only_values_differ(a, b),
    ensures
        redacted_launch(a) == redacted_launch(b),
{
    assert forall|name: Seq<char>| a.env.contains_key(name) == b.env.contains_key(name) by {
        assert(a.env.dom().contains(name) == b.env.dom().contains(name));
    }
    assert(redacted_launch(a).env =~= redacted_launch(b).env);
}

/// No form of the account listing shows a secret: two configurations that differ only in what their
/// keys and tokens are, and in the values of the variables they set, are handed out as equal plain
/// values and print as the same text.
pub proof fn no_form_of_the_listing_shows_a_secret(
    platform: Platform,
    a: ConfigModel,
    b: ConfigModel,
    host: Map<Seq<char>, Seq<char>>,
    present: Seq<String>,
)
    requires
        b == (ConfigModel { accounts: b.accounts, launch: b.launch, ..a }),
        only_values_differ(a.launch, b.launch),
        a.accounts.dom() == b.accounts.dom(),
        forall|v: Seq<char>| #[trigger]
            a.accounts.contains_key(v) ==> only_their_secrets_differ(a.accounts[v], b.accounts[v]),
    ensures
        redacted_config(a) == redacted_config(b),
        accounts_report(platform, a, host, present) == accounts_report(platform, b, host, present),
{
    lemma_launches_told_alike(a.launch, b.launch);
    let x = redacted_config(a).accounts;
    let y = redacted_config(b).accounts;
    assert forall|v: Seq<char>| a.accounts.contains_key(v) == b.accounts.contains_key(v) by {
        assert(a.accounts.dom().contains(v) == b.accounts.dom().contains(v));
    }
    assert forall|v: Seq<char>| #[trigger] x.contains_key(v) implies x[v] == y[v] by {
        let p = a.accounts[v];
        let q = b.accounts[v];
        assert(only_their_secrets_differ(p, q));
        assert forall|alias: Seq<char>| p.contains_key(alias) == q.contains_key(alias) by {
            assert(p.dom().contains(alias) == q.dom().contains(alias));
        }
        assert forall|alias: Seq<char>| #[trigger] p.contains_key(alias) implies redacted_account(
            p[alias],
        ) == redacted_account(q[alias]) by {
            lemma_launches_told_alike(p[alias].launch, q[alias].launch);
        }
        assert(redacted_accounts(p) =~= redacted_accounts(q));
    }
    assert(x =~= y);
    assert forall|v: Seq<char>| #[trigger] a.accounts.contains_key(v) implies accounts_alike(
        a.accounts[v],
        b.accounts[v],
    ) by {
        assert(only_their_secrets_differ(a.accounts[v], b.accounts[v]));
    }
    nothing_secret_is_printed(platform, a, b, host, present);
}

} // verus!
