//! What each account has left, in the vendor's own words.
//!
//! A rate limit is the one failure whose remedy depends on information the failure does not carry:
//! which *other* account could answer this question now.
//! Both CLIs can be asked, for free and without spending a turn.
//!
//! # Nothing here is normalised
//!
//! The payloads are handed back exactly as the vendor produced them.
//! A percentage means nothing without the plan tier behind it, and ranking two accounts would
//! require a table of what each tier is worth, which is a roster this crate refuses to keep.
//!
//! # A failed probe is never "plenty left"
//!
//! An unauthenticated configuration directory of Anthropic's CLI answers `/usage` cheerfully with
//! zeroes.
//! [`Observation::Unavailable`] exists so that outcome cannot be confused with an idle account.

use vstd::prelude::*;
use vstd::string::*;

use crate::config::{
    account_at, accounts_of, home_dir, home_of, AccountModel, Config, ConfigModel, Platform,
};
use crate::delegate::{
    account_dir_of, api_key_var, base_env, base_env_of, base_url_var, config_dir_var, credential_vars,
    delegate_error_text, identity_of, program_of, resolve_identity, token_fault, AccountAlias,
    Alphabet, DelegateError, Programs, ProgramsModel, Vendor,
};
use crate::json::{
    integer_at, integer_at_of, json_at, json_value, string_at, string_at_of,
};
use crate::ordered::{before, in_order, precedes, TextMap};
use crate::path::{expand_tilde, join_path, joined_path, DirEntry};
use crate::stream::{lines, lines_of};
use crate::text::{begins_with, decimal, ends_with, number, same, str_of, text_of, texts};
use crate::time::{
    from_timestamp_millis, from_timestamp_secs, now, since, Moment, FIRST_SECOND, LAST_SECOND,
    NANOS,
};
use crate::transcript::{limit_model, RateLimit, RateLimitModel};

verus! {

/// Seconds a single account's probe may take before it is abandoned.
///
/// Generous next to the sub-second reads measured from both vendors, because the cost of waiting
/// is one slow answer and the cost of giving up early is no answer at all.
pub const PROBE_TIMEOUT: u64 = 15;

/// Seconds the cached figures of Anthropic's CLI may be old before it is asked to refresh them.
///
/// The vendor writes that cache at most once every five minutes, so refreshing more eagerly than
/// this cannot produce newer numbers and only costs a process launch.
pub const MAX_CACHE_AGE: u64 = 300;

/// How an attempt to refresh cached figures ended.
#[derive(Debug, PartialEq, Eq)]
pub enum Refresh {
    /// None was made: the figures are still inside the window in which the vendor would not
    /// produce newer ones.
    Skipped,
    /// The CLI was asked and finished.
    Succeeded,
    /// The CLI was asked and did not finish in time, so the figures predate the attempt.
    TimedOut,
    /// The CLI could not be asked, or failed.
    Failed {
        /// Why.
        reason: String,
    },
}

/// Where a reported figure came from.
#[derive(Debug, PartialEq, Eq)]
pub enum Origin {
    /// Read from the CLI's own on-disk cache.
    ///
    /// The vendor refreshes it at most every five minutes, so `fetched_at_ms` is the only honest
    /// statement about how current the numbers are.
    Cache {
        /// The file read.
        path: String,
        /// The vendor's own timestamp on the cached figures, in milliseconds.
        fetched_at_ms: Option<i64>,
        /// How the attempt to refresh them ended.
        refresh: Refresh,
    },
    /// Fetched live from the vendor at the moment of asking.
    Live,
}

/// The result of asking one account.
#[derive(Debug, PartialEq, Eq)]
pub enum Observation {
    /// The vendor's payload, unmodified.
    Reported {
        /// Where the numbers came from, so a reader can judge how current they are.
        origin: Origin,
        /// The vendor's own JSON.
        ///
        /// Deliberately untyped: a new window, plan tier or limit kind must reach the caller
        /// without an agentmux release, exactly as a new model identifier does.
        payload: String,
    },
    /// The account could not be asked, or answered with something unusable.
    ///
    /// Never collapse this into zero usage.
    Unavailable {
        /// Why, in enough detail to fix it.
        reason: String,
    },
}

/// What one account reported.
#[derive(Debug, PartialEq, Eq)]
pub struct AccountQuota {
    /// Which CLI was asked.
    pub vendor: Vendor,
    /// Which configured account, or `None` for the CLI's own default configuration.
    pub account: Option<AccountAlias>,
    /// What the account is for, when the configuration says.
    pub description: Option<String>,
    /// What came back.
    pub observation: Observation,
}

/// Which identity a probe is asking about.
///
/// An account that authenticates with a key has no subscription window at all, and probing it
/// would answer with the *default* account's figures under this account's name.
/// So the target is decided once, from the same fields the delegate launch reads, and a key-only
/// account is never asked.
#[derive(Debug, PartialEq, Eq)]
pub enum ProbeTarget {
    /// A logged-in profile whose window can be read: the CLI's own, or the directory the
    /// identity's environment names.
    Window {
        /// The configuration directory the identity runs against, when it names one.
        config_dir: Option<String>,
    },
    /// An identity that supplies a credential or an endpoint, so it is billed per token and has
    /// no window of the vendor's to report.
    Credential,
}

/// What a [`ProbeTarget`] says.
#[verifier::ext_equal]
pub enum TargetModel {
    /// A logged-in profile.
    Window {
        /// The configuration directory.
        config_dir: Option<Seq<char>>,
    },
    /// A credential.
    Credential,
}

impl View for ProbeTarget {
    type V = TargetModel;

    open spec fn view(&self) -> TargetModel {
        match self {
            ProbeTarget::Window { config_dir } => TargetModel::Window {
                config_dir: text_of(*config_dir),
            },
            ProbeTarget::Credential => TargetModel::Credential,
        }
    }
}

/// Whether an environment supplies a credential or an endpoint.
///
/// Both CLIs prefer a credential in the environment over a stored login, and an endpoint of its
/// own has no vendor window at all.
pub open spec fn credentialed(vendor: Vendor, env: Map<Seq<char>, Seq<char>>) -> bool {
    env.contains_key(api_key_var(vendor)) || env.contains_key(base_url_var(vendor)) || (vendor
        == Vendor::Claude && env.contains_key("ANTHROPIC_AUTH_TOKEN"@))
}

/// The target an environment resolves to.
pub open spec fn target_of(vendor: Vendor, env: Map<Seq<char>, Seq<char>>) -> TargetModel {
    if credentialed(vendor, env) {
        TargetModel::Credential
    } else {
        TargetModel::Window {
            config_dir: if env.contains_key(config_dir_var(vendor)) {
                Some(env[config_dir_var(vendor)])
            } else {
                None
            },
        }
    }
}

/// The characters of an alias that may be absent.
pub open spec fn alias_text(alias: Option<&AccountAlias>) -> Option<Seq<char>> {
    match alias {
        Some(alias) => Some(alias@),
        None => None,
    }
}

impl ProbeTarget {
    /// The target one identity resolves to: a named account, or the CLI's own login when there
    /// is none.
    ///
    /// Decided from the environment the delegate would actually be launched with, so a key the
    /// machine's `[launch]` layer forwards or the host exports classifies the identity exactly as
    /// it would authenticate.
    /// An account that cannot be resolved cannot be probed either, and the launch's own error
    /// says why.
    pub fn of(
        vendor: Vendor,
        alias: Option<&AccountAlias>,
        config: &Config,
        host_env: &TextMap<String>,
        platform: Platform,
        dir_exists: bool,
    ) -> (r: Result<Self, DelegateError>)
        ensures
            match identity_of(
                vendor,
                alias_text(alias),
                config@,
                host_env@,
                platform,
                dir_exists,
            ) {
                Ok(identity) => r matches Ok(target) && target@ == target_of(vendor, identity.env),
                Err(error) => r matches Err(e) && e@ == error,
            },
    {
        let env = match resolve_identity(vendor, alias, config, host_env, platform, dir_exists) {
            Ok(identity) => identity.env,
            Err(error) => return Err(error),
        };
        let vars = credential_vars(vendor);
        let by_token = match vars.auth_token {
            Some(name) => env.contains_key(name),
            None => false,
        };
        if env.contains_key(vars.api_key) || env.contains_key(vars.base_url) || by_token {
            return Ok(ProbeTarget::Credential);
        }
        Ok(
            ProbeTarget::Window {
                config_dir: match env.get(vars.config_dir) {
                    Some(dir) => Some(dir.clone()),
                    None => None,
                },
            },
        )
    }

    /// The configuration directory the probe should point the CLI at, if any.
    pub fn config_dir(&self) -> (r: Option<&str>)
        ensures
            str_of(r) == target_dir(self@),
    {
        match self {
            ProbeTarget::Window { config_dir } => match config_dir {
                Some(dir) => Some(dir.as_str()),
                None => None,
            },
            ProbeTarget::Credential => None,
        }
    }
}

/// The configuration directory of a target.
pub open spec fn target_dir(target: TargetModel) -> Option<Seq<char>> {
    match target {
        TargetModel::Window { config_dir } => config_dir,
        TargetModel::Credential => None,
    }
}

/// Everything a probe needs to reach one account.
pub struct ProbeRequest<'a> {
    /// Which CLI to ask.
    pub vendor: Vendor,
    /// Whose figures to read.
    pub target: ProbeTarget,
    /// The host environment, for `HOME` and for anything the CLI needs to run.
    pub host_env: &'a TextMap<String>,
}

/// Asks one account what it has left.
///
/// A trait so the process and filesystem work stays behind a seam: tests drive quota rendering
/// without a real CLI on the machine.
pub trait QuotaProbe {
    /// Ask one account.
    ///
    /// Returns an [`Observation`] rather than a `Result` because one account failing must not stop
    /// the others being reported, and because the failure itself is the answer worth showing.
    fn probe(&self, request: &ProbeRequest<'_>) -> Observation;
}

/// A probe that asks nothing and says so.
///
/// The library's default, so embedding agentmux never spawns a process that was not asked for.
#[derive(Debug, Clone, Copy)]
pub struct DisabledProbe;

impl QuotaProbe for DisabledProbe {
    fn probe(&self, _request: &ProbeRequest<'_>) -> (r: Observation)
        ensures
            r matches Observation::Unavailable { reason } && reason@
                == "quota probing is not enabled in this process"@,
    {
        Observation::Unavailable {
            reason: "quota probing is not enabled in this process".to_owned(),
        }
    }
}

/// The real probe's decisions: what it refuses to ask, and where and how it asks the rest.
#[derive(Debug, Clone, Copy)]
pub struct SystemProbe;

/// What a missing configuration directory is reported as.
pub open spec fn missing_dir_text(dir: Seq<char>) -> Seq<char> {
    dir
        + " does not exist. That account's `config_dir` is wrong, or it has never been logged in on this machine."@
}

impl SystemProbe {
    /// Why an account is not asked at all, or nothing where it is.
    ///
    /// `dir_exists` says whether the target's configuration directory is there.
    /// It is looked at before anything spawns, because both CLIs *create* the directory they are
    /// pointed at and then report "not logged in", which would disarm the pre-launch check that
    /// names the wrong path.
    /// A key-only account is reported rather than skipped: a caller comparing accounts needs to
    /// see that this one exists and simply has no window.
    pub fn refusal(&self, request: &ProbeRequest<'_>, dir_exists: bool) -> (r: Option<Observation>)
        ensures
            match request.target@ {
                TargetModel::Credential => r matches Some(
                    Observation::Unavailable { reason },
                ) && reason@
                    == "this account authenticates with a key rather than a logged-in profile, so it has no subscription window to report — its usage is billed per token"@,
                TargetModel::Window { config_dir: Some(dir) } => if dir_exists {
                    r is None
                } else {
                    r matches Some(Observation::Unavailable { reason }) && reason@
                        == missing_dir_text(dir)
                },
                TargetModel::Window { config_dir: None } => r is None,
            },
    {
        match &request.target {
            ProbeTarget::Credential => Some(
                Observation::Unavailable {
                    reason: "this account authenticates with a key rather than a logged-in profile, so it has no subscription window to report — its usage is billed per token".to_owned(),
                },
            ),
            ProbeTarget::Window { config_dir } => match config_dir {
                Some(dir) => {
                    if dir_exists {
                        return None;
                    }
                    let mut reason = dir.clone();
                    reason.append(
                        " does not exist. That account's `config_dir` is wrong, or it has never been logged in on this machine.",
                    );
                    Some(Observation::Unavailable { reason })
                },
                None => None,
            },
        }
    }

    /// The environment a probe child runs with: the delegate's own base, plus the directory that
    /// selects the account.
    ///
    /// The same base as a delegate, so a probe on a managed network has the proxy and CA settings
    /// a delegate has, and a probe on Windows has what a process there needs to start at all.
    pub fn environment(
        &self,
        request: &ProbeRequest<'_>,
        platform: Platform,
    ) -> (r: TextMap<String>)
        ensures
            r@ == match target_dir(request.target@) {
                Some(dir) => base_env_of(platform, request.host_env@).insert(
                    config_dir_var(request.vendor),
                    dir,
                ),
                None => base_env_of(platform, request.host_env@),
            },
    {
        let mut env = base_env(platform, request.host_env);
        if let Some(dir) = request.target.config_dir() {
            env.insert(credential_vars(request.vendor).config_dir, dir.to_owned());
        }
        env
    }

    /// Where Anthropic's CLI keeps its usage figures.
    ///
    /// Without `CLAUDE_CONFIG_DIR` the CLI keeps this file at the root of the home directory, not
    /// under the default directory.
    pub fn cache_path(
        &self,
        programs: &Programs,
        request: &ProbeRequest<'_>,
        platform: Platform,
    ) -> (r: Option<String>)
        ensures
            text_of(r) == match target_dir(request.target@) {
                Some(dir) => Some(joined_path(platform, dir, usage_file(programs@))),
                None => match home_of(request.host_env@) {
                    Some(home) => Some(joined_path(platform, home, usage_file(programs@))),
                    None => None,
                },
            },
    {
        let mut file = ".".to_owned();
        file.append(Vendor::Claude.program(programs));
        file.append(".json");
        match request.target.config_dir() {
            Some(dir) => Some(join_path(platform, dir, file.as_str())),
            None => match home_dir(request.host_env) {
                Some(home) => Some(join_path(platform, home.as_str(), file.as_str())),
                None => None,
            },
        }
    }
}

/// Whether figures fetched at a moment are worth refreshing at another.
///
/// A timestamp that is missing or out of range says nothing, and one from the future says the
/// figures are not old.
pub open spec fn stale_at(fetched_at_ms: Option<i64>, at: Moment) -> bool {
    match fetched_at_ms {
        None => true,
        Some(ms) => if FIRST_SECOND <= ms as int / 1000 <= LAST_SECOND {
            at.at() - (ms as int) * 1_000_000 > MAX_CACHE_AGE * NANOS
        } else {
            true
        },
    }
}

/// Whether a set of cached figures is old enough to be worth refreshing.
pub fn is_stale(fetched_at_ms: Option<i64>, at: Moment) -> (r: bool)
    requires
        at.valid(),
    ensures
        r == stale_at(fetched_at_ms, at),
{
    let ms: i64 = match fetched_at_ms {
        Some(ms) => ms,
        None => return true,
    };
    let fetched = match from_timestamp_millis(ms) {
        Some(fetched) => fetched,
        None => return true,
    };
    assert(fetched.at() == (ms as int) * 1_000_000);
    match since(at, fetched) {
        Some(age) => !age.within(MAX_CACHE_AGE),
        None => false,
    }
}

/// The usage figures a configuration file of Anthropic's CLI holds.
pub open spec fn cached_usage_of(document: Seq<char>) -> Option<Seq<char>> {
    json_value(document, "/cachedUsageUtilization"@)
}

/// Read the usage figures Anthropic's CLI caches inside a configuration directory.
pub fn cached_usage(document: &str) -> (r: Option<String>)
    ensures
        text_of(r) == cached_usage_of(document@),
{
    json_at(document, "/cachedUsageUtilization")
}

/// When cached figures were fetched, as they say.
pub open spec fn fetched_at_of(cached: Option<Seq<char>>) -> Option<i64> {
    match cached {
        Some(cached) => integer_at_of(cached, "/fetchedAtMs"@),
        None => None,
    }
}

/// When cached figures were fetched, as they say.
pub fn fetched_at(cached: &Option<String>) -> (r: Option<i64>)
    ensures
        r == fetched_at_of(text_of(*cached)),
{
    match cached {
        Some(cached) => integer_at(cached.as_str(), "/fetchedAtMs"),
        None => None,
    }
}

/// When the figures in a configuration file were fetched, as they say.
pub open spec fn fetched_in(document: Option<Seq<char>>) -> Option<i64> {
    match document {
        Some(text) => fetched_at_of(cached_usage_of(text)),
        None => None,
    }
}

/// Whether the figures in such a configuration file are to be refreshed now.
///
/// A weekly window moves with every other session on the account, so figures from hours ago
/// answer a question nobody asked.
/// Where the file names no time, they are, whatever the clock shows.
pub fn refresh_due(document: Option<&str>) -> (r: bool)
    ensures
        document is None ==> r,
        document matches Some(text) && fetched_at_of(cached_usage_of(text@)) is None ==> r,
        exists|at: Moment|
            at.valid() && r == #[trigger] stale_at(fetched_in(str_of(document)), at),
{
    let cached = match document {
        Some(text) => cached_usage(text),
        None => None,
    };
    is_stale(fetched_at(&cached), now())
}

/// How the child that was to refresh the figures ended.
#[derive(Debug, PartialEq, Eq)]
pub enum RefreshChild {
    /// It could not be started.
    NotStarted {
        /// The system's reason.
        reason: String,
    },
    /// It finished.
    Finished {
        /// Whether it succeeded.
        success: bool,
        /// Its status, in the system's words.
        status: String,
    },
    /// It could not be waited for.
    NotObserved {
        /// The system's reason.
        reason: String,
    },
    /// It did not finish in time.
    Late,
}

/// What a look at the child that is to refresh the figures shows.
#[derive(Debug, PartialEq, Eq)]
pub enum RefreshLook {
    /// It finished.
    Finished {
        /// Whether it succeeded.
        success: bool,
        /// Its status, in the system's words.
        status: String,
    },
    /// It could not be waited for.
    NotObserved {
        /// The system's reason.
        reason: String,
    },
    /// It is still running.
    Running,
}

/// How the wait for a refresh goes on.
#[derive(Debug, PartialEq, Eq)]
pub enum RefreshStep {
    /// It is over, and the child ended this way.
    Done(RefreshChild),
    /// The child is late: it is stopped, and ended as [`RefreshChild::Late`].
    Late,
    /// Look again after [`REFRESH_POLL`].
    Again,
}

/// Milliseconds between two looks at a refresh.
pub const REFRESH_POLL: u64 = 50;

/// How the wait for a refresh goes on.
///
/// `waited` is how many whole seconds ago the child was started.
/// A child that is seen to have ended is never late, however long it took.
pub fn refresh_step(look: RefreshLook, waited: u64) -> (r: RefreshStep)
    ensures
        r == match look {
            RefreshLook::Finished { success, status } => RefreshStep::Done(
                RefreshChild::Finished { success, status },
            ),
            RefreshLook::NotObserved { reason } => RefreshStep::Done(
                RefreshChild::NotObserved { reason },
            ),
            RefreshLook::Running => if waited >= PROBE_TIMEOUT {
                RefreshStep::Late
            } else {
                RefreshStep::Again
            },
        },
{
    match look {
        RefreshLook::Finished { success, status } => RefreshStep::Done(
            RefreshChild::Finished { success, status },
        ),
        RefreshLook::NotObserved { reason } => RefreshStep::Done(
            RefreshChild::NotObserved { reason },
        ),
        RefreshLook::Running => if waited >= PROBE_TIMEOUT {
            RefreshStep::Late
        } else {
            RefreshStep::Again
        },
    }
}

/// The name of the file Anthropic's CLI keeps its usage figures in.
pub open spec fn usage_file(programs: ProgramsModel) -> Seq<char> {
    "."@ + program_of(programs, Vendor::Claude) + ".json"@
}

/// The command that refreshes the figures, as it is named in a message.
pub open spec fn usage_call(programs: ProgramsModel) -> Seq<char> {
    "`"@ + program_of(programs, Vendor::Claude) + " --print /usage`"@
}

fn usage_command(programs: &Programs) -> (r: String)
    ensures
        r@ == usage_call(programs@),
{
    let mut out = "`".to_owned();
    out.append(Vendor::Claude.program(programs));
    out.append(" --print /usage`");
    out
}

/// What a refresh amounts to, from how its child ended.
pub open spec fn refresh_reason(programs: ProgramsModel, child: RefreshChild) -> Seq<char> {
    match child {
        RefreshChild::NotStarted { reason } => "cannot run "@ + usage_call(programs) + ": "@
            + reason@,
        RefreshChild::Finished { status, .. } => usage_call(programs) + " exited with "@
            + status@,
        RefreshChild::NotObserved { reason } => "cannot wait for "@ + usage_call(programs)
            + ": "@ + reason@,
        RefreshChild::Late => ""@,
    }
}

/// What a refresh amounts to, from how its child ended.
///
/// A refresh that did not happen is named, because the cached figures are read either way and
/// their age alone cannot tell a fresh reading from one nobody managed to replace.
pub fn refresh_outcome(programs: &Programs, child: &RefreshChild) -> (r: Refresh)
    ensures
        match *child {
            RefreshChild::Finished { success: true, .. } => r == Refresh::Succeeded,
            RefreshChild::Late => r == Refresh::TimedOut,
            _ => r matches Refresh::Failed { reason } && reason@ == refresh_reason(programs@, *child),
        },
{
    match child {
        RefreshChild::NotStarted { reason } => {
            let mut out = "cannot run ".to_owned();
            out.append(usage_command(programs).as_str());
            out.append(": ");
            out.append(reason.as_str());
            Refresh::Failed { reason: out }
        },
        RefreshChild::Finished { success, status } => {
            if *success {
                return Refresh::Succeeded;
            }
            let mut out = usage_command(programs);
            out.append(" exited with ");
            out.append(status.as_str());
            Refresh::Failed { reason: out }
        },
        RefreshChild::NotObserved { reason } => {
            let mut out = "cannot wait for ".to_owned();
            out.append(usage_command(programs).as_str());
            out.append(": ");
            out.append(reason.as_str());
            Refresh::Failed { reason: out }
        },
        RefreshChild::Late => Refresh::TimedOut,
    }
}

/// What the cache of Anthropic's CLI says of an account.
///
/// `cached` is what the file holds after the refresh, and `path` where it is, where that is known
/// at all.
pub fn claude_observation(path: Option<String>, cached: Option<String>, refresh: Refresh) -> (r:
    Observation)
    ensures
        match path {
            None => r matches Observation::Unavailable { reason } && reason@
                == "neither an account config_dir nor HOME is known"@,
            Some(p) => match cached {
                None => r matches Observation::Unavailable { reason } && reason@ == p@
                    + " holds no usage figures. That account may not be logged in on this machine."@,
                Some(c) => r matches Observation::Reported { origin, payload } && payload@ == c@
                    && (origin matches Origin::Cache {
                    path: from,
                    fetched_at_ms,
                    refresh: how,
                } && from@ == p@ && fetched_at_ms == fetched_at_of(Some(c@)) && how == refresh),
            },
        },
{
    let path = match path {
        Some(path) => path,
        None => return Observation::Unavailable {
            reason: "neither an account config_dir nor HOME is known".to_owned(),
        },
    };
    let fetched_at_ms = fetched_at(&cached);
    match cached {
        None => {
            let mut reason = path;
            reason.append(
                " holds no usage figures. That account may not be logged in on this machine.",
            );
            Observation::Unavailable { reason }
        },
        Some(payload) => Observation::Reported {
            origin: Origin::Cache { path, fetched_at_ms, refresh },
            payload,
        },
    }
}

/// What Anthropic's CLI is run with to refresh its figures.
pub const REFRESH_ARGS: [&'static str; 4] = ["--print", "/usage", "--output-format", "text"];

/// What the CLI from `OpenAI` is run with to be asked over its protocol.
pub const APP_SERVER_ARGS: [&'static str; 1] = ["app-server"];

/// The first line written to `codex app-server`.
pub const INITIALIZE: &'static str =
    "{\"jsonrpc\":\"2.0\",\"id\":1,\"method\":\"initialize\",\"params\":{\"clientInfo\":{\"name\":\"agentmux\",\"version\":\"1\"}}}";

/// The second line written to `codex app-server`.
pub const INITIALIZED: &'static str =
    "{\"jsonrpc\":\"2.0\",\"method\":\"initialized\",\"params\":{}}";

/// The third line written to `codex app-server`: the question.
pub const READ_RATE_LIMITS: &'static str =
    "{\"jsonrpc\":\"2.0\",\"id\":2,\"method\":\"account/rateLimits/read\",\"params\":{}}";

/// The id of the request whose answer is waited for.
pub const READ_RATE_LIMITS_ID: i64 = 2;

/// What is read of a line `codex app-server` wrote.
#[derive(Debug, PartialEq, Eq)]
pub struct AppServerLine {
    /// Which request it answers.
    pub id: Option<i64>,
    /// Whether it is a refusal.
    pub refused: bool,
    /// What a refusal says.
    pub refusal: Option<String>,
    /// What was asked for, as JSON text.
    pub result: Option<String>,
}

/// What a line amounts to: the answer, a refusal, or nothing to do with the question.
pub open spec fn verdict(
    id: Option<i64>,
    refused: bool,
    refusal: Option<Seq<char>>,
    result: Option<Seq<char>>,
) -> Option<Result<Seq<char>, Seq<char>>> {
    if id != Some(READ_RATE_LIMITS_ID) {
        None
    } else if refused {
        Some(
            Err(
                "codex app-server refused: "@ + match refusal {
                    Some(message) => message,
                    None => "no reason given"@,
                },
            ),
        )
    } else {
        match result {
            Some(result) => Some(Ok(result)),
            None => Some(Err("codex app-server answered without a result"@)),
        }
    }
}

/// What a judgement says.
pub open spec fn verdict_of(r: Option<Result<String, String>>) -> Option<
    Result<Seq<char>, Seq<char>>,
> {
    match r {
        Some(Ok(result)) => Some(Ok(result@)),
        Some(Err(reason)) => Some(Err(reason@)),
        None => None,
    }
}

/// What a line of `codex app-server` amounts to; nothing where reading goes on.
///
/// The server interleaves unsolicited notifications with replies, so the response is found by
/// matching the request id rather than by taking the next line.
pub fn judge(line: AppServerLine) -> (r: Option<Result<String, String>>)
    ensures
        verdict_of(r) == verdict(line.id, line.refused, text_of(line.refusal), text_of(line.result)),
{
    match line.id {
        Some(id) => if id != READ_RATE_LIMITS_ID {
            return None;
        },
        None => return None,
    }
    if line.refused {
        let mut reason = "codex app-server refused: ".to_owned();
        match line.refusal {
            Some(message) => {
                reason.append(message.as_str());
            },
            None => {
                reason.append("no reason given");
            },
        }
        return Some(Err(reason));
    }
    match line.result {
        Some(result) => Some(Ok(result)),
        None => Some(Err("codex app-server answered without a result".to_owned())),
    }
}

/// What a line of `codex app-server` amounts to, from its text.
///
/// A line that is not JSON answers nothing.
pub fn codex_reply(line: &str) -> (r: Option<Result<String, String>>)
    ensures
        verdict_of(r) == verdict(
            integer_at_of(line@, "/id"@),
            json_value(line@, "/error"@) is Some,
            string_at_of(line@, "/error/message"@),
            json_value(line@, "/result"@),
        ),
{
    judge(
        AppServerLine {
            id: integer_at(line, "/id"),
            refused: json_at(line, "/error").is_some(),
            refusal: string_at(line, "/error/message"),
            result: json_at(line, "/result"),
        },
    )
}

/// How an exchange with `codex app-server` ended.
#[derive(Debug, PartialEq, Eq)]
pub enum Exchange {
    /// The server could not be started.
    NotStarted {
        /// The system's reason.
        reason: String,
    },
    /// It had no input or no output.
    NoStdio,
    /// It closed its input.
    InputClosed,
    /// Its output ended.
    Ended,
    /// Its output could not be read.
    Unreadable {
        /// The system's reason.
        reason: String,
    },
    /// It answered, or refused.
    Answered(Result<String, String>),
    /// It did not answer in time.
    Late,
}

/// Why an exchange gave no answer.
pub open spec fn exchange_reason(exchange: Exchange) -> Seq<char> {
    match exchange {
        Exchange::NotStarted { reason } => "cannot run `codex app-server`: "@ + reason@,
        Exchange::NoStdio => "codex app-server did not offer stdio"@,
        Exchange::InputClosed => "codex app-server closed its input"@,
        Exchange::Ended => "codex app-server ended without answering. That account may not be logged in."@,
        Exchange::Unreadable { reason } => "reading codex app-server: "@ + reason@,
        Exchange::Answered(Err(reason)) => reason@,
        Exchange::Answered(Ok(_)) => ""@,
        Exchange::Late => "codex app-server did not answer within "@ + decimal(
            PROBE_TIMEOUT as nat,
        ) + "s"@,
    }
}

/// What an exchange with `codex app-server` says of an account.
pub fn codex_observation(exchange: Exchange) -> (r: Observation)
    ensures
        match exchange {
            Exchange::Answered(Ok(result)) => r matches Observation::Reported { origin, payload }
                && origin == Origin::Live && payload@ == result@,
            _ => r matches Observation::Unavailable { reason } && reason@ == exchange_reason(
                exchange,
            ),
        },
{
    let reason = match exchange {
        Exchange::NotStarted { reason } => {
            let mut out = "cannot run `codex app-server`: ".to_owned();
            out.append(reason.as_str());
            out
        },
        Exchange::NoStdio => "codex app-server did not offer stdio".to_owned(),
        Exchange::InputClosed => "codex app-server closed its input".to_owned(),
        Exchange::Ended => {
            "codex app-server ended without answering. That account may not be logged in.".to_owned()
        },
        Exchange::Unreadable { reason } => {
            let mut out = "reading codex app-server: ".to_owned();
            out.append(reason.as_str());
            out
        },
        Exchange::Answered(Err(reason)) => reason,
        Exchange::Answered(Ok(payload)) => {
            return Observation::Reported { origin: Origin::Live, payload };
        },
        Exchange::Late => {
            let mut out = "codex app-server did not answer within ".to_owned();
            out.append(number(PROBE_TIMEOUT).as_str());
            out.append("s");
            out
        },
    };
    Observation::Unavailable { reason }
}

/// The last of a list of readings that there is.
pub open spec fn last_reading(found: Seq<Option<Seq<char>>>) -> Option<Seq<char>>
    decreases found.len(),
{
    if found.len() == 0 {
        None
    } else if found.last() is Some && found.last() != Some("null"@) {
        found.last()
    } else {
        last_reading(found.drop_last())
    }
}

/// The readings of a list.
pub open spec fn readings(found: Seq<Option<String>>) -> Seq<Option<Seq<char>>> {
    found.map_values(|f: Option<String>| text_of(f))
}

/// The last of a list of readings that holds anything.
///
/// The last record wins: each is a snapshot, and the newest is the state the turn ended in.
pub fn newest_reading(found: &Vec<Option<String>>) -> (r: Option<String>)
    ensures
        text_of(r) == last_reading(readings(found@)),
{
    let mut i: usize = found.len();
    let ghost all = readings(found@);
    assert(all.take(i as int) =~= all);
    while i > 0
        invariant
            i <= found.len(),
            all == readings(found@),
            last_reading(all.take(i as int)) == last_reading(all),
        decreases i,
    {
        let ghost some = all.take(i as int);
        assert(some.last() == text_of(found@[i - 1]));
        assert(some.drop_last() =~= all.take(i - 1));
        if let Some(text) = &found[i - 1] {
            if !same(text.as_str(), "null") {
                return Some(text.clone());
            }
        }
        i = i - 1;
    }
    None
}

/// The rate-limit figures each line of a session record holds.
pub open spec fn figures_in(document: Seq<char>) -> Seq<Option<Seq<char>>> {
    lines_of(document).map_values(|line: Seq<char>| json_value(line, "/payload/rate_limits"@))
}

/// The rate-limit figures Codex wrote while running one turn, from its session record.
///
/// Codex reports nothing about usage on the stream agentmux captures, but it records it in the
/// session rollout it writes anyway.
/// Reading that afterwards costs nothing and needs no second process.
pub fn codex_rollout_rate_limits(document: &str) -> (r: Option<String>)
    ensures
        text_of(r) == last_reading(figures_in(document@)),
{
    let all = lines(document);
    let mut found: Vec<Option<String>> = Vec::new();
    let mut i: usize = 0;
    let ghost figures = figures_in(document@);
    assert(texts(all@).len() == all@.len());
    while i < all.len()
        invariant
            i <= all.len(),
            texts(all@) == lines_of(document@),
            figures == figures_in(document@),
            found@.len() == i,
            forall|j: int| 0 <= j < i ==> text_of(#[trigger] found@[j]) == figures[j],
        decreases all.len() - i,
    {
        assert(texts(all@)[i as int] == all@[i as int]@);
        found.push(json_at(all[i].as_str(), "/payload/rate_limits"));
        i = i + 1;
    }
    assert(texts(all@).len() == all@.len());
    assert(readings(found@) =~= figures);
    newest_reading(&found)
}

/// The window that a reset time and a name make.
pub open spec fn window_from_parts(resets_at: Option<i64>, name: Option<Seq<char>>) -> Option<
    RateLimitModel,
> {
    match resets_at {
        Some(seconds) => if FIRST_SECOND <= seconds <= LAST_SECOND {
            Some(RateLimitModel { resets_at: Moment { seconds, nanos: 0 }, window: name })
        } else {
            None
        },
        None => None,
    }
}

/// The window that a reset time and a name make, where the time has a calendar date.
pub fn window_from(resets_at: Option<i64>, name: Option<String>) -> (r: Option<RateLimit>)
    ensures
        limit_model(r) == window_from_parts(resets_at, text_of(name)),
{
    match resets_at {
        Some(seconds) => match from_timestamp_secs(seconds) {
            Some(resets_at) => Some(RateLimit { resets_at, window: name }),
            None => None,
        },
        None => None,
    }
}

/// The usage window in Codex's own figures.
///
/// Only the account-wide bucket is recorded; the per-model ones are not in a session record.
pub fn codex_window(limits: &str) -> (r: Option<RateLimit>)
    ensures
        limit_model(r) == window_from_parts(
            integer_at_of(limits@, "/primary/resets_at"@),
            string_at_of(limits@, "/limit_id"@),
        ),
{
    window_from(integer_at(limits, "/primary/resets_at"), string_at(limits, "/limit_id"))
}

/// Whether a file is the session record of a thread, by its name.
///
/// Records are filed as `rollout-<timestamp>-<thread_id>.jsonl`.
/// The id is matched as the whole tail of the name, not as a substring: a thread id is opaque,
/// and an opaque id that happened to be short would otherwise match every file on the day.
pub open spec fn is_record_of(name: Seq<char>, thread_id: Seq<char>) -> bool {
    "rollout-"@.is_prefix_of(name) && ("-"@ + thread_id + ".jsonl"@).is_suffix_of(name)
}

/// Whether a file is the session record of a thread, by its name.
pub fn is_rollout(name: &str, thread_id: &str) -> (r: bool)
    ensures
        r == is_record_of(name@, thread_id@),
{
    let mut tail = "-".to_owned();
    tail.append(thread_id);
    tail.append(".jsonl");
    begins_with(name, "rollout-") && ends_with(name, tail.as_str())
}

/// The names of the entries that are, or are not, directories.
pub open spec fn names_where(entries: Seq<DirEntry>, dirs: bool) -> Seq<Seq<char>>
    decreases entries.len(),
{
    if entries.len() == 0 {
        Seq::empty()
    } else if entries.last().is_dir == dirs {
        names_where(entries.drop_last(), dirs).push(entries.last().name@)
    } else {
        names_where(entries.drop_last(), dirs)
    }
}

/// The name among a list that comes last of those that are records of a thread.
pub open spec fn last_record(names: Seq<Seq<char>>, thread_id: Seq<char>) -> Option<Seq<char>>
    decreases names.len(),
{
    if names.len() == 0 {
        None
    } else {
        let name = names.last();
        match last_record(names.drop_last(), thread_id) {
            Some(best) => if is_record_of(name, thread_id) && !precedes(name, best) {
                Some(name)
            } else {
                Some(best)
            },
            None => if is_record_of(name, thread_id) {
                Some(name)
            } else {
                None
            },
        }
    }
}

/// Names from the last to the first in their order.
pub open spec fn descending(names: Seq<Seq<char>>) -> bool {
    forall|i: int, j: int|
        0 <= i < j < names.len() ==> !precedes(#[trigger] names[i], #[trigger] names[j])
}

/// What a directory of session records says of where a thread's record is.
pub struct RolloutStep {
    /// The record itself, where the directory holds it.
    pub found: Option<String>,
    /// The directories to look into next, newest first.
    pub into: Vec<String>,
}

/// Insert a name where it keeps a list in descending order.
fn insert_descending(list: &mut Vec<String>, name: String)
    requires
        descending(texts(old(list)@)),
    ensures
        descending(texts(final(list)@)),
        texts(final(list)@).to_multiset() == texts(old(list)@).to_multiset().insert(name@),
{
    let mut at: usize = 0;
    while at < list.len() && !before(list[at].as_str(), name.as_str())
        invariant
            at <= list.len(),
            list@ == old(list)@,
            forall|j: int| 0 <= j < at ==> !precedes(#[trigger] texts(list@)[j], name@),
        decreases list.len() - at,
    {
        assert(texts(list@)[at as int] == list@[at as int]@);
        at = at + 1;
    }
    let ghost had = texts(list@);
    let ghost text = name@;
    list.insert(at, name);
    proof {
        assert(texts(list@) =~= had.insert(at as int, text));
        let now = had.insert(at as int, text);
        assert forall|i: int, j: int| 0 <= i < j < now.len() implies !precedes(
            #[trigger] now[i],
            #[trigger] now[j],
        ) by {
            if j < at {
                assert(now[i] == had[i] && now[j] == had[j]);
            } else if j == at {
                assert(now[i] == had[i]);
            } else if i < at {
                assert(now[i] == had[i] && now[j] == had[j - 1]);
            } else if i == at {
                // The name precedes nothing that the element it was put before does not follow.
                assert(now[j] == had[j - 1]);
                assert(precedes(had[at as int], text));
                if precedes(text, had[j - 1]) {
                    crate::ordered::lemma_precedes_transitive(had[at as int], text, had[j - 1]);
                    if j - 1 > at {
                        assert(!precedes(had[at as int], had[j - 1]));
                    } else {
                        crate::ordered::lemma_precedes_irreflexive(had[at as int]);
                    }
                }
            } else {
                assert(now[i] == had[i - 1] && now[j] == had[j - 1]);
            }
        }
        vstd::seq_lib::to_multiset_insert(had, at as int, text);
    }
}

/// Where to look for a thread's record, from one directory's entries.
///
/// Newest first at both levels: names lead with a timestamp, so the last one sorts last, and a
/// repeated thread id resolves to the most recent run.
pub fn rollout_step(entries: &Vec<DirEntry>, thread_id: &str) -> (r: RolloutStep)
    ensures
        text_of(r.found) == last_record(names_where(entries@, false), thread_id@),
        descending(texts(r.into@)),
        texts(r.into@).to_multiset() == names_where(entries@, true).to_multiset(),
{
    let mut found: Option<String> = None;
    let mut into: Vec<String> = Vec::new();
    let mut i: usize = 0;
    assert(entries@.take(0) =~= Seq::empty());
    assert(texts(into@) =~= names_where(entries@.take(0), true));
    while i < entries.len()
        invariant
            i <= entries.len(),
            text_of(found) == last_record(names_where(entries@.take(i as int), false), thread_id@),
            descending(texts(into@)),
            texts(into@).to_multiset() == names_where(entries@.take(i as int), true).to_multiset(),
        decreases entries.len() - i,
    {
        let entry = &entries[i];
        let ghost some = entries@.take(i as int);
        let ghost more = entries@.take(i + 1);
        assert(more.drop_last() =~= some);
        assert(more.last() == entries@[i as int]);
        if entry.is_dir {
            insert_descending(&mut into, entry.name.clone());
            assert(names_where(more, true) =~= names_where(some, true).push(entry.name@));
            proof {
                broadcast use vstd::seq_lib::group_to_multiset_ensures;
            }
        } else {
            assert(names_where(more, false).drop_last() =~= names_where(some, false));
            if is_rollout(entry.name.as_str(), thread_id) {
                let better = match &found {
                    Some(best) => !before(entry.name.as_str(), best.as_str()),
                    None => true,
                };
                if better {
                    found = Some(entry.name.clone());
                }
            }
        }
        i = i + 1;
    }
    assert(entries@.take(i as int) =~= entries@);
    RolloutStep { found, into }
}

/// Where Codex keeps its session records: in the directory that the account which ran names, else
/// under the home directory.
pub open spec fn codex_home_of(
    alias: Option<Seq<char>>,
    config: ConfigModel,
    host: Map<Seq<char>, Seq<char>>,
    platform: Platform,
) -> Option<Seq<char>> {
    let own = match alias {
        Some(alias) => match account_at(config, Vendor::Codex, alias) {
            Some(account) => account_dir_of(account, host, platform),
            None => None,
        },
        None => None,
    };
    match (own, home_of(host)) {
        (Some(dir), _) => Some(dir),
        (None, Some(home)) => Some(joined_path(platform, home, ".codex"@)),
        (None, None) => None,
    }
}

/// Where Codex keeps its session records.
///
/// An account may relocate them, so the same configuration that chose the account decides where to
/// look.
pub fn codex_home(
    alias: Option<&AccountAlias>,
    config: &Config,
    host_env: &TextMap<String>,
    platform: Platform,
) -> (r: Option<String>)
    ensures
        text_of(r) == codex_home_of(
            match alias {
                Some(alias) => Some(alias@),
                None => None,
            },
            config@,
            host_env@,
            platform,
        ),
{
    let home = home_dir(host_env);
    let account = match alias {
        Some(alias) => config.account(Vendor::Codex, alias.as_str()),
        None => None,
    };
    if let Some(account) = account {
        if let Some(dir) = &account.config_dir {
            return Some(
                expand_tilde(
                    platform,
                    dir.as_str(),
                    match &home {
                        Some(home) => Some(home.as_str()),
                        None => None,
                    },
                ),
            );
        }
    }
    match &home {
        Some(home) => Some(join_path(platform, home.as_str(), ".codex")),
        None => None,
    }
}

/// How deep the search for a session record goes.
pub const ROLLOUT_DEPTH: usize = 4;

/// Whether the search for a session record looks into a directory at a depth, where the directory it
/// starts in is at depth zero.
pub fn searches_at(depth: usize) -> (r: bool)
    ensures
        r == (depth <= ROLLOUT_DEPTH),
{
    depth <= ROLLOUT_DEPTH
}

/// An account to be asked.
pub struct Target {
    /// Its alias, or nothing for the CLI's own login.
    pub alias: Option<AccountAlias>,
    /// What it is for.
    pub description: Option<String>,
}

/// The aliases to be asked about, in order, with what each account is for.
pub open spec fn named_targets(entries: Seq<(Seq<char>, AccountModel)>) -> Seq<
    (Option<Seq<char>>, Option<Seq<char>>),
>
    decreases entries.len(),
{
    if entries.len() == 0 {
        Seq::empty()
    } else {
        let (alias, account) = entries.last();
        if token_fault(alias, AccountAlias::MAX_LEN as nat, Alphabet::Alias) is None {
            named_targets(entries.drop_last()).push((Some(alias), account.description))
        } else {
            named_targets(entries.drop_last())
        }
    }
}

/// Who is asked for a vendor: every account the machine defines, or the CLI's own login where it
/// defines none.
pub open spec fn targets_of(vendor: Vendor, config: ConfigModel) -> Seq<
    (Option<Seq<char>>, Option<Seq<char>>),
> {
    if accounts_of(config, vendor) == Map::<Seq<char>, AccountModel>::empty() {
        seq![(None, None)]
    } else {
        named_targets(in_order(accounts_of(config, vendor)))
    }
}

/// What a list of targets says.
pub open spec fn target_list(list: Seq<Target>) -> Seq<(Option<Seq<char>>, Option<Seq<char>>)> {
    list.map_values(
        |t: Target|
            (
                match t.alias {
                    Some(alias) => Some(alias@),
                    None => None,
                },
                text_of(t.description),
            ),
    )
}

/// Who is asked for a vendor.
///
/// A machine with no configuration still has one account: whatever the CLI is logged into.
pub fn targets(vendor: Vendor, config: &Config) -> (r: Vec<Target>)
    ensures
        target_list(r@) == targets_of(vendor, config@),
{
    let mut out: Vec<Target> = Vec::new();
    let ghost expected = targets_of(vendor, config@);
    let accounts = match config.accounts(vendor) {
        Some(accounts) => accounts,
        None => {
            out.push(Target { alias: None, description: None });
            assert(target_list(out@) =~= expected);
            return out;
        },
    };
    if accounts.is_empty() {
        out.push(Target { alias: None, description: None });
        assert(target_list(out@) =~= expected);
        return out;
    }
    let n: usize = accounts.len();
    let ghost entries = accounts.pairs();
    let mut i: usize = 0;
    assert(target_list(out@) =~= named_targets(entries.take(0)));
    while i < n
        invariant
            i <= n,
            n == entries.len(),
            entries == accounts.pairs(),
            target_list(out@) == named_targets(entries.take(i as int)),
        decreases n - i,
    {
        let ghost more = entries.take(i + 1);
        assert(more.drop_last() =~= entries.take(i as int));
        let alias = accounts.key_at(i);
        let account = accounts.value_at(i);
        assert(more.last() == (alias@, account@));
        if let Ok(alias) = AccountAlias::parse(alias.as_str()) {
            let target = Target {
                alias: Some(alias),
                description: account.description.clone(),
            };
            let ghost had = target_list(out@);
            out.push(target);
            assert(target_list(out@) =~= had.push((Some(alias@), account@.description)));
        }
        i = i + 1;
    }
    assert(entries.take(i as int) =~= entries);
    out
}

/// Ask one account, or say why it cannot be asked.
///
/// An account that cannot be launched cannot be asked either, and the launch's own reason is the
/// useful one.
pub fn probe_account<P: QuotaProbe>(
    probe: &P,
    vendor: Vendor,
    alias: Option<&AccountAlias>,
    config: &Config,
    host_env: &TextMap<String>,
    platform: Platform,
    dir_exists: bool,
) -> (r: Observation)
    ensures
        identity_of(
            vendor,
            alias_text(alias),
            config@,
            host_env@,
            platform,
            dir_exists,
        ) matches Err(error) ==> (r matches Observation::Unavailable { reason } && reason@
            == delegate_error_text(config@.programs, error)),
        identity_of(
            vendor,
            alias_text(alias),
            config@,
            host_env@,
            platform,
            dir_exists,
        ) matches Ok(identity) ==> exists|request: ProbeRequest<'_>|
            request.vendor == vendor && request.target@ == target_of(vendor, identity.env)
                && request.host_env@ == host_env@ && #[trigger] call_ensures(
                P::probe,
                (probe, &request),
                r,
            ),
{
    match ProbeTarget::of(vendor, alias, config, host_env, platform, dir_exists) {
        Ok(target) => {
            let request = ProbeRequest { vendor, target, host_env };
            let r = probe.probe(&request);
            assert(call_ensures(P::probe, (probe, &request), r));
            r
        },
        Err(error) => Observation::Unavailable { reason: error.message(&config.programs) },
    }
}

/// One account's entry in the report.
///
/// A probe that came to no result is reported as unavailable rather than dropped: an account
/// missing from the list reads as "does not exist", which is a different claim.
pub fn account_quota(vendor: Vendor, target: Target, observation: Option<Observation>) -> (r:
    AccountQuota)
    ensures
        r.vendor == vendor,
        r.account == target.alias,
        r.description == target.description,
        match observation {
            Some(seen) => r.observation == seen,
            None => r.observation matches Observation::Unavailable { reason } && reason@
                == "the probe for this account failed inside agentmux"@,
        },
{
    AccountQuota {
        vendor,
        account: target.alias,
        description: target.description,
        observation: match observation {
            Some(seen) => seen,
            None => Observation::Unavailable {
                reason: "the probe for this account failed inside agentmux".to_owned(),
            },
        },
    }
}

/// An account that brings a key, a token or an endpoint is never asked as a login: whatever else its
/// environment holds, it is a credential, with no window to read and no directory to read one from.
pub proof fn a_credential_has_no_window(vendor: Vendor, env: Map<Seq<char>, Seq<char>>)
    requires
        env.contains_key(api_key_var(vendor)) || env.contains_key(base_url_var(vendor)) || (vendor
            == Vendor::Claude && env.contains_key("ANTHROPIC_AUTH_TOKEN"@)),
    ensures
        target_of(vendor, env) == TargetModel::Credential,
        target_dir(target_of(vendor, env)) is None,
{
}

} // verus!
