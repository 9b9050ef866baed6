//! How a command's result reaches the terminal.
//!
//! Every command prints prose by default; what is printed is decided here.

pub mod listing;

use vstd::prelude::*;
use vstd::string::*;

use crate::config::{
    accounts_of, chosen_by_checkout, default_alias, home_dir, home_of, keys_of, machine_paths_of,
    no_launch, rewrites_of, Account, AccountModel, ChosenBy, Config, ConfigModel, LaunchEnv,
    LaunchModel, Platform,
};
use crate::delegate::{
    credential_names, is_credential_name, program_of, Programs, ProgramsModel, Vendor,
};
use crate::mcp::render;
use crate::mcp::render::{
    delegate_line_text, duration_text, list_entries, outcome_line_text, quota_block_lines,
    quota_text, rate_limit_line_text, showable,
};
use crate::ordered::{ascending, in_order, lemma_entry, lemma_one_order, map_of, walkable};
use crate::path::{expand_tilde, expanded};
use crate::quota::AccountQuota;
use crate::run::paging::TranscriptPage;
use crate::run::status::{RunStatus, RunSummary};
use crate::run::HookReopening;
use crate::text::{
    decimal, join, joined, lemma_texts_push, list_holds, listed, number, pad_to, padded_to,
    text_of, texts,
};
use crate::time::{now, Moment};
use crate::transcript::{
    cost_model, failure_label, limit_model, tally_summary, turn_number, CostModel, FailureKind,
    RateLimitModel,
};

verus! {

/// The line about an earlier failure.
pub open spec fn earlier_text(earlier: Option<(u32, FailureKind)>) -> Seq<char> {
    match earlier {
        Some((turn, kind)) => "  EARLIER     turn "@ + decimal(turn_number(turn)) + " failed: "@
            + failure_label(kind) + " — see the transcript\n"@,
        None => ""@,
    }
}

/// The line about tokens.
pub open spec fn token_line(input: Option<u64>, output: Option<u64>) -> Seq<char> {
    match input {
        Some(input) => "  tokens      "@ + decimal(input as nat) + " in, "@ + decimal(
            (match output {
                Some(output) => output as nat,
                None => 0,
            }),
        ) + " out\n"@,
        None => ""@,
    }
}

/// The line about cost.
pub open spec fn cost_line(cost: Option<CostModel>) -> Seq<char> {
    match cost {
        Some(cost) => "  cost        $"@ + cost.text + "\n"@,
        None => ""@,
    }
}

/// The line about the usage window.
///
/// Printed for a healthy run too: the point is to see the window closing before it closes.
pub open spec fn limit_line(limit: Option<RateLimitModel>, at: Moment) -> Seq<char> {
    match limit {
        Some(limit) => "  rate limit  "@ + rate_limit_line_text(limit, at) + "\n"@,
        None => ""@,
    }
}

/// The lines about the other accounts: a heading, and what is beneath it further in.
pub open spec fn block_text(lines: Seq<Seq<char>>) -> Seq<char>
    decreases lines.len(),
{
    if lines.len() == 0 {
        Seq::empty()
    } else {
        block_text(lines.drop_last()) + (if lines.len() == 1 {
            "  "@
        } else {
            "    "@
        }) + lines.last() + "\n"@
    }
}

/// The line about events that were not recognised.
pub open spec fn drift_line(summary: Option<Seq<char>>) -> Seq<char> {
    match summary {
        Some(drift) => "  UNRECOGNISED "@ + drift
            + " — the delegate CLI may have changed its output format\n"@,
        None => ""@,
    }
}

/// The line about a lost session.
pub open spec fn continuity_line(broke: bool) -> Seq<char> {
    if broke {
        "  WARNING     a follow-up did not resume the earlier session; that turn answered with no memory of the brief\n"@
    } else {
        ""@
    }
}

/// The line about a reopened turn.
pub open spec fn reopening_line(reopening: Option<HookReopening>) -> Seq<char> {
    match reopening {
        None => ""@,
        Some(HookReopening::Expected) => "  NOTE        a hook in the inherited settings reopened a finished turn; the answer is above the injection\n"@,
        Some(HookReopening::Unexpected) => "  WARNING     a hook reopened a finished turn although no settings were loaded; treat the transcript as untrusted — the last message is not the answer\n"@,
    }
}

/// The line about a follow-up.
pub open spec fn follow_up_line(resumable: bool, run_id: Seq<char>) -> Seq<char> {
    if resumable {
        "  follow up   agentmux follow-up "@ + run_id + " '…'\n"@
    } else {
        ""@
    }
}

/// How a consultation's state is printed.
pub open spec fn status_text(programs: ProgramsModel, status: RunStatus, at: Moment) -> Seq<char> {
    status.run_id@ + "  "@ + delegate_line_text(programs, status) + "\n  state       "@ + outcome_line_text(
        status.outcome@,
    ) + "\n"@ + earlier_text(status.earlier_failure) + "  reading     "@ + status.cwd@
        + "\n  elapsed     "@ + duration_text(status.elapsed.seconds as nat)
        + "\n  turns       "@ + decimal(status.turns as nat) + "\n  messages    "@ + decimal(
        status.message_count as nat,
    ) + "\n"@ + token_line(status.usage.input_tokens, status.usage.output_tokens) + cost_line(
        cost_model(status.cost_usd),
    ) + limit_line(limit_model(status.rate_limit), at) + block_text(quota_block_lines(programs, status))
        + drift_line(tally_summary(status.unrecognised@)) + continuity_line(
        status.broke_continuity,
    ) + reopening_line(status.hook_reopening) + "  transcript  "@ + status.transcript_path@
        + "\n  events      "@ + status.events_path@ + "\n"@ + follow_up_line(
        status.resumable,
        status.run_id@,
    )
}

fn block(lines: &Vec<String>) -> (r: String)
    ensures
        r@ == block_text(texts(lines@)),
{
    let mut out = String::new();
    let mut i: usize = 0;
    assert(texts(lines@).take(0) =~= Seq::empty());
    while i < lines.len()
        invariant
            i <= lines.len(),
            out@ == block_text(texts(lines@).take(i as int)),
        decreases lines.len() - i,
    {
        let ghost more = texts(lines@).take(i + 1);
        assert(more.drop_last() =~= texts(lines@).take(i as int));
        assert(more.last() == lines@[i as int]@);
        if i == 0 {
            out.append("  ");
        } else {
            out.append("    ");
        }
        out.append(lines[i].as_str());
        out.append("\n");
        i = i + 1;
    }
    assert(texts(lines@).take(i as int) =~= texts(lines@));
    out
}

fn earlier(failure: Option<(u32, FailureKind)>) -> (r: String)
    ensures
        r@ == earlier_text(failure),
{
    match failure {
        Some((turn, kind)) => {
            let mut out = "  EARLIER     turn ".to_owned();
            out.append(number(turn.saturating_add(1) as u64).as_str());
            out.append(" failed: ");
            out.append(kind.label());
            out.append(" — see the transcript\n");
            out
        },
        None => "".to_owned(),
    }
}

fn tokens(input: Option<u64>, output: Option<u64>) -> (r: String)
    ensures
        r@ == token_line(input, output),
{
    match input {
        Some(input) => {
            let mut out = "  tokens      ".to_owned();
            out.append(number(input).as_str());
            out.append(" in, ");
            let given: u64 = match output {
                Some(output) => output,
                None => 0,
            };
            out.append(number(given).as_str());
            out.append(" out\n");
            out
        },
        None => "".to_owned(),
    }
}

/// A consultation's state as of a moment.
pub fn status_at(programs: &Programs, run: &RunStatus, at: Moment) -> (r: String)
    requires
        showable(*run),
        at.valid(),
    ensures
        r@ == status_text(programs@, *run, at),
{
    let mut out = run.run_id.as_str().to_owned();
    out.append("  ");
    out.append(render::delegate_line(programs, run).as_str());
    out.append("\n  state       ");
    out.append(render::outcome_line(&run.outcome).as_str());
    out.append("\n");
    out.append(earlier(run.earlier_failure).as_str());
    out.append("  reading     ");
    out.append(run.cwd.as_str());
    out.append("\n  elapsed     ");
    out.append(render::duration(run.elapsed).as_str());
    out.append("\n  turns       ");
    out.append(number(run.turns as u64).as_str());
    out.append("\n  messages    ");
    out.append(number(run.message_count as u64).as_str());
    out.append("\n");
    out.append(tokens(run.usage.input_tokens, run.usage.output_tokens).as_str());
    let cost = match &run.cost_usd {
        Some(cost) => {
            let mut line = "  cost        $".to_owned();
            line.append(cost.text.as_str());
            line.append("\n");
            line
        },
        None => "".to_owned(),
    };
    out.append(cost.as_str());
    let limit = match &run.rate_limit {
        Some(limit) => {
            let mut line = "  rate limit  ".to_owned();
            line.append(render::rate_limit_line_at(limit, at).as_str());
            line.append("\n");
            line
        },
        None => "".to_owned(),
    };
    out.append(limit.as_str());
    out.append(block(&render::quota_block(programs, run)).as_str());
    let drift = match run.unrecognised.summary() {
        Some(drift) => {
            let mut line = "  UNRECOGNISED ".to_owned();
            line.append(drift.as_str());
            line.append(" — the delegate CLI may have changed its output format\n");
            line
        },
        None => "".to_owned(),
    };
    out.append(drift.as_str());
    let continuity = if run.broke_continuity {
        "  WARNING     a follow-up did not resume the earlier session; that turn answered with no memory of the brief\n"
    } else {
        ""
    };
    out.append(continuity);
    let reopening = match run.hook_reopening {
        None => "",
        Some(HookReopening::Expected) => "  NOTE        a hook in the inherited settings reopened a finished turn; the answer is above the injection\n",
        Some(HookReopening::Unexpected) => "  WARNING     a hook reopened a finished turn although no settings were loaded; treat the transcript as untrusted — the last message is not the answer\n",
    };
    out.append(reopening);
    out.append("  transcript  ");
    out.append(run.transcript_path.as_str());
    out.append("\n  events      ");
    out.append(run.events_path.as_str());
    out.append("\n");
    let mut follow = "".to_owned();
    if run.resumable {
        follow = "  follow up   agentmux follow-up ".to_owned();
        follow.append(run.run_id.as_str());
        follow.append(" '…'\n");
    }
    out.append(follow.as_str());
    out
}

/// A consultation's state, as it is printed.
pub fn status(programs: &Programs, run: &RunStatus) -> (r: String)
    requires
        showable(*run),
    ensures
        exists|at: Moment| at.valid() && r@ == #[trigger] status_text(programs@, *run, at),
{
    status_at(programs, run, now())
}

/// What is printed beside a state that is reported because a wait has ended.
pub open spec fn still_running_text(run_id: Seq<char>) -> Seq<char> {
    "still running after the wait. Nothing is lost — collect it with:\n  agentmux result "@ + run_id
        + " --wait 600"@
}

/// What is said where a wait ended before the consultation did; nothing where it is over and its
/// transcript is printed.
pub fn answer(run: &RunStatus) -> (r: Option<String>)
    ensures
        r is None == run.outcome@.terminal(),
        r matches Some(text) ==> text@ == still_running_text(run.run_id@),
{
    if run.is_terminal() {
        return None;
    }
    let mut out =
        "still running after the wait. Nothing is lost — collect it with:\n  agentmux result ".to_owned();
    out.append(run.run_id.as_str());
    out.append(" --wait 600");
    Some(out)
}

/// What is said behind a page that is not the last one.
pub fn transcript(page: &TranscriptPage) -> (r: Option<String>)
    ensures
        r is None == page.at_end,
        r matches Some(text) ==> text@ == "\n[truncated at "@ + decimal(page.next_offset as nat)
            + " of "@ + decimal(page.total_bytes as nat) + " bytes; continue with --offset "@
            + decimal(page.next_offset as nat) + "]"@,
{
    if page.at_end {
        return None;
    }
    let mut out = "\n[truncated at ".to_owned();
    out.append(number(page.next_offset).as_str());
    out.append(" of ");
    out.append(number(page.total_bytes).as_str());
    out.append(" bytes; continue with --offset ");
    out.append(number(page.next_offset).as_str());
    out.append("]");
    Some(out)
}

/// How following a transcript goes on after a page was printed.
#[derive(Debug, Clone, Copy, PartialEq, Eq, Structural)]
pub enum TailStep {
    /// Print the next page from here after a pause.
    Continue,
    /// Stop, and name the next cursor.
    StopWithCursor,
    /// Stop.
    Stop,
}

/// Milliseconds between two pages of a transcript that is followed: slow enough not to spin, fast
/// enough that a terminal feels live.
pub const TAIL_POLL: u64 = 700;

/// How following a transcript goes on after a page was printed.
pub fn tail(run: &RunStatus, page: &TranscriptPage, follow: bool, json: bool) -> (r: TailStep)
    ensures
        r == if follow {
            if run.outcome@.terminal() && page.at_end {
                TailStep::Stop
            } else {
                TailStep::Continue
            }
        } else if !json && !page.at_end {
            TailStep::StopWithCursor
        } else {
            TailStep::Stop
        },
{
    if !follow {
        if !json && !page.at_end {
            TailStep::StopWithCursor
        } else {
            TailStep::Stop
        }
    } else if run.is_terminal() && page.at_end {
        TailStep::Stop
    } else {
        TailStep::Continue
    }
}

/// Recent consultations, as they are printed.
pub fn list(runs: &Vec<RunSummary>) -> (r: String)
    requires
        forall|i: int| 0 <= i < runs@.len() ==> (#[trigger] runs@[i]).created_at.valid(),
    ensures
        r@ == if runs@.len() == 0 {
            "no consultations yet\n"@
        } else {
            list_entries(runs@)
        },
{
    if runs.len() == 0 {
        "no consultations yet\n".to_owned()
    } else {
        render::list(runs)
    }
}

/// What each account has left, as it is printed.
///
/// The shared renderer serves it, so the CLI and the MCP tool cannot describe the same account
/// differently.
pub fn quota(programs: &Programs, reported: &Vec<AccountQuota>) -> (r: String)
    ensures
        r@ == quota_text(programs@, reported@),
{
    render::quota(programs, reported)
}

/// The paths a machine file was looked for at.
pub open spec fn searched_text(paths: Seq<Seq<char>>) -> Seq<char>
    decreases paths.len(),
{
    if paths.len() == 0 {
        Seq::empty()
    } else {
        searched_text(paths.drop_last()) + "              "@ + paths.last() + "\n"@
    }
}

/// Where the configuration came from, or where it was looked for.
pub open spec fn source_text(source: Option<Seq<char>>, searched: Seq<Seq<char>>) -> Seq<char> {
    match source {
        Some(path) => "config      "@ + path + "\n"@,
        None => "config      none found. A machine file defines accounts; first that exists:\n              $AGENTMUX_CONFIG (unset)\n"@
            + searched_text(searched),
    }
}

/// Which project file selected a default.
pub open spec fn project_text(project: Option<Seq<char>>) -> Seq<char> {
    match project {
        Some(path) => "project     "@ + path + " (selects a default only)\n"@,
        None => ""@,
    }
}

/// The keys that do nothing.
///
/// Both causes are named because they need opposite fixes: one is a typo, the other is an agentmux
/// older than the file it is reading.
pub open spec fn ignored_text(unknown: Seq<(Seq<char>, Seq<char>)>) -> Seq<char>
    decreases unknown.len(),
{
    if unknown.len() == 0 {
        Seq::empty()
    } else {
        ignored_text(unknown.drop_last()) + "ignored     "@ + (unknown.last().0 + " sets "@
            + unknown.last().1) + " (a misspelling, or a key newer than this agentmux)\n"@
    }
}

/// What is added to a name that a named account withholds.
///
/// A delegate that names an account does not get a credential: the account's own login must not be
/// outranked by a key meant for the default.
pub open spec fn withheld_text(name: Seq<char>) -> Seq<char> {
    if credential_names(Vendor::Claude).contains(name) || credential_names(Vendor::Codex).contains(
        name,
    ) {
        "; withheld when an account is named"@
    } else {
        ""@
    }
}

/// Names, each with where its value comes from.
pub open spec fn names_text(names: Seq<Seq<char>>, origin: Seq<char>) -> Seq<char>
    decreases names.len(),
{
    if names.len() == 0 {
        Seq::empty()
    } else {
        names_text(names.drop_last(), origin) + "              "@ + names.last() + " ("@ + origin
            + withheld_text(names.last()) + ")\n"@
    }
}

/// What every delegate also gets: names only, because the values are the operator's.
pub open spec fn launch_text(launch: LaunchModel) -> Seq<char> {
    if launch == no_launch() {
        ""@
    } else {
        "launch      every delegate also gets:\n"@ + names_text(
            keys_of(in_order(launch.env)),
            "set in config"@,
        ) + names_text(launch.env_passthrough, "forwarded from this environment"@) + (
        if launch.request_env.len() == 0 {
            ""@
        } else {
            "              a request may set: "@ + joined(launch.request_env, ", "@) + "\n"@
        })
    }
}

/// The account a vendor falls back to.
pub open spec fn default_text(vendor: Vendor, config: ConfigModel) -> Seq<char> {
    let head = padded_to(program_of(config.programs, vendor), 11) + " default: "@;
    match default_alias(config, vendor) {
        Some(alias) => if chosen_by_checkout(config, vendor) {
            head + alias + " (selected by the project file)\n"@
        } else {
            head + alias + "\n"@
        },
        None => head + "the "@ + program_of(config.programs, vendor) + " CLI's own login\n"@,
    }
}

/// The model rewrites of a vendor, the first under a heading.
pub open spec fn rewrites_text(rules: Seq<(Seq<char>, Seq<char>)>) -> Seq<char>
    decreases rules.len(),
{
    if rules.len() == 0 {
        Seq::empty()
    } else {
        rewrites_text(rules.drop_last()) + "  "@ + padded_to(
            if rules.len() == 1 {
                "models"@
            } else {
                ""@
            },
            14,
        ) + " "@ + rules.last().0 + " -> "@ + rules.last().1 + "\n"@
    }
}

/// A fact of an account, where it has it.
pub open spec fn fact(name: Seq<char>, value: Option<Seq<char>>) -> Seq<Seq<char>> {
    match value {
        Some(value) => seq![name + value],
        None => Seq::empty(),
    }
}

/// That a secret is set, where it is.
pub open spec fn set_fact(text: Seq<char>, secret: Option<Seq<char>>) -> Seq<Seq<char>> {
    if secret is Some {
        seq![text]
    } else {
        Seq::empty()
    }
}

/// The directory of an account, and whether it is there.
pub open spec fn dir_fact(
    platform: Platform,
    dir: Option<Seq<char>>,
    home: Option<Seq<char>>,
    present: Seq<String>,
) -> Seq<Seq<char>> {
    match dir {
        Some(dir) => seq![
            "config_dir="@ + dir + " ("@ + (if listed(present, expanded(platform, dir, home)) {
                "ok"@
            } else {
                "MISSING"@
            }) + ")"@,
        ],
        None => Seq::empty(),
    }
}

/// How an account authenticates.
pub open spec fn means_of(
    platform: Platform,
    account: AccountModel,
    home: Option<Seq<char>>,
    present: Seq<String>,
) -> Seq<Seq<char>> {
    dir_fact(platform, account.config_dir, home, present) + fact(
        "base_url="@,
        account.base_url,
    ) + set_fact(
        "api_key=<set in config>"@,
        account.api_key,
    ) + fact("api_key=$"@, account.api_key_env) + set_fact(
        "auth_token=<set in config>"@,
        account.auth_token,
    ) + fact("auth_token=$"@, account.auth_token_env)
}

/// How one account authenticates, as a list of `field=value` facts.
///
/// An account that names no directory and no credential is the CLI's own login under a name, which
/// is a configuration in its own right rather than an unfinished one.
pub open spec fn account_facts(
    platform: Platform,
    account: AccountModel,
    home: Option<Seq<char>>,
    present: Seq<String>,
) -> Seq<Seq<char>> {
    let means = means_of(platform, account, home, present);
    (if means.len() == 0 {
        seq!["the CLI's own login"@]
    } else {
        means
    }) + (if account.inherit_settings == Some(true) {
        seq!["inherits settings and hooks"@]
    } else {
        Seq::empty()
    })
}

/// The accounts of a vendor.
pub open spec fn accounts_text(
    platform: Platform,
    entries: Seq<(Seq<char>, AccountModel)>,
    home: Option<Seq<char>>,
    present: Seq<String>,
) -> Seq<char>
    decreases entries.len(),
{
    if entries.len() == 0 {
        Seq::empty()
    } else {
        accounts_text(platform, entries.drop_last(), home, present) + "  "@ + padded_to(
            entries.last().0,
            14,
        ) + " "@ + joined(
            account_facts(platform, entries.last().1, home, present),
            ", "@,
        ) + "\n"@ + (
        match entries.last().1.description {
            Some(description) => "  "@ + padded_to(""@, 14) + " "@ + description + "\n"@,
            None => ""@,
        })
    }
}

/// What is printed of one vendor.
pub open spec fn vendor_text(
    platform: Platform,
    vendor: Vendor,
    config: ConfigModel,
    home: Option<Seq<char>>,
    present: Seq<String>,
) -> Seq<char> {
    "\n"@ + default_text(vendor, config) + rewrites_text(in_order(rewrites_of(config, vendor))) + (
    if accounts_of(config, vendor) == Map::<Seq<char>, AccountModel>::empty() {
        "  (none configured — omit --account to use the CLI's own default)\n"@
    } else {
        accounts_text(platform, in_order(accounts_of(config, vendor)), home, present)
    })
}

/// What this machine defines, and where it came from.
pub open spec fn accounts_report(
    platform: Platform,
    config: ConfigModel,
    host: Map<Seq<char>, Seq<char>>,
    present: Seq<String>,
) -> Seq<char> {
    source_text(config.source, machine_paths_of(platform, host)) + project_text(
        config.project_source,
    ) + ignored_text(config.unknown) + launch_text(config.launch) + vendor_text(
        platform,
        Vendor::Claude,
        config,
        home_of(host),
        present,
    ) + vendor_text(platform, Vendor::Codex, config, home_of(host), present)
}

fn searched(paths: &Vec<String>) -> (r: String)
    ensures
        r@ == searched_text(texts(paths@)),
{
    let mut out = String::new();
    let mut i: usize = 0;
    assert(texts(paths@).take(0) =~= Seq::empty());
    while i < paths.len()
        invariant
            i <= paths.len(),
            out@ == searched_text(texts(paths@).take(i as int)),
        decreases paths.len() - i,
    {
        let ghost more = texts(paths@).take(i + 1);
        assert(more.drop_last() =~= texts(paths@).take(i as int));
        assert(more.last() == paths@[i as int]@);
        out.append("              ");
        out.append(paths[i].as_str());
        out.append("\n");
        i = i + 1;
    }
    assert(texts(paths@).take(i as int) =~= texts(paths@));
    out
}

fn withheld(name: &str) -> (r: &'static str)
    ensures
        r@ == withheld_text(name@),
{
    if is_credential_name(name) {
        "; withheld when an account is named"
    } else {
        ""
    }
}

fn name_line(name: &str, origin: &str) -> (r: String)
    ensures
        r@ == "              "@ + name@ + " ("@ + origin@ + withheld_text(name@) + ")\n"@,
{
    let mut out = "              ".to_owned();
    out.append(name);
    out.append(" (");
    out.append(origin);
    out.append(withheld(name));
    out.append(")\n");
    out
}

fn set_names(launch: &LaunchEnv) -> (r: String)
    ensures
        r@ == names_text(keys_of(in_order(launch@.env)), "set in config"@),
{
    let n: usize = launch.env.len();
    let ghost all = keys_of(launch.env.pairs());
    proof {
        lemma_same_keys(launch.env.pairs(), in_order(launch@.env));
    }
    let mut out = String::new();
    let mut i: usize = 0;
    assert(all.take(0) =~= Seq::empty());
    while i < n
        invariant
            i <= n,
            n == launch.env.pairs().len(),
            all == keys_of(launch.env.pairs()),
            out@ == names_text(all.take(i as int), "set in config"@),
        decreases n - i,
    {
        let ghost more = all.take(i + 1);
        let name = launch.env.key_at(i);
        assert(more.drop_last() =~= all.take(i as int));
        assert(more.last() == name@);
        let line = name_line(name.as_str(), "set in config");
        let ghost had = out@;
        out.append(line.as_str());
        assert(out@ =~= names_text(more, "set in config"@));
        i = i + 1;
    }
    assert(all.take(i as int) =~= all);
    out
}

fn forwarded_names(names: &Vec<String>) -> (r: String)
    ensures
        r@ == names_text(texts(names@), "forwarded from this environment"@),
{
    let ghost all = texts(names@);
    let mut out = String::new();
    let mut i: usize = 0;
    assert(all.take(0) =~= Seq::empty());
    while i < names.len()
        invariant
            i <= names.len(),
            all == texts(names@),
            out@ == names_text(all.take(i as int), "forwarded from this environment"@),
        decreases names.len() - i,
    {
        let ghost more = all.take(i + 1);
        assert(more.drop_last() =~= all.take(i as int));
        assert(more.last() == names@[i as int]@);
        let line = name_line(names[i].as_str(), "forwarded from this environment");
        let ghost had = out@;
        out.append(line.as_str());
        assert(out@ =~= names_text(more, "forwarded from this environment"@));
        i = i + 1;
    }
    assert(all.take(i as int) =~= all);
    out
}

fn launch_lines(launch: &LaunchEnv) -> (r: String)
    ensures
        r@ == launch_text(launch@),
{
    if launch.is_empty() {
        return "".to_owned();
    }
    let mut out = "launch      every delegate also gets:\n".to_owned();
    out.append(set_names(launch).as_str());
    out.append(forwarded_names(&launch.env_passthrough).as_str());
    let mut more = "".to_owned();
    assert(texts(launch.request_env@).len() == launch.request_env@.len());
    if launch.request_env.len() > 0 {
        more = "              a request may set: ".to_owned();
        more.append(join(&launch.request_env, ", ").as_str());
        more.append("\n");
    }
    out.append(more.as_str());
    out
}

fn default_line(vendor: Vendor, config: &Config) -> (r: String)
    ensures
        r@ == default_text(vendor, config@),
{
    let mut out = pad_to(vendor.program(&config.programs), 11);
    out.append(" default: ");
    match config.default_account(vendor) {
        Some(default) => {
            out.append(default.alias);
            match default.chosen_by {
                ChosenBy::Project(_) => {
                    out.append(" (selected by the project file)\n");
                },
                ChosenBy::Machine(_) => {
                    out.append("\n");
                },
            }
        },
        None => {
            out.append("the ");
            out.append(vendor.program(&config.programs));
            out.append(" CLI's own login\n");
        },
    }
    out
}

fn rewrite_lines(vendor: Vendor, config: &Config) -> (r: String)
    ensures
        r@ == rewrites_text(in_order(rewrites_of(config@, vendor))),
{
    let rules = match config.model_rewrites(vendor) {
        Some(rules) => rules,
        None => {
            proof {
                crate::ordered::lemma_walk_empty::<Seq<char>>();
            }
            return String::new();
        },
    };
    let n: usize = rules.len();
    let ghost all = rules.pairs();
    let mut out = String::new();
    let mut i: usize = 0;
    assert(all.take(0) =~= Seq::empty());
    while i < n
        invariant
            i <= n,
            n == all.len(),
            all == rules.pairs(),
            out@ == rewrites_text(all.take(i as int)),
        decreases n - i,
    {
        let ghost more = all.take(i + 1);
        assert(more.drop_last() =~= all.take(i as int));
        let from = rules.key_at(i);
        let to = rules.value_at(i);
        assert(more.last() == (from@, to@));
        out.append("  ");
        let heading = if i == 0 {
            "models"
        } else {
            ""
        };
        out.append(pad_to(heading, 14).as_str());
        out.append(" ");
        out.append(from.as_str());
        out.append(" -> ");
        out.append(to.as_str());
        out.append("\n");
        i = i + 1;
    }
    assert(all.take(i as int) =~= all);
    out
}

fn push_fact(list: &mut Vec<String>, name: &str, value: &Option<String>)
    ensures
        texts(final(list)@) == texts(old(list)@) + fact(name@, text_of(*value)),
{
    let ghost had = texts(list@);
    if let Some(value) = value {
        let mut text = name.to_owned();
        text.append(value.as_str());
        proof {
            lemma_texts_push(list@, text);
        }
        list.push(text);
    }
    assert(texts(list@) =~= had + fact(name@, text_of(*value)));
}

/// How one account authenticates, as a list of `field=value` facts.
///
/// `present` lists the directories that are there, because one synced configuration file describes
/// several machines and not all of them are logged into everything.
/// A secret is told to be set, never shown.
pub fn describe_account(
    platform: Platform,
    account: &Account,
    home: Option<&str>,
    present: &Vec<String>,
) -> (r: Vec<String>)
    ensures
        texts(r@) == account_facts(platform, account@, crate::text::str_of(home), present@),
{
    let ghost at_home = crate::text::str_of(home);
    let mut how: Vec<String> = Vec::new();
    assert(texts(how@) =~= Seq::empty());
    if let Some(dir) = &account.config_dir {
        let mut text = "config_dir=".to_owned();
        text.append(dir.as_str());
        text.append(" (");
        if list_holds(present, expand_tilde(platform, dir.as_str(), home).as_str()) {
            text.append("ok");
        } else {
            text.append("MISSING");
        }
        text.append(")");
        proof {
            lemma_texts_push(how@, text);
        }
        how.push(text);
    }
    assert(texts(how@) =~= dir_fact(platform, account@.config_dir, at_home, present@));
    push_fact(&mut how, "base_url=", &account.base_url);
    let ghost a = texts(how@);
    if account.api_key.is_some() {
        let text = "api_key=<set in config>".to_owned();
        proof {
            lemma_texts_push(how@, text);
        }
        how.push(text);
    }
    assert(texts(how@) =~= a + set_fact("api_key=<set in config>"@, account@.api_key));
    push_fact(&mut how, "api_key=$", &account.api_key_env);
    let ghost b = texts(how@);
    if account.auth_token.is_some() {
        let text = "auth_token=<set in config>".to_owned();
        proof {
            lemma_texts_push(how@, text);
        }
        how.push(text);
    }
    assert(texts(how@) =~= b + set_fact("auth_token=<set in config>"@, account@.auth_token));
    push_fact(&mut how, "auth_token=$", &account.auth_token_env);
    let ghost means = means_of(platform, account@, at_home, present@);
    assert(texts(how@) == means);
    assert(texts(how@).len() == how@.len());
    if how.len() == 0 {
        let text = "the CLI's own login".to_owned();
        proof {
            lemma_texts_push(how@, text);
        }
        how.push(text);
        assert(texts(how@) =~= seq!["the CLI's own login"@]);
    }
    let ghost c = texts(how@);
    if account.inherit_settings == Some(true) {
        let text = "inherits settings and hooks".to_owned();
        proof {
            lemma_texts_push(how@, text);
        }
        how.push(text);
    }
    assert(texts(how@) =~= account_facts(platform, account@, at_home, present@));
    how
}

fn account_lines(
    platform: Platform,
    vendor: Vendor,
    config: &Config,
    home: Option<&str>,
    present: &Vec<String>,
) -> (r: String)
    ensures
        r@ == if accounts_of(config@, vendor) == Map::<Seq<char>, AccountModel>::empty() {
            "  (none configured — omit --account to use the CLI's own default)\n"@
        } else {
            accounts_text(
                platform,
                in_order(accounts_of(config@, vendor)),
                crate::text::str_of(home),
                present@,
            )
        },
{
    let ghost at_home = crate::text::str_of(home);
    let accounts = match config.accounts(vendor) {
        Some(accounts) => accounts,
        None => return "  (none configured — omit --account to use the CLI's own default)\n".to_owned(),
    };
    if accounts.is_empty() {
        return "  (none configured — omit --account to use the CLI's own default)\n".to_owned();
    }
    let n: usize = accounts.len();
    let ghost all = accounts.pairs();
    let mut out = String::new();
    let mut i: usize = 0;
    assert(all.take(0) =~= Seq::empty());
    while i < n
        invariant
            i <= n,
            n == all.len(),
            all == accounts.pairs(),
            at_home == crate::text::str_of(home),
            out@ == accounts_text(platform, all.take(i as int), at_home, present@),
        decreases n - i,
    {
        let ghost more = all.take(i + 1);
        assert(more.drop_last() =~= all.take(i as int));
        let alias = accounts.key_at(i);
        let account = accounts.value_at(i);
        assert(more.last() == (alias@, account@));
        let how = describe_account(platform, account, home, present);
        out.append("  ");
        out.append(pad_to(alias.as_str(), 14).as_str());
        out.append(" ");
        out.append(join(&how, ", ").as_str());
        out.append("\n");
        let note = match &account.description {
            Some(description) => {
                let mut line = "  ".to_owned();
                line.append(pad_to("", 14).as_str());
                line.append(" ");
                line.append(description.as_str());
                line.append("\n");
                line
            },
            None => "".to_owned(),
        };
        out.append(note.as_str());
        i = i + 1;
    }
    assert(all.take(i as int) =~= all);
    out
}

fn vendor_lines(
    platform: Platform,
    vendor: Vendor,
    config: &Config,
    home: Option<&str>,
    present: &Vec<String>,
) -> (r: String)
    ensures
        r@ == vendor_text(platform, vendor, config@, crate::text::str_of(home), present@),
{
    let mut out = "\n".to_owned();
    out.append(default_line(vendor, config).as_str());
    out.append(rewrite_lines(vendor, config).as_str());
    out.append(account_lines(platform, vendor, config, home, present).as_str());
    out
}

fn ignored_lines(config: &Config) -> (r: String)
    ensures
        r@ == ignored_text(config@.unknown),
{
    let ghost all = config@.unknown;
    let mut out = String::new();
    let mut i: usize = 0;
    assert(all.take(0) =~= Seq::empty());
    while i < config.unknown.len()
        invariant
            i <= config.unknown.len(),
            all == config@.unknown,
            out@ == ignored_text(all.take(i as int)),
        decreases config.unknown.len() - i,
    {
        let ghost more = all.take(i + 1);
        assert(more.drop_last() =~= all.take(i as int));
        assert(more.last() == config.unknown@[i as int]@);
        out.append("ignored     ");
        out.append(config.unknown[i].message().as_str());
        out.append(" (a misspelling, or a key newer than this agentmux)\n");
        i = i + 1;
    }
    assert(all.take(i as int) =~= all);
    out
}

/// The account aliases this machine defines, and the model rewrites it applies, as they are
/// printed.
///
/// The point of the command is discovery: an alias is a name someone has to know, and the error
/// for guessing wrong is only visible after a consultation has been attempted.
/// A rewrite is the opposite problem: it needs no knowing to work, and is invisible until a
/// consultation comes back naming a model nobody asked for.
/// `present` lists the directories of accounts that are there.
pub fn accounts(
    platform: Platform,
    config: &Config,
    host_env: &crate::ordered::TextMap<String>,
    present: &Vec<String>,
) -> (r: String)
    ensures
        r@ == accounts_report(platform, config@, host_env@, present@),
{
    let mut out = match &config.source {
        Some(path) => {
            let mut line = "config      ".to_owned();
            line.append(path.as_str());
            line.append("\n");
            line
        },
        None => {
            let mut text =
                "config      none found. A machine file defines accounts; first that exists:\n              $AGENTMUX_CONFIG (unset)\n".to_owned();
            text.append(searched(&Config::machine_paths(platform, host_env)).as_str());
            text
        },
    };
    let project = match &config.project_source {
        Some(path) => {
            let mut line = "project     ".to_owned();
            line.append(path.as_str());
            line.append(" (selects a default only)\n");
            line
        },
        None => "".to_owned(),
    };
    out.append(project.as_str());
    out.append(ignored_lines(config).as_str());
    out.append(launch_lines(&config.launch).as_str());
    let home = home_dir(host_env);
    let at_home = match &home {
        Some(home) => Some(home.as_str()),
        None => None,
    };
    out.append(vendor_lines(platform, Vendor::Claude, config, at_home, present).as_str());
    out.append(vendor_lines(platform, Vendor::Codex, config, at_home, present).as_str());
    out
}

/// The keys of two ordered lists with the same keys are the same list.
pub proof fn lemma_same_keys<V, W>(p: Seq<(Seq<char>, V)>, q: Seq<(Seq<char>, W)>)
    requires
        ascending(p),
        ascending(q),
        map_of(p).dom() == map_of(q).dom(),
    ensures
        keys_of(p) == keys_of(q),
{
    let a = p.map_values(|e: (Seq<char>, V)| (e.0, ()));
    let b = q.map_values(|e: (Seq<char>, W)| (e.0, ()));
    assert forall|i: int, j: int| 0 <= i < j < a.len() implies crate::ordered::precedes(
        (#[trigger] a[i]).0,
        (#[trigger] a[j]).0,
    ) by {
        assert(crate::ordered::precedes(p[i].0, p[j].0));
    }
    assert forall|i: int, j: int| 0 <= i < j < b.len() implies crate::ordered::precedes(
        (#[trigger] b[i]).0,
        (#[trigger] b[j]).0,
    ) by {
        assert(crate::ordered::precedes(q[i].0, q[j].0));
    }
    assert forall|k: Seq<char>| #[trigger] map_of(a).contains_key(k) == map_of(b).contains_key(
        k,
    ) by {
        assert(map_of(a).contains_key(k) == map_of(p).contains_key(k)) by {
            if map_of(a).contains_key(k) {
                let i = choose|i: int| 0 <= i < a.len() && (#[trigger] a[i]).0 == k;
                assert(p[i].0 == k);
            }
            if map_of(p).contains_key(k) {
                let i = choose|i: int| 0 <= i < p.len() && (#[trigger] p[i]).0 == k;
                assert(a[i].0 == k);
            }
        }
        assert(map_of(b).contains_key(k) == map_of(q).contains_key(k)) by {
            if map_of(b).contains_key(k) {
                let i = choose|i: int| 0 <= i < b.len() && (#[trigger] b[i]).0 == k;
                assert(q[i].0 == k);
            }
            if map_of(q).contains_key(k) {
                let i = choose|i: int| 0 <= i < q.len() && (#[trigger] q[i]).0 == k;
                assert(b[i].0 == k);
            }
        }
        assert(map_of(p).dom().contains(k) == map_of(q).dom().contains(k));
    }
    assert(map_of(a) =~= map_of(b));
    lemma_one_order(a, b);
    assert(keys_of(p) =~= keys_of(q)) by {
        assert forall|i: int| 0 <= i < p.len() implies p[i].0 == q[i].0 by {
            assert(a[i] == b[i]);
        }
        assert(a.len() == b.len());
    }
}

/// Whether two accounts differ only in what is secret: in what their keys and tokens are, and not in
/// whether they are set, and in the environment they apply.
pub open spec fn alike(a: AccountModel, b: AccountModel) -> bool {
    &&& b == (AccountModel {
        api_key: b.api_key,
        auth_token: b.auth_token,
        launch: b.launch,
        ..a
    })
    &&& a.api_key is Some == b.api_key is Some
    &&& a.auth_token is Some == b.auth_token is Some
}

/// No secret of an account is among the facts that are printed of it.
pub proof fn an_accounts_secrets_never_show(
    platform: Platform,
    a: AccountModel,
    b: AccountModel,
    home: Option<Seq<char>>,
    present: Seq<String>,
)
    requires
        alike(a, b),
    ensures
        account_facts(platform, a, home, present) == account_facts(platform, b, home, present),
{
}

/// The printed configuration shows no value that every delegate is given: two layers that differ
/// only in the values of their variables read the same.
pub proof fn launch_values_never_show(a: LaunchModel, b: LaunchModel)
    requires
        walkable(a.env),
        walkable(b.env),
        a.env.dom() == b.env.dom(),
        a.env_passthrough == b.env_passthrough,
        a.request_env == b.request_env,
    ensures
        launch_text(a) == launch_text(b),
{
    lemma_same_keys(in_order(a.env), in_order(b.env));
    if a == no_launch() {
        assert(b.env =~= no_launch().env);
        assert(b =~= no_launch());
    }
    if b == no_launch() {
        assert(a.env =~= no_launch().env);
        assert(a =~= no_launch());
    }
}

/// Accounts that differ only in what is secret are listed alike.
proof fn lemma_listed_alike(
    platform: Platform,
    p: Seq<(Seq<char>, AccountModel)>,
    q: Seq<(Seq<char>, AccountModel)>,
    home: Option<Seq<char>>,
    present: Seq<String>,
)
    requires
        p.len() == q.len(),
        forall|i: int|
            0 <= i < p.len() ==> (#[trigger] p[i]).0 == q[i].0 && alike(p[i].1, q[i].1),
    ensures
        accounts_text(platform, p, home, present) == accounts_text(platform, q, home, present),
    decreases p.len(),
{
    if p.len() > 0 {
        let m = p.drop_last();
        let n = q.drop_last();
        assert forall|i: int| 0 <= i < m.len() implies (#[trigger] m[i]).0 == n[i].0 && alike(
            m[i].1,
            n[i].1,
        ) by {
            assert(m[i] == p[i] && n[i] == q[i]);
        }
        lemma_listed_alike(platform, m, n, home, present);
        let last = p.len() - 1;
        assert(p[last].0 == q[last].0 && alike(p[last].1, q[last].1));
        an_accounts_secrets_never_show(platform, p[last].1, q[last].1, home, present);
    }
}

/// Whether the accounts of two configurations differ only in what is secret.
pub open spec fn accounts_alike(
    a: Map<Seq<char>, AccountModel>,
    b: Map<Seq<char>, AccountModel>,
) -> bool {
    &&& walkable(a)
    &&& walkable(b)
    &&& a.dom() == b.dom()
    &&& forall|alias: Seq<char>| #[trigger] a.contains_key(alias) ==> alike(a[alias], b[alias])
}

/// What is printed of a vendor is the same where its accounts differ only in what is secret.
proof fn lemma_vendors_alike(
    platform: Platform,
    vendor: Vendor,
    a: ConfigModel,
    b: ConfigModel,
    home: Option<Seq<char>>,
    present: Seq<String>,
)
    requires
        b == (ConfigModel { accounts: b.accounts, launch: b.launch, ..a }),
        a.accounts.dom() == b.accounts.dom(),
        forall|v: Seq<char>| #[trigger]
            a.accounts.contains_key(v) ==> accounts_alike(a.accounts[v], b.accounts[v]),
    ensures
        vendor_text(platform, vendor, a, home, present) == vendor_text(
            platform,
            vendor,
            b,
            home,
            present,
        ),
{
    let own = accounts_of(a, vendor);
    let other = accounts_of(b, vendor);
    let name = program_of(a.programs, vendor);
    assert(a.accounts.dom().contains(name) == b.accounts.dom().contains(name));
    if a.accounts.contains_key(name) {
        let p = in_order(own);
        let q = in_order(other);
        lemma_same_keys(p, q);
        assert(p.len() == q.len()) by {
            assert(keys_of(p).len() == keys_of(q).len());
        }
        assert forall|i: int| 0 <= i < p.len() implies (#[trigger] p[i]).0 == q[i].0 && alike(
            p[i].1,
            q[i].1,
        ) by {
            assert(keys_of(p)[i] == keys_of(q)[i]);
            lemma_entry(p, i);
            lemma_entry(q, i);
            assert(own.contains_key(p[i].0));
        }
        lemma_listed_alike(platform, p, q, home, present);
        if own == Map::<Seq<char>, AccountModel>::empty() {
            assert(other =~= Map::<Seq<char>, AccountModel>::empty());
        }
        if other == Map::<Seq<char>, AccountModel>::empty() {
            assert(own =~= Map::<Seq<char>, AccountModel>::empty());
        }
    }
}

/// Nothing secret is printed: two configurations that differ only in what their keys and tokens
/// are, and in the values of the variables they set, print the same report.
pub proof fn nothing_secret_is_printed(
    platform: Platform,
    a: ConfigModel,
    b: ConfigModel,
    host: Map<Seq<char>, Seq<char>>,
    present: Seq<String>,
)
    requires
        b == (ConfigModel { accounts: b.accounts, launch: b.launch, ..a }),
        walkable(a.launch.env),
        walkable(b.launch.env),
        a.launch.env.dom() == b.launch.env.dom(),
        a.launch.env_passthrough == b.launch.env_passthrough,
        a.launch.request_env == b.launch.request_env,
        a.accounts.dom() == b.accounts.dom(),
        forall|v: Seq<char>| #[trigger]
            a.accounts.contains_key(v) ==> accounts_alike(a.accounts[v], b.accounts[v]),
    ensures
        accounts_report(platform, a, host, present) == accounts_report(platform, b, host, present),
{
    launch_values_never_show(a.launch, b.launch);
    lemma_vendors_alike(platform, Vendor::Claude, a, b, home_of(host), present);
    lemma_vendors_alike(platform, Vendor::Codex, a, b, home_of(host), present);
}

} // verus!
