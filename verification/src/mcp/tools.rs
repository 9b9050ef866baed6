//! The nine tools: what each call takes, and what it makes of it.

use vstd::prelude::*;
use vstd::string::*;

use crate::config::{
    accounts_of, default_alias, Account, AccountModel, Config, ConfigModel,
};
use crate::delegate::{program_of, Programs, ProgramsModel, Vendor};
use crate::mcp::params::{DelegateParams, Fault, QuestionParams, ToolError};
use crate::mcp::render;
use crate::mcp::render::{showable, status_text, transcript_text};
use crate::ordered::in_order;
use crate::run::paging::TranscriptPage;
use crate::run::status::RunStatus;
use crate::run::{run_error_text, RunError};
use crate::text::{
    capital, capitalised, blank, is_blank, join, joined, lemma_texts_push, list_holds, listed, same,
    texts,
};
use crate::time::Moment;

verus! {

/// Seconds a blocking tool waits by default.
///
/// Codex's `tool_timeout_sec` defaults to sixty seconds, so a default of sixty would race the
/// host's own kill on every call.
/// Forty-five leaves room for the request and the reply.
pub const DEFAULT_WAIT_SECONDS: u64 = 45;

/// Longest wait any tool will honour, in seconds, safely inside the ten-minute default of
/// Anthropic's host.
pub const MAX_WAIT_SECONDS: u64 = 540;

/// Bytes of transcript returned inline by `result` by default.
///
/// Anthropic's host caps tool results, and a truncated result is worse than a pointer to the
/// file, so the default is well under the cap and the path is always given.
pub const DEFAULT_RESULT_BYTES: usize = 40_000;

/// Bytes returned by `tail` by default.
///
/// Small on purpose: a caller watching a forty-minute review pulls this much text every poll, for
/// a report it will read again in full through `result`.
pub const DEFAULT_TAIL_BYTES: usize = 4_000;

/// Largest slice any tool will return inline, whatever was asked for.
///
/// Held under the smallest host budget agentmux is used from, so that a page cannot be cut short
/// by the host while its header advertises a cursor past the bytes the caller never saw.
pub const MAX_SLICE_BYTES: usize = 64_000;

/// Consultations listed by default.
pub const DEFAULT_LIST: usize = 20;

/// Most consultations listed, whatever was asked for.
pub const MAX_LIST: usize = 200;

/// Naming a consultation.
pub struct RunParams {
    /// The consultation id, exactly as `ask`, `start` or `list` reported it.
    pub run_id: String,
}

/// Arguments for `ask`: who to consult, what to ask, and how long to wait.
pub struct AskParams {
    /// Who to consult.
    pub delegate: DelegateParams,
    /// What to ask.
    pub question: QuestionParams,
    /// Seconds to wait for the answer before returning the consultation id instead.
    pub wait_seconds: Option<u64>,
}

/// Arguments for `start`: who to consult and what to ask.
pub struct StartParams {
    /// Who to consult.
    pub delegate: DelegateParams,
    /// What to ask.
    pub question: QuestionParams,
}

/// Arguments for `tail`: which consultation to follow, and from where.
pub struct TailParams {
    /// The consultation id.
    pub run_id: String,
    /// Byte offset to read from.
    pub cursor: Option<u64>,
    /// Most bytes to return.
    pub max_bytes: Option<usize>,
}

/// Arguments for `result`: which consultation to collect, and which page of it.
pub struct ResultParams {
    /// The consultation id.
    pub run_id: String,
    /// Seconds to block for the consultation to finish before returning what exists.
    pub wait_seconds: Option<u64>,
    /// Byte offset to read from.
    pub offset: Option<u64>,
    /// Most bytes to return.
    pub max_bytes: Option<usize>,
}

/// Arguments for `follow_up`: which consultation to continue, and with what.
pub struct FollowUpParams {
    /// The consultation id to continue.
    pub run_id: String,
    /// The follow-up question.
    pub question: String,
    /// Seconds to wait for the answer.
    pub wait_seconds: Option<u64>,
    /// Byte offset to read from.
    pub offset: Option<u64>,
    /// Most bytes to return.
    pub max_bytes: Option<usize>,
}

/// Arguments for `list`: how many consultations to show.
pub struct ListParams {
    /// Most consultations to list, newest first.
    pub limit: Option<usize>,
}

/// Seconds to wait: what was asked for or the default, capped.
pub fn wait(seconds: Option<u64>, default: u64) -> (r: u64)
    ensures
        r == {
            let wanted = match seconds {
                Some(seconds) => seconds,
                None => default,
            };
            if wanted <= MAX_WAIT_SECONDS {
                wanted
            } else {
                MAX_WAIT_SECONDS
            }
        },
{
    let wanted: u64 = match seconds {
        Some(seconds) => seconds,
        None => default,
    };
    if wanted <= MAX_WAIT_SECONDS {
        wanted
    } else {
        MAX_WAIT_SECONDS
    }
}

/// A number held within bounds.
pub open spec fn clamped(n: usize, low: usize, high: usize) -> usize {
    if n < low {
        low
    } else if n > high {
        high
    } else {
        n
    }
}

/// Bytes to return: what was asked for or the default, at least one and capped.
pub fn slice(bytes: Option<usize>, default: usize) -> (r: usize)
    ensures
        r == clamped(
            match bytes {
                Some(bytes) => bytes,
                None => default,
            },
            1,
            MAX_SLICE_BYTES,
        ),
{
    let wanted: usize = match bytes {
        Some(bytes) => bytes,
        None => default,
    };
    if wanted < 1 {
        1
    } else if wanted > MAX_SLICE_BYTES {
        MAX_SLICE_BYTES
    } else {
        wanted
    }
}

impl TailParams {
    /// Where to read from and how much.
    pub fn range(&self) -> (r: (u64, usize))
        ensures
            r.0 == match self.cursor {
                Some(cursor) => cursor,
                None => 0,
            },
            r.1 == clamped(
                match self.max_bytes {
                    Some(bytes) => bytes,
                    None => DEFAULT_TAIL_BYTES,
                },
                1,
                MAX_SLICE_BYTES,
            ),
    {
        let from: u64 = match self.cursor {
            Some(cursor) => cursor,
            None => 0,
        };
        (from, slice(self.max_bytes, DEFAULT_TAIL_BYTES))
    }
}

impl ResultParams {
    /// Seconds to wait first, or nothing where the result is returned at once.
    pub fn waits(&self) -> (r: Option<u64>)
        ensures
            r == match self.wait_seconds {
                Some(seconds) => if seconds == 0 {
                    None
                } else if seconds <= MAX_WAIT_SECONDS {
                    Some(seconds)
                } else {
                    Some(MAX_WAIT_SECONDS)
                },
                None => None,
            },
    {
        match self.wait_seconds {
            Some(seconds) => if seconds > 0 {
                Some(wait(Some(seconds), 0))
            } else {
                None
            },
            None => None,
        }
    }

    /// Where to read from and how much.
    pub fn range(&self) -> (r: (u64, usize))
        ensures
            r.0 == match self.offset {
                Some(offset) => offset,
                None => 0,
            },
            r.1 == clamped(
                match self.max_bytes {
                    Some(bytes) => bytes,
                    None => DEFAULT_RESULT_BYTES,
                },
                1,
                MAX_SLICE_BYTES,
            ),
    {
        let from: u64 = match self.offset {
            Some(offset) => offset,
            None => 0,
        };
        (from, slice(self.max_bytes, DEFAULT_RESULT_BYTES))
    }
}

impl FollowUpParams {
    /// The follow-up question, rejected if empty.
    pub fn text(&self) -> (r: Result<&str, ToolError>)
        ensures
            match r {
                Ok(text) => text@ == self.question@ && !is_blank(self.question@),
                Err(error) => is_blank(self.question@) && error.fault == Fault::Caller
                    && error.message@
                    == "`question` is empty. A follow-up needs something to ask."@,
            },
    {
        if blank(self.question.as_str()) {
            return Err(
                ToolError {
                    fault: Fault::Caller,
                    message: "`question` is empty. A follow-up needs something to ask.".to_owned(),
                },
            );
        }
        Ok(self.question.as_str())
    }

    /// Where to read from and how much, given how long the transcript was before the turn.
    ///
    /// The reply carries the new turn alone: the earlier turns are already in the caller's
    /// context, and re-sending them spends it twice.
    pub fn range(&self, before: u64) -> (r: (u64, usize))
        ensures
            r.0 == match self.offset {
                Some(offset) => offset,
                None => before,
            },
            r.1 == clamped(
                match self.max_bytes {
                    Some(bytes) => bytes,
                    None => DEFAULT_RESULT_BYTES,
                },
                1,
                MAX_SLICE_BYTES,
            ),
    {
        let from: u64 = match self.offset {
            Some(offset) => offset,
            None => before,
        };
        (from, slice(self.max_bytes, DEFAULT_RESULT_BYTES))
    }
}

impl ListParams {
    /// How many consultations to list.
    pub fn count(&self) -> (r: usize)
        ensures
            r == clamped(
                match self.limit {
                    Some(limit) => limit,
                    None => DEFAULT_LIST,
                },
                1,
                MAX_LIST,
            ),
    {
        let wanted: usize = match self.limit {
            Some(limit) => limit,
            None => DEFAULT_LIST,
        };
        if wanted < 1 {
            1
        } else if wanted > MAX_LIST {
            MAX_LIST
        } else {
            wanted
        }
    }
}

/// What is answered once a wait has ended: the transcript, or the state if it is still going.
pub open spec fn answer_text(
    programs: ProgramsModel,
    status: RunStatus,
    page: TranscriptPage,
    at: Moment,
) -> Seq<char> {
    if status.outcome@.terminal() {
        transcript_text(programs, status, page, at)
    } else {
        status_text(programs, status, at)
    }
}

/// The transcript of a consultation once a wait has ended, or its state if it is still going.
pub fn answer(
    programs: &Programs,
    status: &RunStatus,
    page: &TranscriptPage,
    at: Moment,
) -> (r: String)
    requires
        showable(*status),
        at.valid(),
    ensures
        r@ == answer_text(programs@, *status, *page, at),
{
    if status.is_terminal() {
        render::transcript_at(programs, status, page, at)
    } else {
        render::status_at(programs, status, at)
    }
}

/// Whose mistake a failed operation is.
pub open spec fn fault_of(error: RunError) -> Fault {
    match error {
        RunError::NotFound(_) => Fault::Caller,
        RunError::BadRunId(_) => Fault::Caller,
        RunError::NotResumable(_) => Fault::Caller,
        RunError::TurnAlreadyClaimed { .. } => Fault::Caller,
        RunError::StillRunning { .. } => Fault::Caller,
        RunError::Delegate(_) => Fault::Caller,
        RunError::Recursive => Fault::Caller,
        RunError::VendorDenied { .. } => Fault::Caller,
        RunError::Config(_) => Fault::Caller,
        RunError::Launch(_) => Fault::Machine,
        RunError::Corrupt { .. } => Fault::Machine,
        RunError::CorruptRecord { .. } => Fault::Machine,
        RunError::Io { .. } => Fault::Machine,
        RunError::NoStateDir => Fault::Machine,
    }
}

/// What is added to a failed operation's own words.
pub open spec fn remedy_for(error: RunError) -> Seq<char> {
    match error {
        RunError::Config(_) => "\nOmit `account` to run against the CLI's own default configuration."@,
        RunError::Launch(_) => "\nagentmux runs the vendor's own CLI, so that CLI must be installed and logged in on this machine."@,
        _ => ""@,
    }
}

/// Turn a store error into something the calling agent can act on.
///
/// The reader is a model that will decide what to do next from this string alone, so every arm
/// says what happened and what to try instead.
pub fn run_error(programs: &Programs, error: &RunError) -> (r: ToolError)
    ensures
        r.fault == fault_of(*error),
        r.message@ == run_error_text(programs@, *error) + remedy_for(*error),
{
    let mut message = error.message(programs);
    let fault = match error {
        // Something the caller supplied, or a state it can wait out.
        RunError::NotFound(_) => Fault::Caller,
        RunError::BadRunId(_) => Fault::Caller,
        RunError::NotResumable(_) => Fault::Caller,
        RunError::TurnAlreadyClaimed { .. } => Fault::Caller,
        RunError::StillRunning { .. } => Fault::Caller,
        RunError::Delegate(_) => Fault::Caller,
        // The caller is a delegate that inherited its account's MCP servers and found agentmux
        // among them; the remedy is to answer, not to retry.
        RunError::Recursive => Fault::Caller,
        // The operator denied the vendor, and the message names the subagent to use instead.
        RunError::VendorDenied { .. } => Fault::Caller,
        // A malformed or missing config file is the operator's to fix, not the caller's, but the
        // caller is the one holding the failed request and can at least retry without `account`.
        RunError::Config(_) => Fault::Caller,
        RunError::Launch(_) => Fault::Machine,
        RunError::Corrupt { .. } => Fault::Machine,
        RunError::CorruptRecord { .. } => Fault::Machine,
        RunError::Io { .. } => Fault::Machine,
        RunError::NoStateDir => Fault::Machine,
    };
    let remedy = match error {
        RunError::Config(_) => "\nOmit `account` to run against the CLI's own default configuration.",
        RunError::Launch(_) => "\nagentmux runs the vendor's own CLI, so that CLI must be installed and logged in on this machine.",
        _ => "",
    };
    message.append(remedy);
    ToolError { fault, message }
}

/// Vendor names with backticks.
pub open spec fn quoted_names(programs: ProgramsModel, vendors: Seq<Vendor>) -> Seq<Seq<char>> {
    vendors.map_values(|v: Vendor| "`"@ + program_of(programs, v) + "`"@)
}

/// A vendor list as prose, each name backticked and any two joined with "and".
pub fn named(programs: &Programs, vendors: &Vec<Vendor>) -> (r: String)
    ensures
        r@ == joined(quoted_names(programs@, vendors@), " and "@),
{
    let mut names: Vec<String> = Vec::new();
    let mut i: usize = 0;
    let ghost all = quoted_names(programs@, vendors@);
    assert(texts(names@) =~= all.take(0));
    while i < vendors.len()
        invariant
            i <= vendors.len(),
            all == quoted_names(programs@, vendors@),
            texts(names@) == all.take(i as int),
        decreases vendors.len() - i,
    {
        let mut name = "`".to_owned();
        name.append(vendors[i].program(programs));
        name.append("`");
        proof {
            lemma_texts_push(names@, name);
            assert(all.take(i + 1) =~= all.take(i as int).push(name@));
        }
        names.push(name);
        i = i + 1;
    }
    assert(all.take(i as int) =~= all);
    join(&names, " and ")
}

/// The vendors that are not among others, in the order of [`Vendor::ALL`].
pub open spec fn allowed_vendors(denied: Seq<Vendor>) -> Seq<Vendor> {
    (if denied.contains(Vendor::Claude) {
        Seq::empty()
    } else {
        seq![Vendor::Claude]
    }) + (if denied.contains(Vendor::Codex) {
        Seq::empty()
    } else {
        seq![Vendor::Codex]
    })
}

fn holds_vendor(list: &Vec<Vendor>, vendor: Vendor) -> (r: bool)
    ensures
        r == list@.contains(vendor),
{
    let mut i: usize = 0;
    while i < list.len()
        invariant
            i <= list.len(),
            forall|j: int| 0 <= j < i ==> #[trigger] list@[j] != vendor,
        decreases list.len() - i,
    {
        if list[i] == vendor {
            assert(list@[i as int] == vendor);
            return true;
        }
        i = i + 1;
    }
    false
}

/// The vendors that are not among others.
pub fn allowed(denied: &Vec<Vendor>) -> (r: Vec<Vendor>)
    ensures
        r@ == allowed_vendors(denied@),
{
    let mut out: Vec<Vendor> = Vec::new();
    if !holds_vendor(denied, Vendor::Claude) {
        out.push(Vendor::Claude);
    }
    if !holds_vendor(denied, Vendor::Codex) {
        out.push(Vendor::Codex);
    }
    assert(out@ =~= allowed_vendors(denied@));
    out
}

/// What the instructions say about a vendor this server will not launch, if any.
pub open spec fn denial_text(programs: ProgramsModel, denied: Seq<Vendor>) -> Seq<char> {
    if denied.len() == 0 {
        ""@
    } else {
        "\n\nThis server launches no "@ + joined(quoted_names(programs, denied), " and "@)
            + " delegates: the harness it serves already spawns those subagents natively, so use its own for that side."@
            + (if allowed_vendors(denied).len() == 0 {
            ""@
        } else {
            " Here, `delegate` is "@ + joined(quoted_names(programs, allowed_vendors(denied)), " and "@)
                + "."@
        })
    }
}

/// What the instructions say about a vendor this server will not launch, if any.
///
/// The reason is worth stating, not just the refusal.
/// A caller told only that a delegate is unavailable retries it with another model or another
/// account; one told the delegation is redundant reaches for the subagent its own harness already
/// gives it.
pub fn denial(programs: &Programs, denied: &Vec<Vendor>) -> (r: String)
    ensures
        r@ == denial_text(programs@, denied@),
{
    if denied.len() == 0 {
        return "".to_owned();
    }
    let mut out = "\n\nThis server launches no ".to_owned();
    out.append(named(programs, denied).as_str());
    out.append(
        " delegates: the harness it serves already spawns those subagents natively, so use its own for that side.",
    );
    let rest = allowed(denied);
    let mut here = "".to_owned();
    if rest.len() > 0 {
        here = " Here, `delegate` is ".to_owned();
        here.append(named(programs, &rest).as_str());
        here.append(".");
    }
    out.append(here.as_str());
    out
}

/// What is worth knowing of an account before it is named.
pub open spec fn account_notes(account: AccountModel) -> Seq<Seq<char>> {
    (match account.description {
        Some(description) => seq![description],
        None => Seq::empty(),
    }) + (if account.inherit_settings == Some(true) {
        seq!["INHERITS this machine's settings, hooks and MCP servers"@]
    } else {
        Seq::empty()
    })
}

/// How an account is listed in the instructions.
pub open spec fn roster_entry(alias: Seq<char>, account: AccountModel) -> Seq<char> {
    if account_notes(account).len() == 0 {
        "`"@ + alias + "`"@
    } else {
        "`"@ + alias + "` ("@ + joined(account_notes(account), ", "@) + ")"@
    }
}

fn roster_name(alias: &str, account: &Account) -> (r: String)
    ensures
        r@ == roster_entry(alias@, account@),
{
    let mut notes: Vec<String> = Vec::new();
    if let Some(description) = &account.description {
        notes.push(description.clone());
    }
    // The one property a caller cannot discover and must not be surprised by.
    if account.inherit_settings == Some(true) {
        notes.push("INHERITS this machine's settings, hooks and MCP servers".to_owned());
    }
    assert(texts(notes@) =~= account_notes(account@));
    let mut out = "`".to_owned();
    out.append(alias);
    assert(texts(notes@).len() == notes@.len());
    if notes.len() == 0 {
        out.append("`");
    } else {
        out.append("` (");
        out.append(join(&notes, ", ").as_str());
        out.append(")");
    }
    out
}

/// The accounts of a vendor as the instructions list them.
pub open spec fn roster_entries(entries: Seq<(Seq<char>, AccountModel)>) -> Seq<Seq<char>> {
    entries.map_values(|e: (Seq<char>, AccountModel)| roster_entry(e.0, e.1))
}

/// Which account runs where none is named.
pub open spec fn fallback_text(
    programs: ProgramsModel,
    vendor: Vendor,
    alias: Option<Seq<char>>,
) -> Seq<char> {
    match alias {
        Some(alias) => "`"@ + alias + "`"@,
        None => "the "@ + program_of(programs, vendor) + " CLI's own login"@,
    }
}

/// What the instructions say of a vendor's accounts.
pub open spec fn vendor_roster(vendor: Vendor, config: ConfigModel) -> Seq<char> {
    program_of(config.programs, vendor) + ": "@ + joined(
        roster_entries(in_order(accounts_of(config, vendor))),
        ", "@,
    ) + " — omitting `account` uses "@ + fallback_text(config.programs, vendor, default_alias(config, vendor))
        + " unless the checkout's own agentmux.toml selects another"@
}

/// What the instructions say of a vendor that has accounts.
pub open spec fn described(vendor: Vendor, config: ConfigModel) -> Seq<Seq<char>> {
    if accounts_of(config, vendor) == Map::<Seq<char>, AccountModel>::empty() {
        Seq::empty()
    } else {
        seq![vendor_roster(vendor, config)]
    }
}

/// What the instructions say of this machine's accounts.
pub open spec fn roster_text(config: ConfigModel) -> Seq<char> {
    let parts = described(Vendor::Claude, config) + described(Vendor::Codex, config);
    if parts.len() == 0 {
        "No named accounts were defined when this server started, so omit `account`."@
    } else {
        "This machine defines these accounts — "@ + joined(parts, "; "@)
            + ". Pass one as `account`, or omit it for the default; the `delegate:` line of every result names the account that actually ran."@
    }
}

fn describe_vendor(vendor: Vendor, config: &Config) -> (r: Option<String>)
    ensures
        match r {
            Some(text) => described(vendor, config@) == seq![text@],
            None => described(vendor, config@).len() == 0,
        },
{
    let accounts = match config.accounts(vendor) {
        Some(accounts) => accounts,
        None => return None,
    };
    if accounts.is_empty() {
        return None;
    }
    let n: usize = accounts.len();
    let ghost entries = accounts.pairs();
    let mut names: Vec<String> = Vec::new();
    let mut i: usize = 0;
    assert(texts(names@) =~= roster_entries(entries.take(0)));
    while i < n
        invariant
            i <= n,
            n == entries.len(),
            entries == accounts.pairs(),
            texts(names@) == roster_entries(entries.take(i as int)),
        decreases n - i,
    {
        let name = roster_name(accounts.key_at(i).as_str(), accounts.value_at(i));
        proof {
            lemma_texts_push(names@, name);
            assert(roster_entries(entries.take(i + 1)) =~= roster_entries(
                entries.take(i as int),
            ).push(name@));
        }
        names.push(name);
        i = i + 1;
    }
    assert(entries.take(i as int) =~= entries);
    let fallback = match config.default_account(vendor) {
        Some(default) => {
            let mut text = "`".to_owned();
            text.append(default.alias);
            text.append("`");
            text
        },
        None => {
            let mut text = "the ".to_owned();
            text.append(vendor.program(&config.programs));
            text.append(" CLI's own login");
            text
        },
    };
    let mut out = vendor.program(&config.programs).to_owned();
    out.append(": ");
    out.append(join(&names, ", ").as_str());
    out.append(" — omitting `account` uses ");
    out.append(fallback.as_str());
    out.append(" unless the checkout's own agentmux.toml selects another");
    Some(out)
}

fn roster(config: &Config) -> (r: String)
    ensures
        r@ == roster_text(config@),
{
    let mut parts: Vec<String> = Vec::new();
    assert(texts(parts@) =~= Seq::empty());
    if let Some(text) = describe_vendor(Vendor::Claude, config) {
        proof {
            lemma_texts_push(parts@, text);
        }
        parts.push(text);
    }
    assert(texts(parts@) =~= described(Vendor::Claude, config@));
    if let Some(text) = describe_vendor(Vendor::Codex, config) {
        proof {
            lemma_texts_push(parts@, text);
        }
        parts.push(text);
    }
    assert(texts(parts@) =~= described(Vendor::Claude, config@) + described(
        Vendor::Codex,
        config@,
    ));
    assert(texts(parts@).len() == parts@.len());
    if parts.len() == 0 {
        "No named accounts were defined when this server started, so omit `account`.".to_owned()
    } else {
        let mut out = "This machine defines these accounts — ".to_owned();
        out.append(join(&parts, "; ").as_str());
        out.append(
            ". Pass one as `account`, or omit it for the default; the `delegate:` line of every result names the account that actually ran.",
        );
        out
    }
}

/// What the instructions say behind the roster.
pub const AFTER_ROSTER: &'static str = " That was read when this server started, and a host delivers these instructions\n\
only once, so `quota` is the authority if the two disagree: it re-reads the machine's file\n\
on every call, as every launch does. It reports what each account has left and costs\n\
nothing: call it before a long consultation, and again after a rate-limited failure to\n\
find one that can answer now.\n\
\n\
A delegate loads no settings, hooks or MCP servers unless its account is marked above as\n\
inheriting them. Pass `inherit_settings: true` when the point of the consultation is to\n\
exercise the tooling that configuration sets up, `false` when the answer must not depend\n\
on this machine, and `env` to set variables the account's own tooling reads.\n";

/// What the instructions say of consultations in general.
pub const ABOUT_CONSULTATIONS: &'static str = " — and keeps the whole transcript. Your own harness already spawns\n\
same-vendor subagents natively and more cheaply; agentmux exists to cross the vendor line, which is\n\
where a disagreement is worth paying for.\n\
\n\
A consultation is slow and durable. `start` returns a run id immediately and the delegate runs\n\
detached, surviving a restart of this server. Then poll `status` — it is cheap and carries no\n\
transcript text — about once a minute; a review at high effort takes five to forty minutes. Use\n\
`tail` when you want to see what the delegate is actually doing, `result` to collect the answer,\n\
and `cancel` to stop one while keeping what it collected. `ask` is `start` plus a 45-second wait,\n\
for a question you expect answered quickly; a review is not that. A call that comes back \"still\n\
running\" has lost nothing, and `list` recovers an id you did not keep. `follow_up` continues the\n\
delegate's own session, so ask only the new thing.\n\
\n\
The transcript is the deliverable and the last message is not the answer. No tool returns \"the\n\
answer\", deliberately: a delegate's report is routinely followed by wrap-up, a warning, or a turn\n\
that a hook reopened after it had finished, and the findings are above all of that. Read `result`\n\
from the top, or open the file at `transcript:` with your own file tools — the inline text is\n\
bounded by your host's result limit, the file never is.\n\
\n";

/// What the instructions say of choosing a delegate and writing the question.
pub const ABOUT_QUESTIONS: &'static str = "), the exact `model` identifier that\n\
vendor's CLI spells, and an `effort`. agentmux keeps no model list and checks neither: it forwards\n\
both verbatim and hands you the CLI's own refusal, which names what it does accept. The machine's\n\
own configuration may rewrite one model identifier to another, and a result whose model was\n\
rewritten names both. Pin the model every time — inheriting a default is how an expensive question\n\
reaches a cheap model. Pin the effort too for anything that matters: left out, the machine's\n\
configured default for that model is used, or the CLI's own when it has none, and the result says\n\
which effort ran.\n\
\n\
Write the question for a stranger. The delegate shares no conversation with you and cannot ask you\n\
anything: name the paths it should read and the shape of the answer you want. It reads your project\n\
from `cwd`, is offered no editing tools, and never inherits your session's identity, settings,\n\
hooks or MCP servers.";

/// The part of the instructions that is the same on every machine.
///
/// [`instructions`] appends the accounts this one has.
pub open spec fn fixed_instructions(programs: ProgramsModel) -> Seq<char> {
    "agentmux runs a question past the OTHER vendor's coding agent — `"@ + programs.codex
        + "` when you are "@ + capital(programs.claude) + " Code,\n`"@ + programs.claude
        + "` when you are "@ + capital(programs.codex) + ABOUT_CONSULTATIONS@
        + "Choose a delegate by naming `delegate` (`"@ + programs.claude + "` or `"@
        + programs.codex + "`"@ + ABOUT_QUESTIONS@
}

fn general(programs: &Programs) -> (r: String)
    ensures
        r@ == fixed_instructions(programs@),
{
    let claude = Vendor::Claude.program(programs);
    let codex = Vendor::Codex.program(programs);
    let mut out = "agentmux runs a question past the OTHER vendor's coding agent — `".to_owned();
    out.append(codex);
    out.append("` when you are ");
    out.append(capitalised(claude).as_str());
    out.append(" Code,\n`");
    out.append(claude);
    out.append("` when you are ");
    out.append(capitalised(codex).as_str());
    out.append(ABOUT_CONSULTATIONS);
    out.append("Choose a delegate by naming `delegate` (`");
    out.append(claude);
    out.append("` or `");
    out.append(codex);
    out.append("`");
    out.append(ABOUT_QUESTIONS);
    out
}

/// What a host injects into the calling agent's context.
pub open spec fn instructions_of(
    programs: ProgramsModel,
    config: Option<ConfigModel>,
    denied: Seq<Vendor>,
) -> Seq<char> {
    let fixed = fixed_instructions(programs) + denial_text(programs, denied);
    match config {
        Some(config) => fixed + "\n\n"@ + roster_text(config) + AFTER_ROSTER@,
        None => fixed,
    }
}

/// What a host injects into the calling agent's context, plus this machine's own accounts.
///
/// The roster is appended rather than baked into the schema: a tool schema is sent once and cached
/// by the host, while accounts are machine state.
/// A configuration that could not be read leaves the roster out.
pub fn instructions(
    programs: &Programs,
    config: Option<&Config>,
    denied: &Vec<Vendor>,
) -> (r: String)
    ensures
        r@ == instructions_of(programs@,
            match config {
                Some(config) => Some(config@),
                None => None,
            },
            denied@,
        ),
{
    let mut out = general(programs);
    out.append(denial(programs, denied).as_str());
    if let Some(config) = config {
        out.append("\n\n");
        out.append(roster(config).as_str());
        out.append(AFTER_ROSTER);
    }
    out
}

/// Whether a tool takes a delegate it must launch, rather than one it may ask about.
///
/// Requiring a delegate is what marks a tool as one that starts a consultation, so a tool added
/// later cannot quietly escape this by being forgotten in a list of names.
pub fn requires_delegate(required: &Vec<String>) -> (r: bool)
    ensures
        r == listed(required@, "delegate"@),
{
    list_holds(required, "delegate")
}

/// Whether a choice names a denied vendor.
pub open spec fn names_denied(
    programs: ProgramsModel,
    choice: Seq<char>,
    denied: Seq<Vendor>,
) -> bool {
    exists|i: int| 0 <= i < denied.len() && program_of(programs, #[trigger] denied[i]) == choice
}

/// The choices that name no denied vendor.
pub open spec fn narrowed(
    programs: ProgramsModel,
    choices: Seq<Seq<char>>,
    denied: Seq<Vendor>,
) -> Seq<Seq<char>>
    decreases choices.len(),
{
    if choices.len() == 0 {
        Seq::empty()
    } else if names_denied(programs, choices.last(), denied) {
        narrowed(programs, choices.drop_last(), denied)
    } else {
        narrowed(programs, choices.drop_last(), denied).push(choices.last())
    }
}

/// Leave a denied vendor out of the choices a tool that starts a consultation offers.
///
/// This is advertising, not enforcement: the store refuses the launch itself, so a caller that sends
/// the denied name anyway still gets that refusal.
pub fn narrow_delegate_choice(
    programs: &Programs,
    choices: &Vec<String>,
    denied: &Vec<Vendor>,
) -> (r: Vec<String>)
    ensures
        texts(r@) == narrowed(programs@, texts(choices@), denied@),
{
    let mut out: Vec<String> = Vec::new();
    let ghost all = texts(choices@);
    let mut i: usize = 0;
    assert(texts(out@) =~= narrowed(programs@, all.take(0), denied@));
    while i < choices.len()
        invariant
            i <= choices.len(),
            all == texts(choices@),
            texts(out@) == narrowed(programs@, all.take(i as int), denied@),
        decreases choices.len() - i,
    {
        let ghost more = all.take(i + 1);
        assert(more.drop_last() =~= all.take(i as int));
        assert(more.last() == choices@[i as int]@);
        let mut refused = false;
        let mut k: usize = 0;
        while k < denied.len()
            invariant
                k <= denied.len(),
                i < choices.len(),
                refused == exists|j: int|
                    0 <= j < k && program_of(programs@, #[trigger] denied@[j]) == choices@[i as int]@,
            decreases denied.len() - k,
        {
            if same(denied[k].program(programs), choices[i].as_str()) {
                assert(program_of(programs@, denied@[k as int]) == choices@[i as int]@);
                refused = true;
            }
            k = k + 1;
        }
        if !refused {
            let choice = choices[i].clone();
            proof {
                lemma_texts_push(out@, choice);
            }
            out.push(choice);
        }
        i = i + 1;
    }
    assert(all.take(i as int) =~= all);
    out
}

/// A denied vendor is not among the choices that are offered.
pub proof fn a_denied_vendor_is_not_offered(
    programs: ProgramsModel,
    choices: Seq<Seq<char>>,
    denied: Seq<Vendor>,
    vendor: Vendor,
)
    requires
        denied.contains(vendor),
    ensures
        !narrowed(programs, choices, denied).contains(program_of(programs, vendor)),
    decreases choices.len(),
{
    if choices.len() > 0 {
        a_denied_vendor_is_not_offered(programs, choices.drop_last(), denied, vendor);
        let front = narrowed(programs, choices.drop_last(), denied);
        let i = choose|i: int| 0 <= i < denied.len() && denied[i] == vendor;
        assert(program_of(programs, denied[i]) == program_of(programs, vendor));
        if narrowed(programs, choices, denied).contains(program_of(programs, vendor)) {
            let j = choose|j: int|
                0 <= j < narrowed(programs, choices, denied).len() && narrowed(programs, choices, denied)[j]
                    == program_of(programs, vendor);
            if j < front.len() {
                assert(front[j] == program_of(programs, vendor));
            } else {
                assert(names_denied(programs, choices.last(), denied));
            }
        }
    }
}

} // verus!
