//! The command-line surface.
//!
//! The same nine verbs the MCP server exposes, plus `mcp` to serve them, `accounts` to show what
//! this machine defines, and `prune` to remove consultations by hand.
//! A human debugging a delegation and an agent calling the tool are exercising exactly the same
//! code path, which is the point: if `agentmux ask` works from a terminal, the tool works.

use vstd::prelude::*;
use vstd::string::*;

use crate::delegate::{
    parts_error, CodexSandbox, Delegate, DelegateError, DelegateModel, Isolation, Vendor,
};
use crate::ordered::TextMap;
use crate::run::{valid_id, Retention, RunId, RunIdError};
use crate::text::{blank, chars_of, debug_quoted, is_blank, quoted, text_between, text_of};

verus! {

/// Delegate a question to another vendor's coding agent and keep the whole transcript.
pub struct Cli {
    /// Where consultations are stored.
    /// Defaults to the platform state directory.
    pub state_dir: Option<String>,
    /// Print machine-readable JSON instead of prose.
    pub json: bool,
    /// What to do.
    pub command: Command,
}

/// What to do.
pub enum Command {
    /// Ask a delegate a question and wait for the answer.
    ///
    /// Waiting too long is never fatal: the consultation keeps running and its id is printed so it
    /// can be collected later.
    Ask(AskArgs),
    /// Begin a consultation and return immediately.
    Start(StartArgs),
    /// Report how a consultation is doing.
    Status(RunArgs),
    /// Print the transcript written since a cursor, then the next cursor.
    Tail(TailArgs),
    /// Print the whole transcript.
    Result(ResultArgs),
    /// Ask a finished consultation one more question, in the delegate's own session.
    FollowUp(FollowUpArgs),
    /// Stop a running consultation, keeping everything collected so far.
    Cancel(RunArgs),
    /// List recent consultations.
    List(ListArgs),
    /// Delete consultations past their retention, or one by id.
    Prune(PruneArgs),
    /// List the account aliases and model rewrites this machine defines, and where they came
    /// from.
    Accounts,
    /// Report what each configured account has left of its usage windows.
    Quota(QuotaArgs),
    /// Serve the tools over stdio, for an MCP host to launch.
    Mcp(McpArgs),
}

/// Which CLI to consult.
#[derive(Debug, Clone, Copy, PartialEq, Eq, Structural)]
pub enum VendorArg {
    /// Anthropic's CLI.
    Claude,
    /// The `codex` CLI from `OpenAI`.
    Codex,
}

/// The vendor an argument names.
pub open spec fn vendor_named(arg: VendorArg) -> Vendor {
    match arg {
        VendorArg::Claude => Vendor::Claude,
        VendorArg::Codex => Vendor::Codex,
    }
}

impl From<VendorArg> for Vendor {
    fn from(vendor: VendorArg) -> (r: Self) {
        match vendor {
            VendorArg::Claude => Vendor::Claude,
            VendorArg::Codex => Vendor::Codex,
        }
    }
}

impl vstd::std_specs::convert::FromSpecImpl<VendorArg> for Vendor {
    open spec fn obeys_from_spec() -> bool {
        true
    }

    open spec fn from_spec(vendor: VendorArg) -> Self {
        vendor_named(vendor)
    }
}

/// How much of the filesystem a Codex delegate may write.
#[derive(Debug, Clone, Copy, PartialEq, Eq, Structural)]
pub enum SandboxArg {
    /// Read the working directory, write nothing.
    ReadOnly,
    /// Also write inside the working directory.
    WorkspaceWrite,
}

/// The sandbox an argument names.
pub open spec fn sandbox_named(arg: SandboxArg) -> CodexSandbox {
    match arg {
        SandboxArg::ReadOnly => CodexSandbox::ReadOnly,
        SandboxArg::WorkspaceWrite => CodexSandbox::WorkspaceWrite,
    }
}

impl From<SandboxArg> for CodexSandbox {
    fn from(sandbox: SandboxArg) -> (r: Self) {
        match sandbox {
            SandboxArg::ReadOnly => CodexSandbox::ReadOnly,
            SandboxArg::WorkspaceWrite => CodexSandbox::WorkspaceWrite,
        }
    }
}

impl vstd::std_specs::convert::FromSpecImpl<SandboxArg> for CodexSandbox {
    open spec fn obeys_from_spec() -> bool {
        true
    }

    open spec fn from_spec(sandbox: SandboxArg) -> Self {
        sandbox_named(sandbox)
    }
}

/// Why a command line cannot be carried out.
#[derive(Debug, PartialEq, Eq)]
pub struct CliError {
    /// The reason as it is printed.
    pub message: String,
}

/// How the server is served.
pub struct McpArgs {
    /// Refuse to launch this vendor's delegates.
    ///
    /// Name the vendor of the harness this server is registered in.
    /// That harness spawns its own same-vendor subagents natively and supervises them itself.
    /// Denying both leaves nothing to consult and is refused.
    pub deny: Vec<VendorArg>,
}

/// The vendors a list of arguments names.
pub open spec fn vendors_named(args: Seq<VendorArg>) -> Seq<Vendor> {
    args.map_values(|a: VendorArg| vendor_named(a))
}

impl McpArgs {
    /// The vendors this server will not launch.
    pub fn denied(&self) -> (r: Result<Vec<Vendor>, CliError>)
        ensures
            match r {
                Ok(denied) => denied@ == vendors_named(self.deny@) && !(denied@.contains(
                    Vendor::Claude,
                ) && denied@.contains(Vendor::Codex)),
                Err(error) => vendors_named(self.deny@).contains(Vendor::Claude) && vendors_named(
                    self.deny@,
                ).contains(Vendor::Codex) && error.message@
                    == "denying both vendors leaves nothing to consult"@,
            },
    {
        let mut out: Vec<Vendor> = Vec::new();
        let mut claude = false;
        let mut codex = false;
        let ghost all = vendors_named(self.deny@);
        let mut i: usize = 0;
        while i < self.deny.len()
            invariant
                i <= self.deny.len(),
                all == vendors_named(self.deny@),
                out@ == all.take(i as int),
                claude == exists|j: int| 0 <= j < i && #[trigger] all[j] == Vendor::Claude,
                codex == exists|j: int| 0 <= j < i && #[trigger] all[j] == Vendor::Codex,
            decreases self.deny.len() - i,
        {
            assert(all[i as int] == vendor_named(self.deny@[i as int]));
            let vendor = Vendor::from(self.deny[i]);
            match vendor {
                Vendor::Claude => {
                    claude = true;
                },
                Vendor::Codex => {
                    codex = true;
                },
            }
            out.push(vendor);
            assert(out@ =~= all.take(i + 1));
            i = i + 1;
        }
        assert(all.take(i as int) =~= all);
        if claude && codex {
            return Err(
                CliError { message: "denying both vendors leaves nothing to consult".to_owned() },
            );
        }
        Ok(out)
    }
}

/// Which delegate to consult, and on what terms.
pub struct DelegateArgs {
    /// Which CLI to consult: Anthropic's reaches Anthropic models, `codex` reaches GPT models.
    pub delegate: VendorArg,
    /// Model identifier, passed to the delegate CLI verbatim.
    pub model: String,
    /// Reasoning effort, passed verbatim.
    pub effort: String,
    /// Which configured account to authenticate as, for either vendor.
    pub account: Option<String>,
    /// Run the delegate with the account's own settings, hooks and MCP servers.
    pub inherit_settings: bool,
    /// Load none of the account's settings, hooks or MCP servers.
    pub isolated: bool,
    /// How much of the filesystem the delegate may write, for `--delegate codex`.
    pub sandbox: Option<SandboxArg>,
}

/// The isolation two flags ask for, or nothing to let the account decide.
pub open spec fn flagged_isolation(inherit_settings: bool, isolated: bool) -> Option<Isolation> {
    if inherit_settings {
        Some(Isolation::Inherit)
    } else if isolated {
        Some(Isolation::Isolated)
    } else {
        None
    }
}

/// The sandbox an argument names, where there is one.
pub open spec fn sandbox_asked(arg: Option<SandboxArg>) -> Option<CodexSandbox> {
    match arg {
        Some(arg) => Some(sandbox_named(arg)),
        None => None,
    }
}

impl DelegateArgs {
    /// The isolation asked for on the command line, or `None` to let the account decide.
    pub fn isolation(&self) -> (r: Option<Isolation>)
        ensures
            r == flagged_isolation(self.inherit_settings, self.isolated),
    {
        if self.inherit_settings {
            Some(Isolation::Inherit)
        } else if self.isolated {
            Some(Isolation::Isolated)
        } else {
            None
        }
    }

    /// Build the delegate, rejecting an option that belongs to the other vendor.
    ///
    /// Existence of the alias is not checked here: which aliases are defined depends on the
    /// working directory the consultation will run in.
    pub fn build(&self) -> (r: Result<Delegate, DelegateError>)
        ensures
            match parts_error(
                vendor_named(self.delegate),
                self.model@,
                Some(self.effort@),
                text_of(self.account),
                sandbox_asked(self.sandbox),
            ) {
                Some(error) => r matches Err(e) && e@ == error,
                None => r matches Ok(delegate) && delegate@ == (DelegateModel {
                    vendor: vendor_named(self.delegate),
                    model: self.model@,
                    effort: Some(self.effort@),
                    sandbox: if self.delegate == VendorArg::Codex {
                        match self.sandbox {
                            Some(arg) => Some(sandbox_named(arg)),
                            None => Some(CodexSandbox::ReadOnly),
                        }
                    } else {
                        None
                    },
                    account: text_of(self.account),
                    isolation: flagged_isolation(self.inherit_settings, self.isolated),
                }),
            },
    {
        Delegate::from_parts(
            Vendor::from(self.delegate),
            self.model.as_str(),
            Some(self.effort.as_str()),
            match &self.account {
                Some(account) => Some(account.as_str()),
                None => None,
            },
            self.isolation(),
            match self.sandbox {
                Some(sandbox) => Some(CodexSandbox::from(sandbox)),
                None => None,
            },
        )
    }
}

/// Which vendor's accounts to ask about.
pub struct QuotaArgs {
    /// Ask only this vendor.
    /// Both are asked when omitted.
    pub delegate: Option<VendorArg>,
}

impl QuotaArgs {
    /// The vendors whose accounts are asked.
    pub fn vendors(&self) -> (r: Vec<Vendor>)
        ensures
            r@ == match self.delegate {
                Some(arg) => seq![vendor_named(arg)],
                None => seq![Vendor::Claude, Vendor::Codex],
            },
    {
        let mut out: Vec<Vendor> = Vec::new();
        match self.delegate {
            Some(arg) => {
                out.push(Vendor::from(arg));
            },
            None => {
                out.push(Vendor::Claude);
                out.push(Vendor::Codex);
            },
        }
        assert(out@ =~= match self.delegate {
            Some(arg) => seq![vendor_named(arg)],
            None => seq![Vendor::Claude, Vendor::Codex],
        });
        out
    }
}

/// Where the question comes from, and where the delegate reads the project.
pub struct QuestionArgs {
    /// The question.
    /// Omit it to read the question from stdin, which is what a long brief wants.
    pub question: Option<String>,
    /// Read the question from a file instead.
    pub file: Option<String>,
    /// The directory the delegate reads the project from.
    /// Defaults to the current directory.
    pub cwd: Option<String>,
    /// Extra environment for the delegate, as `KEY=VALUE` pairs.
    pub env: Vec<String>,
    /// Keep the consultation indefinitely so a follow-up can arrive at any time.
    pub keep: bool,
}

/// Where a question is read from.
#[derive(Debug, PartialEq, Eq)]
pub enum QuestionSource {
    /// It was given as an argument.
    Given(String),
    /// It is in a file.
    File(String),
    /// It comes on stdin.
    Stdin,
}

/// Where a question is read from: the argument, else the file, else stdin.
pub fn question_source(question: &Option<String>, file: &Option<String>) -> (r: QuestionSource)
    ensures
        match (*question, *file) {
            (Some(text), _) => r matches QuestionSource::Given(t) && t@ == text@,
            (None, Some(path)) => r matches QuestionSource::File(p) && p@ == path@,
            (None, None) => r == QuestionSource::Stdin,
        },
{
    match question {
        Some(text) => QuestionSource::Given(text.clone()),
        None => match file {
            Some(path) => QuestionSource::File(path.clone()),
            None => QuestionSource::Stdin,
        },
    }
}

/// A question that was read, rejected if empty.
///
/// A delegate given an empty brief burns money to say nothing.
pub fn asked(text: String) -> (r: Result<String, CliError>)
    ensures
        match r {
            Ok(question) => question@ == text@ && !is_blank(text@),
            Err(error) => is_blank(text@) && error.message@
                == "the question is empty. Pass it as an argument, with --file, or on stdin. The delegate starts with no context, so the question has to be self-contained."@,
        },
{
    if blank(text.as_str()) {
        return Err(
            CliError {
                message: "the question is empty. Pass it as an argument, with --file, or on stdin. The delegate starts with no context, so the question has to be self-contained.".to_owned(),
            },
        );
    }
    Ok(text)
}

/// Where the first `=` stands in a pair, or its length where there is none.
pub open spec fn equals_at(pair: Seq<char>) -> int
    decreases pair.len(),
{
    if pair.len() == 0 || pair[0] == '=' {
        0
    } else {
        1 + equals_at(pair.drop_first())
    }
}

/// The environment a list of `KEY=VALUE` pairs makes, or what is wrong with the first that makes
/// none.
pub open spec fn parsed_env(pairs: Seq<Seq<char>>) -> Result<Map<Seq<char>, Seq<char>>, Seq<char>>
    decreases pairs.len(),
{
    if pairs.len() == 0 {
        Ok(Map::empty())
    } else {
        match parsed_env(pairs.drop_last()) {
            Err(error) => Err(error),
            Ok(env) => {
                let pair = pairs.last();
                let at = equals_at(pair);
                if at >= pair.len() {
                    Err("--env expects KEY=VALUE, got "@ + debug_quoted(pair))
                } else if at == 0 {
                    Err("--env has an empty variable name in "@ + debug_quoted(pair))
                } else {
                    Ok(env.insert(pair.take(at), pair.skip(at + 1)))
                }
            },
        }
    }
}

proof fn lemma_equals_at(pair: Seq<char>)
    ensures
        0 <= equals_at(pair) <= pair.len(),
    decreases pair.len(),
{
    if pair.len() > 0 && pair[0] != '=' {
        lemma_equals_at(pair.drop_first());
    }
}

fn find_equals(chars: &Vec<char>) -> (r: usize)
    ensures
        r == equals_at(chars@),
        r <= chars@.len(),
{
    let mut at: usize = 0;
    assert(chars@.skip(0) =~= chars@);
    while at < chars.len() && chars[at] != '='
        invariant
            at <= chars.len(),
            equals_at(chars@) == at + equals_at(chars@.skip(at as int)),
        decreases chars.len() - at,
    {
        assert(chars@.skip(at as int).drop_first() =~= chars@.skip(at + 1));
        at = at + 1;
    }
    at
}

proof fn lemma_env_error_stays(pairs: Seq<Seq<char>>, n: int)
    requires
        0 <= n <= pairs.len(),
        parsed_env(pairs.take(n)) is Err,
    ensures
        parsed_env(pairs) == parsed_env(pairs.take(n)),
    decreases pairs.len(),
{
    if n == pairs.len() {
        assert(pairs.take(n) =~= pairs);
    } else {
        assert(pairs.drop_last().take(n) =~= pairs.take(n));
        lemma_env_error_stays(pairs.drop_last(), n);
    }
}

impl QuestionArgs {
    /// Where the question is read from.
    pub fn source(&self) -> (r: QuestionSource)
        ensures
            match (self.question, self.file) {
                (Some(text), _) => r matches QuestionSource::Given(t) && t@ == text@,
                (None, Some(path)) => r matches QuestionSource::File(p) && p@ == path@,
                (None, None) => r == QuestionSource::Stdin,
            },
    {
        question_source(&self.question, &self.file)
    }

    /// The directory the delegate reads from, given what it resolves to and whether that is there.
    ///
    /// Absolute because the consultation outlives this process: a follow-up from another directory
    /// must read the same checkout.
    pub fn working_dir(&self, resolved: String, is_dir: bool) -> (r: Result<String, CliError>)
        ensures
            match r {
                Ok(dir) => is_dir && dir@ == resolved@,
                Err(error) => !is_dir && error.message@ == "--cwd "@ + resolved@
                    + " is not a directory. Pass the path of the checkout the delegate should read."@,
            },
    {
        if !is_dir {
            let mut message = "--cwd ".to_owned();
            message.append(resolved.as_str());
            message.append(
                " is not a directory. Pass the path of the checkout the delegate should read.",
            );
            return Err(CliError { message });
        }
        Ok(resolved)
    }

    /// The extra environment, parsed from `KEY=VALUE` pairs.
    ///
    /// Split on the first `=` only, because a value may legitimately contain one.
    pub fn environment(&self) -> (r: Result<TextMap<String>, CliError>)
        ensures
            match parsed_env(crate::text::texts(self.env@)) {
                Ok(env) => r matches Ok(map) && map@ == env,
                Err(reason) => r matches Err(error) && error.message@ == reason,
            },
    {
        let ghost all = crate::text::texts(self.env@);
        let mut env: TextMap<String> = TextMap::new();
        let mut i: usize = 0;
        assert(all.take(0) =~= Seq::empty());
        while i < self.env.len()
            invariant
                i <= self.env.len(),
                all == crate::text::texts(self.env@),
                parsed_env(all.take(i as int)) == Ok::<_, Seq<char>>(env@),
            decreases self.env.len() - i,
        {
            let pair = self.env[i].as_str();
            let ghost more = all.take(i + 1);
            assert(more.drop_last() =~= all.take(i as int));
            assert(more.last() == pair@);
            let chars = chars_of(pair);
            let at: usize = find_equals(&chars);
            if at >= chars.len() {
                let mut message = "--env expects KEY=VALUE, got ".to_owned();
                message.append(quoted(pair).as_str());
                proof {
                    lemma_env_error_stays(all, i + 1);
                }
                return Err(CliError { message });
            }
            if at == 0 {
                let mut message = "--env has an empty variable name in ".to_owned();
                message.append(quoted(pair).as_str());
                proof {
                    lemma_env_error_stays(all, i + 1);
                }
                return Err(CliError { message });
            }
            let name = text_between(&chars, 0, at);
            let value = text_between(&chars, at + 1, chars.len());
            assert(name@ =~= pair@.take(at as int));
            assert(value@ =~= pair@.skip(at + 1));
            env.insert(name.as_str(), value);
            i = i + 1;
        }
        assert(all.take(i as int) =~= all);
        Ok(env)
    }

    /// How long the consultation is kept.
    pub fn retention(&self) -> (r: Retention)
        ensures
            r == if self.keep {
                Retention::UntilReleased
            } else {
                Retention::Ttl
            },
    {
        if self.keep {
            Retention::UntilReleased
        } else {
            Retention::Ttl
        }
    }
}

/// Seconds `ask` and `follow-up` wait by default.
pub const DEFAULT_WAIT: u64 = 600;

/// Bytes `tail` prints by default.
pub const DEFAULT_TAIL: usize = 64_000;

/// Bytes `result` prints by default.
pub const DEFAULT_RESULT: usize = 2_000_000;

/// Consultations `list` shows by default.
pub const DEFAULT_LIST: usize = 20;

/// Arguments for `agentmux ask`: who to consult, what to ask, and how long to wait.
pub struct AskArgs {
    /// Who to consult.
    pub delegate: DelegateArgs,
    /// What to ask.
    pub question: QuestionArgs,
    /// How long to wait for the answer, in seconds.
    /// `0` returns as soon as the child is running.
    pub wait: u64,
}

/// Arguments for `agentmux start`: who to consult and what to ask.
pub struct StartArgs {
    /// Who to consult.
    pub delegate: DelegateArgs,
    /// What to ask.
    pub question: QuestionArgs,
}

/// A consultation id parsed at the boundary, so nothing downstream can be handed a path.
#[derive(Debug)]
pub struct RunIdArg {
    id: RunId,
}

impl View for RunIdArg {
    type V = Seq<char>;

    closed spec fn view(&self) -> Seq<char> {
        self.id@
    }
}

impl RunIdArg {
    /// Parse an id as it was typed.
    pub fn parse(value: &str) -> (r: Result<Self, RunIdError>)
        ensures
            r is Ok == valid_id(value@),
            r matches Ok(arg) ==> arg@ == value@,
            r matches Err(error) ==> error.value@ == value@,
    {
        match RunId::parse(value) {
            Ok(id) => Ok(RunIdArg { id }),
            Err(error) => Err(error),
        }
    }

    /// The parsed id.
    pub fn id(&self) -> (r: &RunId)
        ensures
            r@ == self@,
    {
        &self.id
    }
}

/// A command that names one consultation.
pub struct RunArgs {
    /// The consultation id, as printed by `start` or `list`.
    pub run_id: RunIdArg,
}

/// Arguments for `agentmux tail`: which consultation to follow, and from where.
pub struct TailArgs {
    /// The consultation id.
    pub run_id: RunIdArg,
    /// Start from this byte offset.
    pub cursor: u64,
    /// Most bytes to print.
    pub max_bytes: usize,
    /// Keep printing until the consultation finishes.
    pub follow: bool,
}

/// Arguments for `agentmux result`: which consultation to collect, and which page.
pub struct ResultArgs {
    /// The consultation id.
    pub run_id: RunIdArg,
    /// Wait up to this many seconds for the consultation to finish first.
    pub wait: u64,
    /// Start from this byte offset.
    pub offset: u64,
    /// Most bytes to print.
    pub max_bytes: usize,
}

/// Arguments for `agentmux follow-up`: which consultation to continue, and with what.
///
/// Deliberately does not take `--cwd` or `--keep`.
/// A follow-up continues the delegate's own session, so the working directory and the retention
/// were both fixed when the consultation started.
pub struct FollowUpArgs {
    /// The consultation id.
    pub run_id: RunIdArg,
    /// The follow-up question.
    /// Omit it to read from stdin.
    pub question: Option<String>,
    /// Read the follow-up question from a file instead.
    pub file: Option<String>,
    /// How long to wait for the answer, in seconds.
    pub wait: u64,
}

impl FollowUpArgs {
    /// Where the follow-up question is read from.
    pub fn source(&self) -> (r: QuestionSource)
        ensures
            match (self.question, self.file) {
                (Some(text), _) => r matches QuestionSource::Given(t) && t@ == text@,
                (None, Some(path)) => r matches QuestionSource::File(p) && p@ == path@,
                (None, None) => r == QuestionSource::Stdin,
            },
    {
        question_source(&self.question, &self.file)
    }
}

/// Arguments for `agentmux list`: how many consultations to show.
pub struct ListArgs {
    /// Most consultations to list.
    pub limit: usize,
}

/// Arguments for `agentmux prune`: one consultation to delete, or none to sweep.
pub struct PruneArgs {
    /// Delete this consultation outright, whatever its retention.
    pub run_id: Option<RunIdArg>,
}

} // verus!
