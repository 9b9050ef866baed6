//! Run directories, ids, lifecycle, retention and resume state.
//!
//! # The shape on disk
//!
//! ```text
//! runs/<run_id>.lock           held while a turn is claimed, a cancellation is in progress, the
//!                              rendered transcript is replaced, or the run is removed
//! runs/<run_id>/
//!   meta.json                  delegate, question, cwd, retention, created_at
//!   transcript.md              the rendered transcript, a cache of the fold below
//!   turns/0000/
//!     question.md              what was asked; also the child's stdin
//!     invocation.json          what was run, written before the spawn
//!     events.jsonl             the delegate's raw event stream, exactly as emitted
//!     stderr.log               the delegate's stderr
//!     last-message.md          Codex's closing message, written by the CLI itself
//!     recovered.md             that message, once agentmux has rendered it in place of a reply
//!                              the stream lost
//!     launch.json              pid, start time and process group, so a later call can check on it
//!     cancelling               present once a cancellation was asked for
//!     exit.json                how the child ended and how much it had written, written once and
//!                              never rewritten
//! ```
//!
//! A turn directory counts as a turn once it holds a launch or an exit record.
//! Before that it is a claim.
//!
//! # Where truth lives
//!
//! `events.jsonl` is the state; everything else is derived.
//! Terminal state is decided in this order:
//!
//! 1. a terminal event in the stream — authoritative, because it survives everything else;
//! 2. `exit.json`, when the child was reaped, observed gone, or cancelled;
//! 3. process liveness, as a last resort.
//!
//! This module and those below it decide; reading the files, watching the processes and taking
//! the locks is left to whoever calls.

use vstd::prelude::*;
use vstd::string::*;

use crate::config::{
    account_at, default_alias, efforts_of, rewrite, rewrites_of, Config, ConfigError, ConfigModel,
    config_error_text, Platform,
};
use crate::delegate::{
    delegate_error_text, is_ascii_alphanumeric, isolation_of, program_of, token_fault,
    AccountAlias, Alphabet, Delegate, DelegateError, DelegateModel, Effort, Isolation, ModelId,
    Programs, ProgramsModel, Vendor, DELEGATE_MARKER,
};
use crate::launch::{holds_pid, launch_error_text, LaunchError, Launched, Liveness};
use crate::ordered::TextMap;
use crate::path::{
    components_of, firm, join_path, joined_path, lemma_join_components, lemma_join_lies_under,
    lemma_lies_under_transitive, lies_under, opened,
};
use crate::text::{chars_of, debug_quoted, decimal, number, quoted, text_between};
use crate::time::{now, patterned, patterned_text, Moment};

pub mod lifecycle;
pub mod paging;
pub mod settle;
pub mod status;

verus! {

/// A run id was not of the accepted shape.
#[derive(Debug, PartialEq, Eq)]
pub struct RunIdError {
    /// What was supplied.
    pub value: String,
}

/// How a refused id reads.
pub open spec fn run_id_error_text(value: Seq<char>) -> Seq<char> {
    "invalid consultation id "@ + debug_quoted(value)
        + ": ids are 1-64 characters of [0-9A-Za-z-]"@
}

impl RunIdError {
    /// The error as a caller reads it.
    pub fn message(&self) -> (r: String)
        ensures
            r@ == run_id_error_text(self.value@),
    {
        let mut out = "invalid consultation id ".to_owned();
        out.append(quoted(self.value.as_str()).as_str());
        out.append(": ids are 1-64 characters of [0-9A-Za-z-]");
        out
    }
}

/// Whether an id may hold a character.
pub open spec fn id_char(c: char) -> bool {
    is_ascii_alphanumeric(c) || c == '-'
}

/// Whether a text is an id: 1 to 64 characters of `[0-9A-Za-z-]`.
pub open spec fn valid_id(s: Seq<char>) -> bool {
    1 <= s.len() <= 64 && forall|i: int| 0 <= i < s.len() ==> id_char(#[trigger] s[i])
}

/// The identity of a consultation.
///
/// A run id arrives from a language model and is used to open a directory.
/// Parsing is the only way to build one, so path traversal through a tool argument is a state that
/// cannot be constructed.
#[derive(Debug, PartialEq, Eq)]
pub struct RunId {
    text: String,
}

impl View for RunId {
    type V = Seq<char>;

    closed spec fn view(&self) -> Seq<char> {
        self.text@
    }
}

/// The pattern of the time that a fresh id starts with.
pub const STAMP_PATTERN: &'static str = "%Y%m%dT%H%M%S";

/// Whether a text is thirty-two hexadecimal digits.
pub open spec fn digits(s: Seq<char>) -> bool {
    s.len() == 32 && forall|i: int|
        0 <= i < 32 ==> ('0' <= #[trigger] s[i] && s[i] <= '9') || ('a' <= s[i] && s[i] <= 'f')
}

/// Thirty-two random hexadecimal digits.
///
/// Calls `uuid::Uuid::new_v4` and writes the result with its `simple` formatter, which gives
/// exactly that many lower-case hexadecimal digits and nothing between them.
/// Which digits they are is chance.
#[verifier::external_body]
fn random_digits() -> (r: String)
    ensures
        digits(r@),
{
    uuid::Uuid::new_v4().simple().to_string()
}

/// The id a time stamp and a random tail make: the stamp, a dash and eight digits of the tail.
pub open spec fn minted_id(stamp: Seq<char>, tail: Seq<char>) -> Seq<char> {
    stamp + "-"@ + (if tail.len() < 8 {
        "00000000"@
    } else {
        tail.take(8)
    })
}

/// The id minted at some moment with some random digits: the time and the first of the digits, or
/// the digits alone where the time makes no id.
pub open spec fn fresh_id(at: Moment, tail: Seq<char>) -> Seq<char> {
    let id = minted_id(patterned_text(at.seconds, at.nanos, STAMP_PATTERN@), tail);
    if valid_id(id) {
        id
    } else {
        tail
    }
}

impl RunId {
    /// Longest id accepted.
    pub const MAX_LEN: usize = 64;

    #[verifier::type_invariant]
    spec fn shaped(&self) -> bool {
        valid_id(self.text@)
    }

    /// Validate an id supplied by a caller.
    ///
    /// Anything outside `[0-9A-Za-z-]{1,64}` is refused, which rejects `..`, `/`, `\`, absolute
    /// paths, NUL and every other control character by construction.
    pub fn parse(value: &str) -> (r: Result<Self, RunIdError>)
        ensures
            r is Ok == valid_id(value@),
            r matches Ok(id) ==> id@ == value@,
            r matches Err(error) ==> error.value@ == value@,
    {
        let chars = chars_of(value);
        if chars.len() == 0 || chars.len() > RunId::MAX_LEN {
            return Err(RunIdError { value: value.to_owned() });
        }
        let mut i: usize = 0;
        while i < chars.len()
            invariant
                i <= chars.len(),
                chars@ == value@,
                forall|j: int| 0 <= j < i ==> id_char(#[trigger] value@[j]),
            decreases chars.len() - i,
        {
            let c = chars[i];
            if !(('0' <= c && c <= '9') || ('A' <= c && c <= 'Z') || ('a' <= c && c <= 'z') || c
                == '-') {
                assert(!id_char(value@[i as int]));
                return Err(RunIdError { value: value.to_owned() });
            }
            i = i + 1;
        }
        Ok(RunId { text: value.to_owned() })
    }

    /// The id a time stamp and a random tail make, where they make one.
    pub fn mint(stamp: &str, tail: &str) -> (r: Result<Self, RunIdError>)
        ensures
            r is Ok == valid_id(minted_id(stamp@, tail@)),
            r matches Ok(id) ==> id@ == minted_id(stamp@, tail@),
            r matches Err(error) ==> error.value@ == minted_id(stamp@, tail@),
    {
        let chars = chars_of(tail);
        let mut text = stamp.to_owned();
        text.append("-");
        if chars.len() < 8 {
            text.append("00000000");
        } else {
            assert(chars@.subrange(0, 8) =~= tail@.take(8));
            text.append(text_between(&chars, 0, 8).as_str());
        }
        RunId::parse(text.as_str())
    }

    /// Mint a fresh id: sortable by creation time, with a random tail against collisions.
    ///
    /// A clock that shows a year of five digits gives an id without the time.
    pub fn generate() -> (r: Self)
        ensures
            valid_id(r@),
            exists|at: Moment, tail: Seq<char>|
                at.valid() && digits(tail) && r@ == #[trigger] fresh_id(at, tail),
    {
        let at = now();
        let stamp = patterned(at, STAMP_PATTERN);
        let tail = random_digits();
        assert(fresh_id(at, tail@) == fresh_id(at, tail@));
        match RunId::mint(stamp.as_str(), tail.as_str()) {
            Ok(id) => id,
            Err(_) => RunId { text: tail },
        }
    }

    /// The id as text.
    pub fn as_str(&self) -> (r: &str)
        ensures
            r@ == self@,
            valid_id(r@),
    {
        proof {
            use_type_invariant(self);
        }
        self.text.as_str()
    }
}

impl Clone for RunId {
    fn clone(&self) -> (r: Self)
        ensures
            r@ == self@,
    {
        proof {
            use_type_invariant(self);
        }
        RunId { text: self.text.clone() }
    }
}

/// Why a consultation cannot take a follow-up.
///
/// Kept apart as variants because the caller does something different about each: wait, fix the
/// delegate arguments, or start over.
#[derive(Debug, PartialEq, Eq)]
pub enum NotResumable {
    /// The newest turn has not finished, so there is nothing to continue yet.
    StillRunning {
        /// Which consultation.
        run_id: RunId,
    },
    /// The delegate never announced a session, so there is nothing to reopen.
    NoSession {
        /// Which consultation.
        run_id: RunId,
    },
    /// The consultation ended without the delegate ever saying anything.
    NothingSaid {
        /// Which consultation.
        run_id: RunId,
        /// How it ended: `completed` or `failed`.
        state: &'static str,
    },
    /// The consultation was cancelled, so the delegate was stopped part-way through a turn.
    Cancelled {
        /// Which consultation.
        run_id: RunId,
    },
}

/// What a [`NotResumable`] says.
#[verifier::ext_equal]
pub enum NotResumableModel {
    /// The newest turn has not finished.
    StillRunning {
        /// Which consultation.
        run_id: Seq<char>,
    },
    /// No session was announced.
    NoSession {
        /// Which consultation.
        run_id: Seq<char>,
    },
    /// Nothing was said.
    NothingSaid {
        /// Which consultation.
        run_id: Seq<char>,
        /// How it ended.
        state: Seq<char>,
    },
    /// It was cancelled.
    Cancelled {
        /// Which consultation.
        run_id: Seq<char>,
    },
}

impl View for NotResumable {
    type V = NotResumableModel;

    open spec fn view(&self) -> NotResumableModel {
        match self {
            NotResumable::StillRunning { run_id } => NotResumableModel::StillRunning {
                run_id: run_id@,
            },
            NotResumable::NoSession { run_id } => NotResumableModel::NoSession { run_id: run_id@ },
            NotResumable::NothingSaid { run_id, state } => NotResumableModel::NothingSaid {
                run_id: run_id@,
                state: state@,
            },
            NotResumable::Cancelled { run_id } => NotResumableModel::Cancelled { run_id: run_id@ },
        }
    }
}

/// How a refused follow-up reads.
pub open spec fn not_resumable_text(reason: NotResumableModel) -> Seq<char> {
    match reason {
        NotResumableModel::StillRunning { run_id } => "consultation "@ + run_id
            + " is still running, so it has nothing to continue yet. Wait for it with `result` and its `wait_seconds`, then ask the follow-up."@,
        NotResumableModel::NoSession { run_id } => "consultation "@ + run_id
            + " has no session to reopen: the delegate never announced one, which usually means it failed before it started. Read its transcript for why, then start a new consultation."@,
        NotResumableModel::NothingSaid { run_id, state } => "consultation "@ + run_id
            + " ended ("@ + state
            + ") without the delegate saying anything, so there is no conversation to continue. Read its transcript for why, then start a fresh consultation."@,
        NotResumableModel::Cancelled { run_id } => "consultation "@ + run_id
            + " was cancelled, so its delegate was stopped part-way through a turn. Everything collected before the cancellation is still readable with `result`, but continuing that turn would resume a delegate mid-thought. Start a new consultation."@,
    }
}

impl NotResumable {
    /// The refusal as a caller reads it.
    pub fn message(&self) -> (r: String)
        ensures
            r@ == not_resumable_text(self@),
    {
        let mut out = "consultation ".to_owned();
        match self {
            NotResumable::StillRunning { run_id } => {
                out.append(run_id.as_str());
                out.append(
                    " is still running, so it has nothing to continue yet. Wait for it with `result` and its `wait_seconds`, then ask the follow-up.",
                );
            },
            NotResumable::NoSession { run_id } => {
                out.append(run_id.as_str());
                out.append(
                    " has no session to reopen: the delegate never announced one, which usually means it failed before it started. Read its transcript for why, then start a new consultation.",
                );
            },
            NotResumable::NothingSaid { run_id, state } => {
                out.append(run_id.as_str());
                out.append(" ended (");
                out.append(state);
                out.append(
                    ") without the delegate saying anything, so there is no conversation to continue. Read its transcript for why, then start a fresh consultation.",
                );
            },
            NotResumable::Cancelled { run_id } => {
                out.append(run_id.as_str());
                out.append(
                    " was cancelled, so its delegate was stopped part-way through a turn. Everything collected before the cancellation is still readable with `result`, but continuing that turn would resume a delegate mid-thought. Start a new consultation.",
                );
            },
        }
        out
    }
}

/// Anything that can go wrong while running a consultation.
#[derive(Debug, PartialEq, Eq)]
pub enum RunError {
    /// No consultation with that id.
    NotFound(RunId),
    /// A run id was not of the accepted shape.
    BadRunId(RunIdError),
    /// A delegate argument was rejected.
    Delegate(DelegateError),
    /// The machine's account configuration could not be loaded.
    Config(ConfigError),
    /// agentmux is already running as somebody's delegate.
    ///
    /// Reachable only when a delegate inherited its account's MCP servers and agentmux is among
    /// them, which is exactly the case isolation would otherwise have prevented.
    Recursive,
    /// The operator forbade this vendor on this server.
    ///
    /// A same-vendor delegate is a subagent the calling harness already spawns natively and
    /// supervises itself, so an operator registering agentmux inside one harness denies that
    /// harness's own vendor here.
    VendorDenied {
        /// The vendor that was asked for.
        vendor: Vendor,
    },
    /// A child could not be launched.
    Launch(LaunchError),
    /// A run directory could not be read or written.
    Io {
        /// What agentmux was doing.
        context: String,
        /// The underlying failure, in the system's words.
        source: String,
    },
    /// A run's own metadata could not be parsed, so the run is unusable.
    Corrupt {
        /// Which run.
        run_id: RunId,
        /// The parse failure.
        source: String,
    },
    /// A record agentmux wrote itself cannot be parsed.
    ///
    /// Records are written whole, so this is a file that was edited by hand or damaged, and
    /// reading it as absent would make the turn it belongs to change shape.
    CorruptRecord {
        /// The file.
        path: String,
        /// The parse failure.
        source: String,
    },
    /// A follow-up was asked of a consultation that cannot take one.
    NotResumable(NotResumable),
    /// Another caller claimed this turn first.
    TurnAlreadyClaimed {
        /// Which consultation.
        run_id: RunId,
        /// The turn index that was already claimed.
        index: u32,
    },
    /// The operation needs the consultation finished, and it is not.
    StillRunning {
        /// Which consultation.
        run_id: RunId,
    },
    /// The state directory could not be located.
    NoStateDir,
}

/// How a failed operation reads.
pub open spec fn run_error_text(programs: ProgramsModel, error: RunError) -> Seq<char> {
    match error {
        RunError::NotFound(run_id) => "no consultation with id "@ + run_id@
            + "; call `list` to see recent ids"@,
        RunError::BadRunId(error) => run_id_error_text(error.value@),
        RunError::Delegate(error) => delegate_error_text(programs, error@),
        RunError::Config(error) => config_error_text(error@),
        RunError::Recursive => "this agentmux is itself running inside a delegate, so it will not launch another one. A delegate that inherits its account's settings also inherits its MCP servers; answer the question you were asked instead."@,
        RunError::VendorDenied { vendor } => "this agentmux server does not launch `"@
            + program_of(programs, vendor) + "` delegates: it was started with `--deny "@ + program_of(programs,
            vendor,
        ) + "` because the harness it serves is itself `"@ + program_of(programs, vendor)
            + "` and spawns same-vendor subagents natively. Consult the other vendor here, and use your own harness's subagents for `"@
            + program_of(programs, vendor) + "`."@,
        RunError::Launch(error) => launch_error_text(error),
        RunError::Io { context, source } => context@ + ": "@ + source@,
        RunError::Corrupt { run_id, source } => "consultation "@ + run_id@
            + " has unreadable metadata: "@ + source@,
        RunError::CorruptRecord { path, source } => "the record at "@ + path@
            + " cannot be parsed: "@ + source@,
        RunError::NotResumable(reason) => not_resumable_text(reason@),
        RunError::TurnAlreadyClaimed { run_id, index } => "consultation "@ + run_id@
            + " already has a turn "@ + decimal(index as nat)
            + ", started by another caller. Only one follow-up can be outstanding at a time; read the consultation again with `result`."@,
        RunError::StillRunning { run_id } => "consultation "@ + run_id@
            + " is still running. Wait for it with `result`, or `cancel` it first."@,
        RunError::NoStateDir => "cannot locate a state directory; set AGENTMUX_STATE_DIR"@,
    }
}

impl RunError {
    /// The error as a caller reads it.
    pub fn message(&self, programs: &Programs) -> (r: String)
        ensures
            r@ == run_error_text(programs@, *self),
    {
        match self {
            RunError::NotFound(run_id) => {
                let mut out = "no consultation with id ".to_owned();
                out.append(run_id.as_str());
                out.append("; call `list` to see recent ids");
                out
            },
            RunError::BadRunId(error) => error.message(),
            RunError::Delegate(error) => error.message(programs),
            RunError::Config(error) => error.message(),
            RunError::Recursive => {
                "this agentmux is itself running inside a delegate, so it will not launch another one. A delegate that inherits its account's settings also inherits its MCP servers; answer the question you were asked instead.".to_owned()
            },
            RunError::VendorDenied { vendor } => {
                let name = vendor.program(programs);
                let mut out = "this agentmux server does not launch `".to_owned();
                out.append(name);
                out.append("` delegates: it was started with `--deny ");
                out.append(name);
                out.append("` because the harness it serves is itself `");
                out.append(name);
                out.append(
                    "` and spawns same-vendor subagents natively. Consult the other vendor here, and use your own harness's subagents for `",
                );
                out.append(name);
                out.append("`.");
                out
            },
            RunError::Launch(error) => error.message(),
            RunError::Io { context, source } => {
                let mut out = context.clone();
                out.append(": ");
                out.append(source.as_str());
                out
            },
            RunError::Corrupt { run_id, source } => {
                let mut out = "consultation ".to_owned();
                out.append(run_id.as_str());
                out.append(" has unreadable metadata: ");
                out.append(source.as_str());
                out
            },
            RunError::CorruptRecord { path, source } => {
                let mut out = "the record at ".to_owned();
                out.append(path.as_str());
                out.append(" cannot be parsed: ");
                out.append(source.as_str());
                out
            },
            RunError::NotResumable(reason) => reason.message(),
            RunError::TurnAlreadyClaimed { run_id, index } => {
                let mut out = "consultation ".to_owned();
                out.append(run_id.as_str());
                out.append(" already has a turn ");
                out.append(number(*index as u64).as_str());
                out.append(
                    ", started by another caller. Only one follow-up can be outstanding at a time; read the consultation again with `result`.",
                );
                out
            },
            RunError::StillRunning { run_id } => {
                let mut out = "consultation ".to_owned();
                out.append(run_id.as_str());
                out.append(
                    " is still running. Wait for it with `result`, or `cancel` it first.",
                );
                out
            },
            RunError::NoStateDir => {
                "cannot locate a state directory; set AGENTMUX_STATE_DIR".to_owned()
            },
        }
    }
}

/// How long a finished consultation is kept.
#[derive(Debug, Clone, Copy, PartialEq, Eq, Structural)]
pub enum Retention {
    /// Swept once [`RunStore::TTL`] has passed since its delegate last wrote anything.
    Ttl,
    /// Never swept, so a follow-up can arrive at any time.
    ///
    /// There is no long-lived child process behind this.
    /// Both CLIs resume a finished session from their own on-disk state, so a kept consultation is
    /// a retained *record*, not a parked process.
    /// Remove these with `agentmux prune`.
    UntilReleased,
}

impl Default for Retention {
    fn default() -> (r: Self)
        ensures
            r == Retention::Ttl,
    {
        Retention::Ttl
    }
}

/// What `start` was asked for.
pub struct StartRequest {
    /// Who to consult, and on what terms.
    pub delegate: Delegate,
    /// The question, self-contained: the delegate starts with no conversation context.
    pub question: String,
    /// The directory the delegate reads the project from.
    ///
    /// Made absolute before it is recorded, because the record outlives the process that made it
    /// and a later turn must read the same directory.
    pub cwd: String,
    /// How long to keep the consultation after its delegate last wrote anything.
    pub retention: Retention,
    /// Extra environment for the delegate, applied over the machine and account layers.
    pub env: TextMap<String>,
}

/// What agentmux recorded about a consultation when it began.
pub struct Meta {
    /// The consultation's id.
    pub run_id: RunId,
    /// Who is being consulted.
    pub delegate: Delegate,
    /// The model the caller asked for, where this machine's configuration exchanged it for
    /// another.
    pub requested_model: Option<ModelId>,
    /// Where the delegate is reading from.
    pub cwd: String,
    /// How long the consultation is kept.
    pub retention: Retention,
    /// When `start` was called.
    pub created_at: Moment,
    /// Extra environment the caller asked for, reapplied on every follow-up.
    ///
    /// Recorded so a later turn runs under the same conditions as the first.
    pub env: TextMap<String>,
}

/// A configured token, where it is one.
pub open spec fn usable(value: Option<Seq<char>>, max_len: nat, alphabet: Alphabet) -> Option<
    Seq<char>,
> {
    match value {
        Some(v) if token_fault(v, max_len, alphabet) is None => Some(v),
        _ => None,
    }
}

/// The model that runs when a caller asks for one.
pub open spec fn model_run(d: DelegateModel, config: ConfigModel) -> Seq<char> {
    match usable(
        rewrite(rewrites_of(config, d.vendor), d.model),
        ModelId::MAX_LEN as nat,
        Alphabet::Model,
    ) {
        Some(model) => model,
        None => d.model,
    }
}

/// What a configuration names for a model, where it names something.
pub open spec fn configured_effort(config: ConfigModel, vendor: Vendor, model: Seq<char>) -> Option<
    Seq<char>,
> {
    if efforts_of(config, vendor).contains_key(model) {
        Some(efforts_of(config, vendor)[model])
    } else {
        None
    }
}

/// The default alias of a vendor, where the configuration defines it.
pub open spec fn defined_default(config: ConfigModel, vendor: Vendor) -> Option<Seq<char>> {
    match default_alias(config, vendor) {
        Some(alias) if account_at(config, vendor, alias) is Some => Some(alias),
        _ => None,
    }
}

/// A delegate with everything filled in that a configuration decides.
pub open spec fn pinned(d: DelegateModel, config: ConfigModel) -> DelegateModel {
    let model = model_run(d, config);
    DelegateModel {
        model,
        effort: match d.effort {
            Some(effort) => Some(effort),
            None => usable(
                configured_effort(config, d.vendor, model),
                Effort::MAX_LEN as nat,
                Alphabet::Effort,
            ),
        },
        account: match d.account {
            Some(alias) => Some(alias),
            None => usable(
                defined_default(config, d.vendor),
                AccountAlias::MAX_LEN as nat,
                Alphabet::Alias,
            ),
        },
        isolation: Some(isolation_of(d, config)),
        ..d
    }
}

/// The characters of a model that may be absent.
pub open spec fn model_of(model: Option<ModelId>) -> Option<Seq<char>> {
    match model {
        Some(m) => Some(m@),
        None => None,
    }
}

/// Fill in whatever the configuration decides, so the record names what actually runs.
///
/// The model, the effort, the account and the isolation are resolved once, here, rather than at
/// each launch.
/// A configuration edited mid-consultation would otherwise move a follow-up onto another
/// identity — whose session it could not resume — or silently change whether the delegate loads
/// hooks, in the middle of one transcript.
///
/// Isolation is resolved before the account is pinned, because the answer depends on which file
/// chose the account, and a pinned alias no longer says.
/// A default alias the configuration does not define is left unpinned, so the launch that follows
/// reports it with the file that selected it.
/// Beside the delegate stands the model that was asked for, where another runs.
pub fn pin_defaults(delegate: &Delegate, config: &Config) -> (r: (Delegate, Option<ModelId>))
    ensures
        r.0@ == pinned(delegate@, config@),
        model_of(r.1) == if model_run(delegate@, config@) == delegate@.model {
            None
        } else {
            Some(delegate@.model)
        },
{
    let vendor = delegate.vendor();
    let isolation = delegate.resolved_isolation(config);
    let mut result = delegate.clone();
    let mut requested: Option<ModelId> = None;
    if let Some(target) = config.rewritten_model(vendor, delegate.model().as_str()) {
        if let Ok(model) = ModelId::parse(target) {
            result = result.with_model(model);
            requested = Some(delegate.model().clone());
        }
    }
    assert(result@ == (DelegateModel { model: model_run(delegate@, config@), ..delegate@ }));
    if result.effort().is_none() {
        if let Some(named) = config.default_effort(vendor, result.model().as_str()) {
            if let Ok(effort) = Effort::parse(named) {
                result = result.with_effort(effort);
            }
        }
    }
    if result.account().is_none() {
        if let Some(default) = config.default_account(vendor) {
            if config.account(vendor, default.alias).is_some() {
                if let Ok(alias) = AccountAlias::parse(default.alias) {
                    result = result.with_account(alias);
                }
            }
        }
    }
    (result.with_isolation(isolation), requested)
}

/// A pinned delegate stays as it is: where the rewrite rules do not chain, pinning it again under
/// the same configuration changes nothing, so a record read back runs as it was written.
pub proof fn a_pinned_delegate_stays(d: DelegateModel, config: ConfigModel)
    requires
        rewrite(rewrites_of(config, d.vendor), pinned(d, config).model) is None,
    ensures
        pinned(pinned(d, config), config) == pinned(d, config),
{
}

/// What it means that a hook reopened a finished turn.
#[derive(Debug, Clone, Copy, PartialEq, Eq, Structural)]
pub enum HookReopening {
    /// The run inherited the account's settings, so a hook is a documented consequence of what
    /// the caller asked for.
    Expected,
    /// The run loaded no settings, so no hook should have been able to reach it, and the whole
    /// transcript is suspect.
    Unexpected,
}

impl HookReopening {
    /// What a reopening means for a run with this isolation, when one happened.
    ///
    /// A run that predates isolation being recorded gets the alarming reading, because that is
    /// the safe one.
    pub fn of(reopened: bool, isolation: Option<Isolation>) -> (r: Option<Self>)
        ensures
            r == if !reopened {
                None
            } else if isolation == Some(Isolation::Inherit) {
                Some(HookReopening::Expected)
            } else {
                Some(HookReopening::Unexpected)
            },
    {
        if !reopened {
            return None;
        }
        match isolation {
            Some(Isolation::Inherit) => Some(HookReopening::Expected),
            Some(Isolation::Isolated) => Some(HookReopening::Unexpected),
            None => Some(HookReopening::Unexpected),
        }
    }
}

/// The run store: one directory per consultation under a state directory.
pub struct RunStore {
    platform: Platform,
    root: String,
    host_env: TextMap<String>,
    deny_claude: bool,
    deny_codex: bool,
}

/// What a [`RunStore`] is set up with.
#[verifier::ext_equal]
pub struct StoreModel {
    /// Whose rules its paths follow.
    pub platform: Platform,
    /// Where run directories live.
    pub root: Seq<char>,
    /// The environment configuration is resolved against.
    pub host_env: Map<Seq<char>, Seq<char>>,
    /// The vendors it does not launch.
    pub denied: Set<Vendor>,
}

impl View for RunStore {
    type V = StoreModel;

    closed spec fn view(&self) -> StoreModel {
        StoreModel {
            platform: self.platform,
            root: self.root@,
            host_env: self.host_env@,
            denied: Set::new(
                |v: Vendor|
                    match v {
                        Vendor::Claude => self.deny_claude,
                        Vendor::Codex => self.deny_codex,
                    },
            ),
        }
    }
}

/// The vendors of a set, in the order of [`Vendor::ALL`].
pub open spec fn vendors_in(denied: Set<Vendor>) -> Seq<Vendor> {
    (if denied.contains(Vendor::Claude) {
        seq![Vendor::Claude]
    } else {
        Seq::empty()
    }) + (if denied.contains(Vendor::Codex) {
        seq![Vendor::Codex]
    } else {
        Seq::empty()
    })
}

/// What is known of one recorded child.
#[derive(Debug, Clone, Copy, PartialEq, Eq, Structural)]
pub struct ChildRecord {
    /// The child as it was launched.
    pub launched: Launched,
    /// Whether its turn has an exit record.
    pub settled: bool,
    /// Whether its exit status could be collected.
    pub reaped: bool,
    /// Whether it is still there.
    pub liveness: Liveness,
}

/// Whether a recorded child is an ancestor and still running.
///
/// A pid alone is not a witness, because pids are recycled.
/// The record has to name the process's start time, be of a turn nobody has settled, and describe
/// a process that is still the one recorded.
pub open spec fn is_live_ancestor(child: ChildRecord, ancestors: Seq<u32>) -> bool {
    !child.settled && child.launched.started is Some && ancestors.contains(child.launched.pid)
        && child.liveness == Liveness::Alive
}

/// Whether some of these children is an ancestor and still running.
pub open spec fn one_is_live(children: Seq<ChildRecord>, ancestors: Seq<u32>) -> bool {
    exists|i: int| 0 <= i < children.len() && is_live_ancestor(#[trigger] children[i], ancestors)
}

/// Whether an environment carries the mark of a delegate.
///
/// Exported-but-empty means unset.
pub open spec fn is_marked(host: Map<Seq<char>, Seq<char>>) -> bool {
    host.contains_key(DELEGATE_MARKER@) && host[DELEGATE_MARKER@].len() > 0
}

/// What a look at each run in turn says: the first that holds a live ancestor settles it, and so
/// does the first that cannot be read.
pub open spec fn first_witness(
    looked: Seq<Result<Vec<ChildRecord>, RunError>>,
    ancestors: Seq<u32>,
) -> Result<bool, RunError>
    decreases looked.len(),
{
    if looked.len() == 0 {
        Ok(false)
    } else {
        match looked[0] {
            Err(error) => Err(error),
            Ok(children) => if one_is_live(children@, ancestors) {
                Ok(true)
            } else {
                first_witness(looked.drop_first(), ancestors)
            },
        }
    }
}

/// Whether this process was started by a delegate, or why that cannot be told.
///
/// A known answer stands; a mark in the environment needs no look at the store; and a process
/// without ancestors has none that is a delegate.
pub open spec fn inside_a_delegate(
    host: Map<Seq<char>, Seq<char>>,
    known: Option<bool>,
    ancestors: Seq<u32>,
    looked: Seq<Result<Vec<ChildRecord>, RunError>>,
) -> Result<bool, RunError> {
    match known {
        Some(answer) => Ok(answer),
        None => if is_marked(host) {
            Ok(true)
        } else if ancestors.len() == 0 {
            Ok(false)
        } else {
            first_witness(looked, ancestors)
        },
    }
}

/// A number written with at least four digits.
pub open spec fn four_digits(n: nat) -> Seq<char> {
    let plain = decimal(n);
    if plain.len() == 1 {
        "000"@ + plain
    } else if plain.len() == 2 {
        "00"@ + plain
    } else if plain.len() == 3 {
        "0"@ + plain
    } else {
        plain
    }
}

fn padded(n: u32) -> (r: String)
    ensures
        r@ == four_digits(n as nat),
{
    let plain = number(n as u64);
    let digits: usize = chars_of(plain.as_str()).len();
    let mut out = String::new();
    if digits == 1 {
        out.append("000");
    } else if digits == 2 {
        out.append("00");
    } else if digits == 3 {
        out.append("0");
    }
    out.append(plain.as_str());
    assert(out@ =~= four_digits(n as nat));
    out
}

/// Where run directories live below a root.
pub open spec fn runs_path(platform: Platform, root: Seq<char>) -> Seq<char> {
    joined_path(platform, root, "runs"@)
}

/// Where one run lives.
pub open spec fn run_path(platform: Platform, root: Seq<char>, run_id: Seq<char>) -> Seq<char> {
    joined_path(platform, runs_path(platform, root), run_id)
}

/// Where one turn of a run lives.
pub open spec fn turn_path(
    platform: Platform,
    root: Seq<char>,
    run_id: Seq<char>,
    index: u32,
) -> Seq<char> {
    joined_path(
        platform,
        joined_path(platform, run_path(platform, root, run_id), "turns"@),
        four_digits(index as nat),
    )
}

/// Where one turn's files live.
pub struct TurnDir {
    /// The turn's directory.
    pub root: String,
    /// Whose paths these are.
    pub platform: Platform,
}

impl TurnDir {
    /// What was asked; also the child's stdin.
    pub fn question(&self) -> (r: String)
        ensures
            r@ == joined_path(self.platform, self.root@, "question.md"@),
    {
        join_path(self.platform, self.root.as_str(), "question.md")
    }

    /// The delegate's raw event stream.
    pub fn events(&self) -> (r: String)
        ensures
            r@ == joined_path(self.platform, self.root@, "events.jsonl"@),
    {
        join_path(self.platform, self.root.as_str(), "events.jsonl")
    }

    /// The delegate's stderr.
    pub fn stderr(&self) -> (r: String)
        ensures
            r@ == joined_path(self.platform, self.root@, "stderr.log"@),
    {
        join_path(self.platform, self.root.as_str(), "stderr.log")
    }

    /// Codex's closing message, written by the CLI itself.
    pub fn last_message(&self) -> (r: String)
        ensures
            r@ == joined_path(self.platform, self.root@, "last-message.md"@),
    {
        join_path(self.platform, self.root.as_str(), "last-message.md")
    }

    /// The reply recovered from the CLI's own output file, kept once it has been rendered.
    pub fn recovered(&self) -> (r: String)
        ensures
            r@ == joined_path(self.platform, self.root@, "recovered.md"@),
    {
        join_path(self.platform, self.root.as_str(), "recovered.md")
    }

    /// Pid, start time and process group.
    pub fn launch(&self) -> (r: String)
        ensures
            r@ == joined_path(self.platform, self.root@, "launch.json"@),
    {
        join_path(self.platform, self.root.as_str(), "launch.json")
    }

    /// What was run, written before the spawn.
    pub fn invocation(&self) -> (r: String)
        ensures
            r@ == joined_path(self.platform, self.root@, "invocation.json"@),
    {
        join_path(self.platform, self.root.as_str(), "invocation.json")
    }

    /// Where the usage window recovered from a vendor's own session record is kept.
    ///
    /// Cached because finding it means searching the vendor's session tree, and a fold runs on
    /// every `status` and every page of a `tail`.
    pub fn rate_limit(&self) -> (r: String)
        ensures
            r@ == joined_path(self.platform, self.root@, "rate-limit.json"@),
    {
        join_path(self.platform, self.root.as_str(), "rate-limit.json")
    }

    /// How the child ended and how much it had written.
    pub fn exit(&self) -> (r: String)
        ensures
            r@ == joined_path(self.platform, self.root@, "exit.json"@),
    {
        join_path(self.platform, self.root.as_str(), "exit.json")
    }

    /// Present from the moment a cancellation was asked for.
    ///
    /// Whoever then observes the child gone records the departure as a cancellation rather than
    /// as a death, so two observers cannot disagree.
    pub fn cancelling(&self) -> (r: String)
        ensures
            r@ == joined_path(self.platform, self.root@, "cancelling"@),
    {
        join_path(self.platform, self.root.as_str(), "cancelling")
    }
}

impl RunStore {
    /// Seconds a `ttl` consultation survives after its delegate last wrote anything: a day.
    pub const TTL: u64 = 86_400;

    /// Environment variable that overrides where run directories live.
    pub const STATE_DIR_ENV: &'static str = "AGENTMUX_STATE_DIR";

    /// A store rooted at `root`.
    ///
    /// Every vendor is reachable until an operator says otherwise: a terminal denies none.
    pub fn open(platform: Platform, root: &str, host_env: TextMap<String>) -> (r: Self)
        ensures
            r@ == (StoreModel {
                platform,
                root: root@,
                host_env: host_env@,
                denied: Set::empty(),
            }),
    {
        let r = RunStore {
            platform,
            root: root.to_owned(),
            host_env,
            deny_claude: false,
            deny_codex: false,
        };
        assert(r@.denied =~= Set::empty());
        r
    }

    /// The environment this store resolves configuration and delegates against.
    ///
    /// Exposed so that a caller building something environment-dependent, such as the MCP
    /// server's instructions, resolves against the same snapshot a consultation will.
    pub fn host_env(&self) -> (r: &TextMap<String>)
        ensures
            r@ == self@.host_env,
    {
        &self.host_env
    }

    /// Refuse to launch delegates of these vendors, whatever a caller asks for.
    ///
    /// Set by argument and never by environment, like isolation, so what a server offers is fixed
    /// by its registration rather than by whatever environment the host started it in.
    pub fn with_denied_vendors(self, denied: &Vec<Vendor>) -> (r: Self)
        ensures
            r@ == (StoreModel { denied: denied@.to_set(), ..self@ }),
    {
        let mut claude = false;
        let mut codex = false;
        let mut i: usize = 0;
        while i < denied.len()
            invariant
                i <= denied.len(),
                claude == denied@.take(i as int).contains(Vendor::Claude),
                codex == denied@.take(i as int).contains(Vendor::Codex),
            decreases denied.len() - i,
        {
            let ghost some = denied@.take(i as int);
            let ghost more = denied@.take(i + 1);
            assert(more =~= some.push(denied@[i as int]));
            proof {
                assert forall|v: Vendor| more.contains(v) == (some.contains(v) || denied@[i as int]
                    == v) by {
                    if some.contains(v) {
                        let j = choose|j: int| 0 <= j < some.len() && some[j] == v;
                        assert(more[j] == v);
                    }
                    assert(more[i as int] == denied@[i as int]);
                }
            }
            match denied[i] {
                Vendor::Claude => {
                    claude = true;
                },
                Vendor::Codex => {
                    codex = true;
                },
            }
            i = i + 1;
        }
        assert(denied@.take(i as int) =~= denied@);
        let r = RunStore {
            platform: self.platform,
            root: self.root,
            host_env: self.host_env,
            deny_claude: claude,
            deny_codex: codex,
        };
        assert(r@.denied =~= denied@.to_set());
        r
    }

    /// The vendors this store will not launch.
    ///
    /// Exposed so that a front end can leave a denied vendor out of what it offers, rather than
    /// advertising a choice every call would refuse.
    pub fn denied_vendors(&self) -> (r: Vec<Vendor>)
        ensures
            r@ == vendors_in(self@.denied),
    {
        let mut out: Vec<Vendor> = Vec::new();
        if self.deny_claude {
            out.push(Vendor::Claude);
        }
        if self.deny_codex {
            out.push(Vendor::Codex);
        }
        assert(out@ =~= vendors_in(self@.denied));
        out
    }

    /// Whether this store refuses a vendor.
    pub fn denies(&self, vendor: Vendor) -> (r: bool)
        ensures
            r == self@.denied.contains(vendor),
    {
        match vendor {
            Vendor::Claude => self.deny_claude,
            Vendor::Codex => self.deny_codex,
        }
    }

    /// The state directory an environment names: what `$AGENTMUX_STATE_DIR` says, where it says
    /// anything.
    ///
    /// `platform` is the directory the platform has for it, where there is one.
    pub fn default_root(host_env: &TextMap<String>, platform: Option<&str>) -> (r: Result<
        String,
        RunError,
    >)
        ensures
            match r {
                Ok(root) => {
                    let named = host_env@.contains_key(RunStore::STATE_DIR_ENV@)
                        && host_env@[RunStore::STATE_DIR_ENV@].len() > 0;
                    &&& named || platform is Some
                    &&& root@ == if named {
                        host_env@[RunStore::STATE_DIR_ENV@]
                    } else {
                        platform->Some_0@
                    }
                },
                Err(error) => {
                    &&& error == RunError::NoStateDir
                    &&& platform is None
                    &&& !host_env@.contains_key(RunStore::STATE_DIR_ENV@)
                        || host_env@[RunStore::STATE_DIR_ENV@].len() == 0
                },
            },
    {
        if let Some(explicit) = host_env.get(RunStore::STATE_DIR_ENV) {
            if !explicit.as_str().is_empty() {
                return Ok(explicit.clone());
            }
        }
        match platform {
            Some(dir) => Ok(dir.to_owned()),
            None => Err(RunError::NoStateDir),
        }
    }

    /// Whose rules this store's paths follow.
    pub fn platform(&self) -> (r: Platform)
        ensures
            r == self@.platform,
    {
        self.platform
    }

    /// Where run directories live.
    pub fn root(&self) -> (r: &str)
        ensures
            r@ == self@.root,
    {
        self.root.as_str()
    }

    /// The directory holding every run.
    pub fn runs_dir(&self) -> (r: String)
        ensures
            r@ == runs_path(self@.platform, self@.root),
    {
        join_path(self.platform, self.root.as_str(), "runs")
    }

    /// The directory of one run.
    pub fn run_dir(&self, run_id: &RunId) -> (r: String)
        ensures
            r@ == run_path(self@.platform, self@.root, run_id@),
    {
        join_path(self.platform, self.runs_dir().as_str(), run_id.as_str())
    }

    /// The lock file of one run.
    ///
    /// It sits beside the run directory rather than inside it, so removing the run removes nothing
    /// another process may be holding.
    pub fn lock_path(&self, run_id: &RunId) -> (r: String)
        ensures
            r@ == joined_path(
                self@.platform,
                runs_path(self@.platform, self@.root),
                run_id@ + ".lock"@,
            ),
    {
        let mut name = run_id.as_str().to_owned();
        name.append(".lock");
        join_path(self.platform, self.runs_dir().as_str(), name.as_str())
    }

    /// The directory of one turn.
    pub fn turn_dir(&self, run_id: &RunId, index: u32) -> (r: TurnDir)
        ensures
            r.platform == self@.platform,
            r.root@ == turn_path(self@.platform, self@.root, run_id@, index),
    {
        let turns = join_path(self.platform, self.run_dir(run_id).as_str(), "turns");
        TurnDir {
            root: join_path(self.platform, turns.as_str(), padded(index).as_str()),
            platform: self.platform,
        }
    }

    /// The record of what a run was started with.
    pub fn meta_path(&self, run_id: &RunId) -> (r: String)
        ensures
            r@ == joined_path(
                self@.platform,
                run_path(self@.platform, self@.root, run_id@),
                "meta.json"@,
            ),
    {
        join_path(self.platform, self.run_dir(run_id).as_str(), "meta.json")
    }

    /// The other accounts' figures, kept beside a run that was rate limited.
    pub fn quota_path(&self, run_id: &RunId) -> (r: String)
        ensures
            r@ == joined_path(
                self@.platform,
                run_path(self@.platform, self@.root, run_id@),
                "quota.json"@,
            ),
    {
        join_path(self.platform, self.run_dir(run_id).as_str(), "quota.json")
    }

    /// The rendered transcript of a run.
    pub fn transcript_path(&self, run_id: &RunId) -> (r: String)
        ensures
            r@ == joined_path(
                self@.platform,
                run_path(self@.platform, self@.root, run_id@),
                "transcript.md"@,
            ),
    {
        join_path(self.platform, self.run_dir(run_id).as_str(), "transcript.md")
    }

    /// Whether this process was started by a delegate agentmux launched.
    ///
    /// Two witnesses, because neither reaches everywhere.
    /// The environment marker every delegate carries is passed on by Anthropic's harness and by
    /// both CLIs' shells, but Codex starts its MCP servers with an environment of its own choosing
    /// that does not include it.
    /// The process tree is the other witness: if any ancestor of this process is a delegate this
    /// store launched and that delegate is still running, this process is inside it.
    ///
    /// Exported-but-empty means unset, as it does for every other agentmux variable: a shell
    /// profile that exports it unconditionally must not refuse every launch.
    ///
    /// `known` is the answer an earlier call gave, `ancestors` are the processes above this one,
    /// and `looked` is what reading the children of each run in turn gave.
    /// A record that cannot be read is a failure rather than a no, unless a live ancestor was found
    /// before it.
    pub fn running_inside_a_delegate(
        &self,
        known: Option<bool>,
        ancestors: &Vec<u32>,
        looked: Vec<Result<Vec<ChildRecord>, RunError>>,
    ) -> (r: Result<bool, RunError>)
        ensures
            r == inside_a_delegate(self@.host_env, known, ancestors@, looked@),
    {
        if let Some(answer) = known {
            return Ok(answer);
        }
        if self.marked_by_a_delegate() {
            return Ok(true);
        }
        if ancestors.len() == 0 {
            return Ok(false);
        }
        let mut rest = looked;
        while rest.len() > 0
            invariant
                known is None,
                !is_marked(self@.host_env),
                ancestors.len() > 0,
                first_witness(rest@, ancestors@) == first_witness(looked@, ancestors@),
            decreases rest.len(),
        {
            let ghost before = rest@;
            let first = rest.remove(0);
            assert(rest@ =~= before.drop_first());
            match first {
                Err(error) => return Err(error),
                Ok(children) => {
                    if holds_live_ancestor(&children, ancestors) {
                        return Ok(true);
                    }
                },
            }
        }
        Ok(false)
    }

    /// Whether this store's environment carries the mark of a delegate.
    ///
    /// It settles the question alone, so a store that cannot be read does not matter then.
    pub fn marked_by_a_delegate(&self) -> (r: bool)
        ensures
            r == is_marked(self@.host_env),
    {
        match self.host_env.get(DELEGATE_MARKER) {
            Some(value) => !value.as_str().is_empty(),
            None => false,
        }
    }

    /// Refuse a launch for the reasons that belong to this process rather than to any run.
    ///
    /// Both are settled before anything is written: agentmux inside a delegate spawns nothing,
    /// and a narrowed store spawns nothing of a denied vendor.
    pub fn refuse_to_spawn(&self, vendor: Vendor, inside: bool) -> (r: Result<(), RunError>)
        ensures
            r is Ok == (!inside && !self@.denied.contains(vendor)),
            inside ==> r == Err::<(), _>(RunError::Recursive),
            !inside && self@.denied.contains(vendor) ==> r == Err::<(), _>(
                RunError::VendorDenied { vendor },
            ),
    {
        if inside {
            return Err(RunError::Recursive);
        }
        if self.denies(vendor) {
            return Err(RunError::VendorDenied { vendor });
        }
        Ok(())
    }

    /// Refuse to serve the tools from inside a delegate.
    ///
    /// A delegate that inherits its account's settings loads its MCP servers too, and agentmux may
    /// be among them.
    pub fn refuse_to_serve(inside: bool) -> (r: Result<(), RunError>)
        ensures
            r == if inside {
                Err::<(), _>(RunError::Recursive)
            } else {
                Ok(())
            },
    {
        if inside {
            Err(RunError::Recursive)
        } else {
            Ok(())
        }
    }
}

fn holds_live_ancestor(children: &Vec<ChildRecord>, ancestors: &Vec<u32>) -> (r: bool)
    ensures
        r == one_is_live(children@, ancestors@),
{
    let mut i: usize = 0;
    while i < children.len()
        invariant
            i <= children.len(),
            forall|j: int| 0 <= j < i ==> !is_live_ancestor(#[trigger] children@[j], ancestors@),
        decreases children.len() - i,
    {
        let child = children[i];
        if !child.settled && child.launched.started.is_some() && holds_pid(
            ancestors,
            child.launched.pid,
        ) && child.liveness == Liveness::Alive {
            assert(is_live_ancestor(children@[i as int], ancestors@));
            return true;
        }
        i = i + 1;
    }
    false
}

/// Whether reading a run succeeded and showed no live ancestor.
pub open spec fn shows_none(
    look: Result<Vec<ChildRecord>, RunError>,
    ancestors: Seq<u32>,
) -> bool {
    look matches Ok(children) && !one_is_live(children@, ancestors)
}

/// A mark settles it, an answer once given is given again, and a process without ancestors is inside
/// no delegate, whatever the store says.
pub proof fn the_mark_and_the_answer_stand(
    host: Map<Seq<char>, Seq<char>>,
    answer: bool,
    ancestors: Seq<u32>,
    looked: Seq<Result<Vec<ChildRecord>, RunError>>,
)
    ensures
        inside_a_delegate(host, Some(answer), ancestors, looked) == Ok::<_, RunError>(answer),
        is_marked(host) ==> inside_a_delegate(host, None, ancestors, looked) == Ok::<_, RunError>(
            true,
        ),
        !is_marked(host) && ancestors.len() == 0 ==> inside_a_delegate(host, None, ancestors, looked)
            == Ok::<_, RunError>(false),
{
}

/// Whether the run at a place shows a live ancestor, and every run before it was read and shows none.
pub open spec fn first_live_at(
    looked: Seq<Result<Vec<ChildRecord>, RunError>>,
    ancestors: Seq<u32>,
    n: int,
) -> bool {
    &&& 0 <= n < looked.len()
    &&& forall|i: int| 0 <= i < n ==> shows_none(#[trigger] looked[i], ancestors)
    &&& looked[n] matches Ok(children) && one_is_live(children@, ancestors)
}

/// Whether the run at a place cannot be read, and every run before it was read and shows no live
/// ancestor.
pub open spec fn first_unreadable_at(
    looked: Seq<Result<Vec<ChildRecord>, RunError>>,
    ancestors: Seq<u32>,
    n: int,
    error: RunError,
) -> bool {
    &&& 0 <= n < looked.len()
    &&& forall|i: int| 0 <= i < n ==> shows_none(#[trigger] looked[i], ancestors)
    &&& looked[n] == Err::<Vec<ChildRecord>, _>(error)
}

/// Without a mark it is the process tree that tells: yes if and only if a run shows a live ancestor
/// before any that cannot be read, a failure if and only if one cannot be read before any shows a
/// live ancestor, and no if and only if every run was read and shows none.
pub proof fn the_process_tree_tells(
    host: Map<Seq<char>, Seq<char>>,
    ancestors: Seq<u32>,
    looked: Seq<Result<Vec<ChildRecord>, RunError>>,
    error: RunError,
)
    requires
        !is_marked(host),
        ancestors.len() > 0,
    ensures
        inside_a_delegate(host, None, ancestors, looked) == Ok::<_, RunError>(true)
            <==> exists|n: int| #[trigger] first_live_at(looked, ancestors, n),
        inside_a_delegate(host, None, ancestors, looked) == Err::<bool, _>(error)
            <==> exists|n: int| #[trigger] first_unreadable_at(looked, ancestors, n, error),
        inside_a_delegate(host, None, ancestors, looked) == Ok::<_, RunError>(false)
            <==> forall|i: int|
            0 <= i < looked.len() ==> shows_none(#[trigger] looked[i], ancestors),
{
    let n = lemma_first_witness(looked, ancestors);
    if n < looked.len() {
        assert(!shows_none(looked[n], ancestors));
        assert forall|m: int| first_live_at(looked, ancestors, m) implies m == n by {
            if n < m {
                assert(shows_none(looked[n], ancestors));
            } else if m < n {
                assert(shows_none(looked[m], ancestors));
            }
        }
        assert forall|m: int| first_unreadable_at(looked, ancestors, m, error) implies m == n by {
            if n < m {
                assert(shows_none(looked[n], ancestors));
            } else if m < n {
                assert(shows_none(looked[m], ancestors));
            }
        }
        match looked[n] {
            Ok(_) => {
                assert(first_live_at(looked, ancestors, n));
            },
            Err(e) => {
                assert(e == error ==> first_unreadable_at(looked, ancestors, n, error));
            },
        }
    } else {
        assert forall|m: int| 0 <= m < looked.len() implies !first_live_at(looked, ancestors, m)
            && !first_unreadable_at(looked, ancestors, m, error) by {
            assert(shows_none(looked[m], ancestors));
        }
    }
}

proof fn lemma_first_witness(
    looked: Seq<Result<Vec<ChildRecord>, RunError>>,
    ancestors: Seq<u32>,
) -> (n: int)
    ensures
        0 <= n <= looked.len(),
        forall|i: int| 0 <= i < n ==> shows_none(#[trigger] looked[i], ancestors),
        n < looked.len() ==> !shows_none(looked[n], ancestors),
        first_witness(looked, ancestors) == (if n == looked.len() {
            Ok::<_, RunError>(false)
        } else {
            match looked[n] {
                Ok(_) => Ok(true),
                Err(error) => Err(error),
            }
        }),
    decreases looked.len(),
{
    if looked.len() == 0 || !shows_none(looked[0], ancestors) {
        0
    } else {
        let rest = looked.drop_first();
        let m = lemma_first_witness(rest, ancestors);
        assert forall|i: int| 0 <= i < m + 1 implies shows_none(#[trigger] looked[i], ancestors) by {
            if i > 0 {
                assert(shows_none(rest[i - 1], ancestors));
            }
        }
        assert(m < rest.len() ==> looked[m + 1] == rest[m]);
        m + 1
    }
}

/// A run stays inside its store: whatever id a caller supplies, the directory it opens is one
/// step below the directory of all runs, and that step is the id.
pub proof fn a_run_stays_in_its_store(platform: Platform, root: Seq<char>, run_id: Seq<char>)
    requires
        firm(platform, root),
        valid_id(run_id),
    ensures
        components_of(platform, run_path(platform, root, run_id)) == opened(platform, root).push(
            "runs"@,
        ).push(run_id),
        lies_under(platform, run_path(platform, root, run_id), root),
{
    reveal_strlit("runs");
    reveal_strlit(".");
    reveal_strlit("..");
    assert("runs"@.len() == 4);
    assert(id_char(run_id[0]));
    assert forall|i: int| 0 <= i < run_id.len() implies #[trigger] run_id[i] != '/' && run_id[i]
        != '\\' && run_id[i] != ':' by {
        assert(id_char(run_id[i]));
    }
    assert(run_id != "."@ && run_id != ".."@);
    lemma_join_components(platform, root, "runs"@);
    lemma_join_lies_under(platform, root, "runs"@);
    lemma_join_components(platform, runs_path(platform, root), run_id);
    lemma_join_lies_under(platform, runs_path(platform, root), run_id);
    lemma_lies_under_transitive(
        platform,
        run_path(platform, root, run_id),
        runs_path(platform, root),
        root,
    );
}

} // verus!
