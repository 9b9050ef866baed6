//! The closed set of delegates, and the exact argument vector and environment each one needs.
//!
//! A caller does not compose a command line; it fills in a [`Delegate`] and the argument vector
//! follows as a total function over the enum.
//! There is no path through [`Delegate::invocation`] that omits the streaming flags, the hook
//! suppression, or the empty MCP config, because none of them is conditional.
//!
//! # Model identifiers are opaque
//!
//! agentmux keeps no roster of models or reasoning efforts.
//! Both are pass-through strings, validated only for argv safety, so a new model identifier never
//! requires an agentmux release.
//!
//! One identifier may still be exchanged for another before it is launched, when the machine's
//! configuration says so — see [`crate::config::Config::rewritten_model`].
//! The same file may name a reasoning effort for a model, used only when the caller named none —
//! see [`crate::config::Config::default_effort`] — and when neither did, no effort is passed and
//! the CLI's own default runs.

use vstd::prelude::*;
use vstd::string::*;

use crate::config::{
    account_at, accounts_of, canonical_env_name, canonical_list, canonical_name, check_env_name,
    chosen_by_checkout, default_alias, env_name_fault, expand_tilde, first_error, forward,
    forwarded, home_dir, home_of, keys_of, layered, lemma_first_error, lemma_no_error, no_account,
    push_all, secret_of, Account, AccountModel, ChosenBy, Config, ConfigModel, Platform, Secret,
};
use crate::path::expanded;
use crate::ordered::{in_order, lemma_entry, map_of, walkable, TextMap};
use crate::text::{
    chars_of, debug_quoted, holds_char, join, joined, lemma_texts_push, list_holds, listed,
    lowercase, quoted, same, str_of, text_between, text_of, texts, to_lowercase,
};

verus! {

/// Which characters a token may hold besides the ASCII letters and digits.
#[derive(Debug, Clone, Copy, PartialEq, Eq, Structural)]
pub enum Alphabet {
    /// A model identifier: `.`, `_`, `:`, `/`, `@`, `[`, `]` and `-`.
    Model,
    /// A reasoning effort: `_` and `-`.
    Effort,
    /// An account alias: `-`, `_` and `.`.
    Alias,
    /// A session identifier: `_`, `-` and `.`.
    Session,
}

/// Whether a character is an ASCII letter or digit.
pub open spec fn is_ascii_alphanumeric(c: char) -> bool {
    ('0' <= c && c <= '9') || ('A' <= c && c <= 'Z') || ('a' <= c && c <= 'z')
}

/// Whether a token of an alphabet may hold a character.
pub open spec fn allows(alphabet: Alphabet, c: char) -> bool {
    is_ascii_alphanumeric(c) || match alphabet {
        Alphabet::Model => c == '.' || c == '_' || c == ':' || c == '/' || c == '@' || c == '['
            || c == ']' || c == '-',
        Alphabet::Effort => c == '_' || c == '-',
        Alphabet::Alias => c == '-' || c == '_' || c == '.',
        Alphabet::Session => c == '_' || c == '-' || c == '.',
    }
}

fn allowed(alphabet: Alphabet, c: char) -> (r: bool)
    ensures
        r == allows(alphabet, c),
{
    ('0' <= c && c <= '9') || ('A' <= c && c <= 'Z') || ('a' <= c && c <= 'z') || match alphabet {
        Alphabet::Model => c == '.' || c == '_' || c == ':' || c == '/' || c == '@' || c == '['
            || c == ']' || c == '-',
        Alphabet::Effort => c == '_' || c == '-',
        Alphabet::Alias => c == '-' || c == '_' || c == '.',
        Alphabet::Session => c == '_' || c == '-' || c == '.',
    }
}

/// Why a value is not a token of an alphabet, or nothing where it is one.
///
/// A leading dash would land the value in flag position in the child's argv.
pub open spec fn token_fault(value: Seq<char>, max_len: nat, alphabet: Alphabet) -> Option<
    Seq<char>,
> {
    if value.len() == 0 {
        Some("must not be empty"@)
    } else if value.len() > max_len {
        Some("is too long"@)
    } else if value[0] == '-' {
        Some("must not start with '-'"@)
    } else if exists|i: int| 0 <= i < value.len() && !allows(alphabet, #[trigger] value[i]) {
        Some("contains characters a delegate CLI will not accept"@)
    } else {
        None
    }
}

/// Which CLI a consultation is talking to, without the options.
#[derive(Debug, Clone, Copy, PartialEq, Eq, Structural)]
pub enum Vendor {
    /// Anthropic's CLI.
    Claude,
    /// The `codex` CLI from `OpenAI`.
    Codex,
}

/// What `OpenAI`'s CLI is called.
pub const CODEX_PROGRAM: &'static str = "codex";

/// What the vendors' CLIs are called.
#[verifier::ext_equal]
pub struct ProgramsModel {
    /// Anthropic's CLI.
    pub claude: Seq<char>,
    /// The CLI from `OpenAI`.
    pub codex: Seq<char>,
}

/// Whether a character may stand in the name of a program.
pub open spec fn is_program_char(c: char) -> bool {
    ('0' <= c && c <= '9') || ('a' <= c && c <= 'z') || c == '-'
}

/// Whether a text can name a program: lower-case ASCII letters, digits and dashes, and not a flag.
pub open spec fn is_program_name(name: Seq<char>) -> bool {
    name.len() > 0 && name[0] != '-' && forall|i: int|
        0 <= i < name.len() ==> is_program_char(#[trigger] name[i])
}

impl ProgramsModel {
    /// Whether these are the names of the two programs: that of Anthropic's CLI is what its own
    /// variable for a configuration directory begins with, in small letters, and `OpenAI`'s is
    /// [`CODEX_PROGRAM`].
    pub open spec fn valid(self) -> bool {
        &&& self.claude + "_config_dir"@ == lowercase(config_dir_var(Vendor::Claude))
        &&& self.codex == CODEX_PROGRAM@
        &&& is_program_name(self.claude)
        &&& is_program_name(self.codex)
        &&& self.claude != self.codex
    }
}

/// What the vendors' CLIs are called, as they are found on `PATH` and named in a configuration
/// file.
#[derive(Debug)]
pub struct Programs {
    claude: String,
    codex: String,
}

impl View for Programs {
    type V = ProgramsModel;

    closed spec fn view(&self) -> ProgramsModel {
        ProgramsModel { claude: self.claude@, codex: self.codex@ }
    }
}

impl Clone for Programs {
    fn clone(&self) -> (r: Self)
        ensures
            r@ == self@,
    {
        proof {
            use_type_invariant(self);
        }
        Programs { claude: self.claude.clone(), codex: self.codex.clone() }
    }
}

impl Programs {
    #[verifier::type_invariant]
    spec fn type_inv(self) -> bool {
        ProgramsModel { claude: self.claude@, codex: self.codex@ }.valid()
    }

    /// The programs as they are installed.
    pub fn installed() -> (r: Programs)
        ensures
            r@.valid(),
    {
        let variable = to_lowercase(credential_vars(Vendor::Claude).config_dir);
        let chars = chars_of(variable.as_str());
        proof {
            reveal_strlit("CLAUDE_CONFIG_DIR");
            reveal_strlit("_config_dir");
            reveal_strlit("codex");
            assert(chars@ =~= lowercase(config_dir_var(Vendor::Claude)));
            assert(chars@.len() == 17);
        }
        let claude = text_between(&chars, 0, 6);
        proof {
            assert(claude@ + "_config_dir"@ =~= chars@);
            assert(is_program_name(claude@));
            assert(claude@.len() != CODEX_PROGRAM@.len());
        }
        Programs { claude, codex: CODEX_PROGRAM.to_owned() }
    }
}

/// The executable name of each vendor's CLI.
pub open spec fn program_of(programs: ProgramsModel, vendor: Vendor) -> Seq<char> {
    match vendor {
        Vendor::Claude => programs.claude,
        Vendor::Codex => programs.codex,
    }
}

impl Vendor {
    /// Every vendor, for the places that fan out over all of them.
    pub const ALL: [Vendor; 2] = [Vendor::Claude, Vendor::Codex];

    /// The executable name, as found on `PATH`.
    pub fn program(self, programs: &Programs) -> (r: &str)
        ensures
            r@ == program_of(programs@, self),
            programs@.valid(),
    {
        proof {
            use_type_invariant(programs);
        }
        match self {
            Vendor::Claude => programs.claude.as_str(),
            Vendor::Codex => programs.codex.as_str(),
        }
    }
}

/// A delegate argument that could not be used.
#[derive(Debug, PartialEq, Eq)]
pub enum DelegateError {
    /// A model identifier, reasoning effort, alias or environment name was empty, over-long, or
    /// not safe to hand to a child process.
    Argument {
        /// Which argument was rejected.
        field: &'static str,
        /// Why it was rejected.
        reason: &'static str,
        /// What was supplied, so the caller can see its own mistake.
        value: String,
    },
    /// The child environment cannot be built because the host environment lacks something.
    Environment(String),
    /// An option that belongs to one vendor was given for the other.
    NotForVendor {
        /// The option that was set.
        option: &'static str,
        /// The vendor it belongs to.
        owner: Vendor,
        /// The vendor that was asked for.
        vendor: Vendor,
    },
    /// The requested account alias is not defined by this machine's configuration.
    ///
    /// The message lists what *is* defined, because the caller is usually an agent that guessed a
    /// plausible name and cannot see the file.
    UnknownAccount {
        /// Which CLI the alias was being resolved for.
        vendor: Vendor,
        /// The alias that was asked for.
        alias: String,
        /// Every alias that vendor does have.
        configured: Vec<String>,
        /// Which file supplied them, when one did.
        config_path: Option<String>,
        /// The file that chose this alias, when the caller did not.
        ///
        /// A default selected by a checked-out `agentmux.toml` is the likeliest way to meet this
        /// error without having named anything, and the file is the thing to go and fix.
        selected_by: Option<String>,
    },
    /// An account names a configuration directory that is not there.
    AccountDirMissing {
        /// Which CLI the account belongs to.
        vendor: Vendor,
        /// The alias that was asked for.
        alias: String,
        /// The directory that is missing.
        path: String,
    },
}

/// What a [`DelegateError`] says.
#[verifier::ext_equal]
pub enum DelegateErrorModel {
    /// An argument that is not safe to hand to a child process.
    Argument {
        /// Which argument.
        field: Seq<char>,
        /// Why it was rejected.
        reason: Seq<char>,
        /// What was supplied.
        value: Seq<char>,
    },
    /// The child environment cannot be built.
    Environment(Seq<char>),
    /// An option of the other vendor.
    NotForVendor {
        /// The option.
        option: Seq<char>,
        /// The vendor it belongs to.
        owner: Vendor,
        /// The vendor that was asked for.
        vendor: Vendor,
    },
    /// An alias the configuration does not define.
    UnknownAccount {
        /// The vendor.
        vendor: Vendor,
        /// The alias.
        alias: Seq<char>,
        /// The aliases there are.
        configured: Seq<Seq<char>>,
        /// The file that supplied them.
        config_path: Option<Seq<char>>,
        /// The file that chose the alias.
        selected_by: Option<Seq<char>>,
    },
    /// An account whose directory is not there.
    AccountDirMissing {
        /// The vendor.
        vendor: Vendor,
        /// The alias.
        alias: Seq<char>,
        /// The directory.
        path: Seq<char>,
    },
}

impl View for DelegateError {
    type V = DelegateErrorModel;

    open spec fn view(&self) -> DelegateErrorModel {
        match self {
            DelegateError::Argument { field, reason, value } => DelegateErrorModel::Argument {
                field: field@,
                reason: reason@,
                value: value@,
            },
            DelegateError::Environment(text) => DelegateErrorModel::Environment(text@),
            DelegateError::NotForVendor { option, owner, vendor } =>
                DelegateErrorModel::NotForVendor {
                option: option@,
                owner: *owner,
                vendor: *vendor,
            },
            DelegateError::UnknownAccount {
                vendor,
                alias,
                configured,
                config_path,
                selected_by,
            } => DelegateErrorModel::UnknownAccount {
                vendor: *vendor,
                alias: alias@,
                configured: texts(configured@),
                config_path: text_of(*config_path),
                selected_by: text_of(*selected_by),
            },
            DelegateError::AccountDirMissing { vendor, alias, path } =>
                DelegateErrorModel::AccountDirMissing {
                vendor: *vendor,
                alias: alias@,
                path: path@,
            },
        }
    }
}

/// How the choice of an alias that the caller did not name is told.
pub open spec fn selection_text(selected_by: Option<Seq<char>>) -> Seq<char> {
    match selected_by {
        Some(path) => ", and "@ + path + " selects it as the default"@,
        None => Seq::empty(),
    }
}

/// How the aliases there are are told.
pub open spec fn configured_text(configured: Seq<Seq<char>>, source: Option<Seq<char>>) -> Seq<
    char,
> {
    if configured.len() == 0 {
        match source {
            Some(path) => path + " defines none for it."@,
            None => "No agentmux.toml was found, so no accounts are configured. Create one at ~/.config/agentmux/agentmux.toml, or omit `account` to use the CLI's own default."@,
        }
    } else {
        match source {
            Some(path) => path + " defines: "@ + joined(configured, ", "@) + "."@,
            None => "Configured: "@ + joined(configured, ", "@) + "."@,
        }
    }
}

/// How a [`DelegateError`] reads.
pub open spec fn delegate_error_text(
    programs: ProgramsModel,
    error: DelegateErrorModel,
) -> Seq<char> {
    match error {
        DelegateErrorModel::Argument { field, reason, value } => field + " "@ + reason + ": "@
            + debug_quoted(value),
        DelegateErrorModel::Environment(text) => "cannot build the delegate environment: "@ + text,
        DelegateErrorModel::NotForVendor { option, owner, vendor } => "`"@ + option
            + "` belongs to the "@ + program_of(programs, owner)
            + " delegate, which is the only one that has it; drop it for a "@ + program_of(programs, vendor)
            + " consultation"@,
        DelegateErrorModel::UnknownAccount {
            vendor,
            alias,
            configured,
            config_path,
            selected_by,
        } => "no "@ + program_of(programs, vendor) + " account named `"@ + alias + "` is configured"@
            + selection_text(selected_by) + ". "@ + configured_text(configured, config_path),
        DelegateErrorModel::AccountDirMissing { vendor, alias, path } => "the "@ + program_of(
            programs,
            vendor,
        ) + " account `"@ + alias + "` points at "@ + path
            + ", which does not exist. Either that account has not been logged in on this machine, or the path is wrong."@,
    }
}

/// Name the file that chose an alias the caller did not ask for.
fn describe_selection(selected_by: &Option<String>) -> (r: String)
    ensures
        r@ == selection_text(text_of(*selected_by)),
{
    match selected_by {
        Some(path) => {
            let mut out = ", and ".to_owned();
            out.append(path.as_str());
            out.append(" selects it as the default");
            out
        },
        None => String::new(),
    }
}

/// Describe which aliases exist, for an unknown-alias error.
fn describe_configured(configured: &Vec<String>, source: &Option<String>) -> (r: String)
    ensures
        r@ == configured_text(texts(configured@), text_of(*source)),
{
    if configured.len() == 0 {
        return match source {
            Some(path) => {
                let mut out = path.clone();
                out.append(" defines none for it.");
                out
            },
            None => "No agentmux.toml was found, so no accounts are configured. Create one at ~/.config/agentmux/agentmux.toml, or omit `account` to use the CLI's own default.".to_owned(),
        };
    }
    let names = join(configured, ", ");
    let mut out = match source {
        Some(path) => {
            let mut out = path.clone();
            out.append(" defines: ");
            out
        },
        None => "Configured: ".to_owned(),
    };
    out.append(names.as_str());
    out.append(".");
    out
}

impl DelegateError {
    /// The error as a caller reads it.
    pub fn message(&self, programs: &Programs) -> (r: String)
        ensures
            r@ == delegate_error_text(programs@, self@),
    {
        match self {
            DelegateError::Argument { field, reason, value } => {
                let mut out = String::new();
                out.append(field);
                out.append(" ");
                out.append(reason);
                out.append(": ");
                out.append(quoted(value.as_str()).as_str());
                out
            },
            DelegateError::Environment(text) => {
                let mut out = "cannot build the delegate environment: ".to_owned();
                out.append(text.as_str());
                out
            },
            DelegateError::NotForVendor { option, owner, vendor } => {
                let mut out = "`".to_owned();
                out.append(option);
                out.append("` belongs to the ");
                out.append(owner.program(programs));
                out.append(" delegate, which is the only one that has it; drop it for a ");
                out.append(vendor.program(programs));
                out.append(" consultation");
                out
            },
            DelegateError::UnknownAccount {
                vendor,
                alias,
                configured,
                config_path,
                selected_by,
            } => {
                let mut out = "no ".to_owned();
                out.append(vendor.program(programs));
                out.append(" account named `");
                out.append(alias.as_str());
                out.append("` is configured");
                out.append(describe_selection(selected_by).as_str());
                out.append(". ");
                out.append(describe_configured(configured, config_path).as_str());
                out
            },
            DelegateError::AccountDirMissing { vendor, alias, path } => {
                let mut out = "the ".to_owned();
                out.append(vendor.program(programs));
                out.append(" account `");
                out.append(alias.as_str());
                out.append("` points at ");
                out.append(path.as_str());
                out.append(
                    ", which does not exist. Either that account has not been logged in on this machine, or the path is wrong.",
                );
                out
            },
        }
    }
}

/// The error for a value that is not a token.
pub open spec fn token_error(
    field: Seq<char>,
    value: Seq<char>,
    max_len: nat,
    alphabet: Alphabet,
) -> Option<DelegateErrorModel> {
    match token_fault(value, max_len, alphabet) {
        Some(reason) => Some(DelegateErrorModel::Argument { field, reason, value }),
        None => None,
    }
}

fn parse_token(field: &'static str, value: &str, max_len: usize, alphabet: Alphabet) -> (r: Result<
    String,
    DelegateError,
>)
    ensures
        r matches Ok(text) ==> text@ == value@ && token_fault(value@, max_len as nat, alphabet)
            is None,
        r matches Err(error) ==> token_error(field@, value@, max_len as nat, alphabet) == Some(
            error@,
        ),
{
    let chars = chars_of(value);
    if chars.len() == 0 {
        return Err(
            DelegateError::Argument {
                field,
                reason: "must not be empty",
                value: value.to_owned(),
            },
        );
    }
    if chars.len() > max_len {
        return Err(
            DelegateError::Argument { field, reason: "is too long", value: value.to_owned() },
        );
    }
    if chars[0] == '-' {
        return Err(
            DelegateError::Argument {
                field,
                reason: "must not start with '-'",
                value: value.to_owned(),
            },
        );
    }
    let mut i: usize = 0;
    while i < chars.len()
        invariant
            i <= chars.len(),
            chars@ == value@,
            0 < value@.len() <= max_len,
            value@[0] != '-',
            forall|j: int| 0 <= j < i ==> allows(alphabet, #[trigger] value@[j]),
        decreases chars.len() - i,
    {
        if !allowed(alphabet, chars[i]) {
            assert(!allows(alphabet, value@[i as int]));
            return Err(
                DelegateError::Argument {
                    field,
                    reason: "contains characters a delegate CLI will not accept",
                    value: value.to_owned(),
                },
            );
        }
        i = i + 1;
    }
    Ok(value.to_owned())
}

/// A model identifier, passed to the delegate CLI verbatim.
///
/// Deliberately not an enum.
/// See the module docs.
#[derive(Debug, PartialEq, Eq)]
pub struct ModelId {
    text: String,
}

impl View for ModelId {
    type V = Seq<char>;

    closed spec fn view(&self) -> Seq<char> {
        self.text@
    }
}

impl ModelId {
    /// Longest identifier accepted.
    /// Well past anything either vendor ships.
    pub const MAX_LEN: usize = 128;

    #[verifier::type_invariant]
    spec fn safe(&self) -> bool {
        token_fault(self.text@, 128, Alphabet::Model) is None
    }

    /// Validate a model identifier for argv safety.
    ///
    /// Accepts what real identifiers contain, including the bracketed context-window suffix in
    /// `opus-5[1m]`.
    pub fn parse(value: &str) -> (r: Result<Self, DelegateError>)
        ensures
            r matches Ok(parsed) ==> parsed@ == value@ && token_fault(
                value@,
                ModelId::MAX_LEN as nat,
                Alphabet::Model,
            ) is None,
            r matches Err(error) ==> token_error(
                "model"@,
                value@,
                ModelId::MAX_LEN as nat,
                Alphabet::Model,
            ) == Some(error@),
    {
        match parse_token("model", value, ModelId::MAX_LEN, Alphabet::Model) {
            Ok(text) => Ok(ModelId { text }),
            Err(error) => Err(error),
        }
    }

    /// The identifier as the CLI will see it.
    pub fn as_str(&self) -> (r: &str)
        ensures
            r@ == self@,
            token_fault(r@, ModelId::MAX_LEN as nat, Alphabet::Model) is None,
    {
        proof {
            use_type_invariant(self);
        }
        self.text.as_str()
    }
}

impl Clone for ModelId {
    fn clone(&self) -> (r: Self)
        ensures
            r@ == self@,
    {
        proof {
            use_type_invariant(self);
        }
        ModelId { text: self.text.clone() }
    }
}

/// A reasoning-effort level, passed to the delegate CLI verbatim.
///
/// Deliberately not an enum, for the same reason as [`ModelId`]: the vocabularies differ between
/// vendors and grow without notice.
#[derive(Debug, PartialEq, Eq)]
pub struct Effort {
    text: String,
}

impl View for Effort {
    type V = Seq<char>;

    closed spec fn view(&self) -> Seq<char> {
        self.text@
    }
}

impl Effort {
    /// Longest effort name accepted.
    pub const MAX_LEN: usize = 32;

    #[verifier::type_invariant]
    spec fn safe(&self) -> bool {
        token_fault(self.text@, 32, Alphabet::Effort) is None
    }

    /// Validate a reasoning-effort name for argv safety.
    pub fn parse(value: &str) -> (r: Result<Self, DelegateError>)
        ensures
            r matches Ok(parsed) ==> parsed@ == value@ && token_fault(
                value@,
                Effort::MAX_LEN as nat,
                Alphabet::Effort,
            ) is None,
            r matches Err(error) ==> token_error(
                "effort"@,
                value@,
                Effort::MAX_LEN as nat,
                Alphabet::Effort,
            ) == Some(error@),
    {
        match parse_token("effort", value, Effort::MAX_LEN, Alphabet::Effort) {
            Ok(text) => Ok(Effort { text }),
            Err(error) => Err(error),
        }
    }

    /// The name as the CLI will see it.
    pub fn as_str(&self) -> (r: &str)
        ensures
            r@ == self@,
            token_fault(r@, Effort::MAX_LEN as nat, Alphabet::Effort) is None,
    {
        proof {
            use_type_invariant(self);
        }
        self.text.as_str()
    }
}

impl Clone for Effort {
    fn clone(&self) -> (r: Self)
        ensures
            r@ == self@,
    {
        proof {
            use_type_invariant(self);
        }
        Effort { text: self.text.clone() }
    }
}

/// An account alias, resolved through the machine's configuration.
///
/// Opaque for the same reason a model id is: agentmux keeps no roster of accounts, and the set of
/// them is a property of the machine rather than of this crate.
///
/// Omitting an alias entirely runs the vendor CLI against its own default configuration.
#[derive(Debug, PartialEq, Eq)]
pub struct AccountAlias {
    text: String,
}

impl View for AccountAlias {
    type V = Seq<char>;

    closed spec fn view(&self) -> Seq<char> {
        self.text@
    }
}

impl AccountAlias {
    /// Longest accepted alias.
    pub const MAX_LEN: usize = 64;

    #[verifier::type_invariant]
    spec fn safe(&self) -> bool {
        token_fault(self.text@, 64, Alphabet::Alias) is None
    }

    /// Validate an alias.
    ///
    /// Aliases name a table key in `agentmux.toml` and appear in error messages, so they are held
    /// to a plain-identifier shape rather than to argv-safety alone.
    pub fn parse(value: &str) -> (r: Result<Self, DelegateError>)
        ensures
            r matches Ok(parsed) ==> parsed@ == value@ && token_fault(
                value@,
                AccountAlias::MAX_LEN as nat,
                Alphabet::Alias,
            ) is None,
            r matches Err(error) ==> token_error(
                "account"@,
                value@,
                AccountAlias::MAX_LEN as nat,
                Alphabet::Alias,
            ) == Some(error@),
    {
        match parse_token("account", value, AccountAlias::MAX_LEN, Alphabet::Alias) {
            Ok(text) => Ok(AccountAlias { text }),
            Err(error) => Err(error),
        }
    }

    /// The alias as written.
    pub fn as_str(&self) -> (r: &str)
        ensures
            r@ == self@,
            token_fault(r@, AccountAlias::MAX_LEN as nat, Alphabet::Alias) is None,
    {
        proof {
            use_type_invariant(self);
        }
        self.text.as_str()
    }
}

impl Clone for AccountAlias {
    fn clone(&self) -> (r: Self)
        ensures
            r@ == self@,
    {
        proof {
            use_type_invariant(self);
        }
        AccountAlias { text: self.text.clone() }
    }
}

/// The delegate CLI's own handle on a conversation, so a later turn can continue it.
///
/// Anthropic's CLI calls this a session id and Codex calls it a thread id; both are opaque to
/// agentmux and both are recovered from the delegate's event stream.
#[derive(Debug, PartialEq, Eq)]
pub struct SessionRef {
    text: String,
}

impl View for SessionRef {
    type V = Seq<char>;

    closed spec fn view(&self) -> Seq<char> {
        self.text@
    }
}

impl SessionRef {
    /// Longest identifier accepted.
    /// Both vendors use UUIDs; this leaves room for a thread name.
    pub const MAX_LEN: usize = 200;

    #[verifier::type_invariant]
    spec fn safe(&self) -> bool {
        token_fault(self.text@, 200, Alphabet::Session) is None
    }

    /// Wrap an identifier the delegate emitted.
    ///
    /// One that is not argv-safe is refused: agentmux could not hand it back.
    pub fn parse(value: &str) -> (r: Result<Self, DelegateError>)
        ensures
            r matches Ok(parsed) ==> parsed@ == value@ && token_fault(
                value@,
                SessionRef::MAX_LEN as nat,
                Alphabet::Session,
            ) is None,
            r matches Err(error) ==> token_error(
                "session id"@,
                value@,
                SessionRef::MAX_LEN as nat,
                Alphabet::Session,
            ) == Some(error@),
    {
        match parse_token("session id", value, SessionRef::MAX_LEN, Alphabet::Session) {
            Ok(text) => Ok(SessionRef { text }),
            Err(error) => Err(error),
        }
    }

    /// The identifier as the CLI will see it.
    pub fn as_str(&self) -> (r: &str)
        ensures
            r@ == self@,
            token_fault(r@, SessionRef::MAX_LEN as nat, Alphabet::Session) is None,
    {
        proof {
            use_type_invariant(self);
        }
        self.text.as_str()
    }
}

impl Clone for SessionRef {
    fn clone(&self) -> (r: Self)
        ensures
            r@ == self@,
    {
        proof {
            use_type_invariant(self);
        }
        SessionRef { text: self.text.clone() }
    }
}

/// The characters of a token that may be absent.
pub open spec fn effort_of(effort: Option<Effort>) -> Option<Seq<char>> {
    match effort {
        Some(e) => Some(e@),
        None => None,
    }
}

/// The characters of an alias that may be absent.
pub open spec fn alias_of(alias: Option<AccountAlias>) -> Option<Seq<char>> {
    match alias {
        Some(a) => Some(a@),
        None => None,
    }
}

/// Whether a delegate runs isolated, or as the account's own CLI would.
///
/// Isolation is the default and is what makes a consultation a second opinion rather than a second
/// copy of the caller's own setup: no settings, no hooks, no MCP servers.
/// It is imposed by argument, not by environment — no variable can switch it on or off.
#[derive(Debug, Clone, Copy, PartialEq, Eq, Structural)]
pub enum Isolation {
    /// No user, project or local settings; no hooks; no MCP servers.
    ///
    /// Three things follow, and all three are lost by inheriting.
    /// A blocking `Stop` hook cannot reopen the finished turn and blank its result.
    /// The delegate cannot re-enter agentmux through a configured MCP server and recurse.
    /// And what the delegate saw does not depend on the caller's machine.
    Isolated,
    /// The account's own settings, hooks and MCP servers, exactly as its CLI would load them.
    Inherit,
}

impl Default for Isolation {
    fn default() -> (r: Self)
        ensures
            r == Isolation::Isolated,
    {
        Isolation::Isolated
    }
}

impl Isolation {
    /// Whether the delegate loads the account's own configuration.
    pub fn inherits(self) -> (r: bool)
        ensures
            r == (self == Isolation::Inherit),
    {
        match self {
            Isolation::Inherit => true,
            Isolation::Isolated => false,
        }
    }
}

/// How much of the filesystem a Codex delegate may write.
///
/// A consultation is a second opinion, so `ReadOnly` is the default.
#[derive(Debug, Clone, Copy, PartialEq, Eq, Structural)]
pub enum CodexSandbox {
    /// The delegate may read the working directory and nothing else.
    ReadOnly,
    /// The delegate may also write inside its working directory.
    WorkspaceWrite,
}

impl Default for CodexSandbox {
    fn default() -> (r: Self)
        ensures
            r == CodexSandbox::ReadOnly,
    {
        CodexSandbox::ReadOnly
    }
}

/// The name Codex has for each sandbox mode.
pub open spec fn sandbox_name(sandbox: CodexSandbox) -> Seq<char> {
    match sandbox {
        CodexSandbox::ReadOnly => "read-only"@,
        CodexSandbox::WorkspaceWrite => "workspace-write"@,
    }
}

impl CodexSandbox {
    /// The value Codex uses for this mode, both as `--sandbox` and as `sandbox_mode`.
    pub fn as_str(self) -> (r: &'static str)
        ensures
            r@ == sandbox_name(self),
    {
        match self {
            CodexSandbox::ReadOnly => "read-only",
            CodexSandbox::WorkspaceWrite => "workspace-write",
        }
    }
}

/// Who is being consulted, and on what terms.
///
/// Each variant carries only what that vendor accepts: an Anthropic consultation with a sandbox
/// mode does not compile.
#[derive(Debug, PartialEq, Eq)]
pub enum Delegate {
    /// Anthropic's CLI.
    Claude {
        /// Model identifier, forwarded verbatim.
        model: ModelId,
        /// Reasoning effort, forwarded verbatim, or the CLI's own default when absent.
        effort: Option<Effort>,
        /// Which configured account to authenticate as, or the CLI's own default when absent.
        account: Option<AccountAlias>,
        /// Whether to load the account's own settings, or the account's preference when absent.
        isolation: Option<Isolation>,
    },
    /// The `OpenAI` CLI.
    Codex {
        /// Model identifier, forwarded verbatim.
        model: ModelId,
        /// Reasoning effort, forwarded verbatim, or the CLI's own default when absent.
        effort: Option<Effort>,
        /// How much the delegate may write.
        sandbox: CodexSandbox,
        /// Which configured account to authenticate as, or the CLI's own default when absent.
        account: Option<AccountAlias>,
        /// Whether to load the account's own settings, or the account's preference when absent.
        isolation: Option<Isolation>,
    },
}

/// What a [`Delegate`] says.
#[verifier::ext_equal]
pub struct DelegateModel {
    /// The vendor.
    pub vendor: Vendor,
    /// The model identifier.
    pub model: Seq<char>,
    /// The reasoning effort, where one is named.
    pub effort: Option<Seq<char>>,
    /// The sandbox, which only a Codex delegate has.
    pub sandbox: Option<CodexSandbox>,
    /// The account, where one is named.
    pub account: Option<Seq<char>>,
    /// The isolation, where it is pinned.
    pub isolation: Option<Isolation>,
}

impl View for Delegate {
    type V = DelegateModel;

    open spec fn view(&self) -> DelegateModel {
        match self {
            Delegate::Claude { model, effort, account, isolation } => DelegateModel {
                vendor: Vendor::Claude,
                model: model@,
                effort: effort_of(*effort),
                sandbox: None,
                account: alias_of(*account),
                isolation: *isolation,
            },
            Delegate::Codex { model, effort, sandbox, account, isolation } => DelegateModel {
                vendor: Vendor::Codex,
                model: model@,
                effort: effort_of(*effort),
                sandbox: Some(*sandbox),
                account: alias_of(*account),
                isolation: *isolation,
            },
        }
    }
}

/// The first thing wrong with the parts of a delegate.
pub open spec fn parts_error(
    vendor: Vendor,
    model: Seq<char>,
    effort: Option<Seq<char>>,
    account: Option<Seq<char>>,
    sandbox: Option<CodexSandbox>,
) -> Option<DelegateErrorModel> {
    let model_error = token_error("model"@, model, ModelId::MAX_LEN as nat, Alphabet::Model);
    let effort_error = match effort {
        Some(e) => token_error("effort"@, e, Effort::MAX_LEN as nat, Alphabet::Effort),
        None => None,
    };
    let account_error = match account {
        Some(a) => token_error("account"@, a, AccountAlias::MAX_LEN as nat, Alphabet::Alias),
        None => None,
    };
    if model_error is Some {
        model_error
    } else if effort_error is Some {
        effort_error
    } else if account_error is Some {
        account_error
    } else if vendor == Vendor::Claude && sandbox is Some {
        Some(
            DelegateErrorModel::NotForVendor {
                option: "sandbox"@,
                owner: Vendor::Codex,
                vendor,
            },
        )
    } else {
        None
    }
}

/// How an account reads in a one-line summary.
pub open spec fn account_text(account: Option<Seq<char>>) -> Seq<char> {
    match account {
        Some(alias) => alias,
        None => "cli-default"@,
    }
}

/// How the isolation reads in a one-line summary: it is named only when it is not the default.
pub open spec fn isolation_text(isolation: Option<Isolation>) -> Seq<char> {
    if isolation == Some(Isolation::Inherit) {
        " settings=inherited"@
    } else {
        ""@
    }
}

/// A one-line description of a delegate.
pub open spec fn delegate_summary(programs: ProgramsModel, d: DelegateModel) -> Seq<char> {
    let head = program_of(programs, d.vendor) + " "@ + d.model + " effort="@ + account_text(d.effort);
    let middle = match d.sandbox {
        Some(sandbox) => head + " sandbox="@ + sandbox_name(sandbox),
        None => head,
    };
    middle + " account="@ + account_text(d.account) + isolation_text(d.isolation)
}

/// Name the account, or say that the CLI's own login is used.
///
/// Named rather than left blank when absent, because "which identity ran this" is the question a
/// reader of a surprising result asks first.
fn describe_account(alias: &Option<AccountAlias>) -> (r: &str)
    ensures
        r@ == account_text(alias_of(*alias)),
{
    match alias {
        Some(alias) => alias.as_str(),
        None => "cli-default",
    }
}

/// Name the effort, or say that the CLI is choosing it, in the same words as for an account.
fn describe_effort(effort: &Option<Effort>) -> (r: &str)
    ensures
        r@ == account_text(effort_of(*effort)),
{
    match effort {
        Some(effort) => effort.as_str(),
        None => "cli-default",
    }
}

/// Name the isolation mode in a summary, but only when it is not the default.
///
/// A line that says `isolated` on every consultation teaches a reader to skip it, and the one
/// consultation where it matters is the one that inherited.
fn describe_isolation(isolation: Option<Isolation>) -> (r: &'static str)
    ensures
        r@ == isolation_text(isolation),
{
    match isolation {
        Some(Isolation::Inherit) => " settings=inherited",
        Some(Isolation::Isolated) => "",
        None => "",
    }
}

impl Delegate {
    /// Build a delegate from the flat shape a tool schema or a command line presents.
    ///
    /// This is the one parse step both front ends share, so they cannot come to accept
    /// different things.
    /// The model, effort and alias must be argv-safe, and a sandbox is refused for Anthropic's.
    pub fn from_parts(
        vendor: Vendor,
        model: &str,
        effort: Option<&str>,
        account: Option<&str>,
        isolation: Option<Isolation>,
        sandbox: Option<CodexSandbox>,
    ) -> (r: Result<Self, DelegateError>)
        ensures
            r matches Err(error) ==> parts_error(
                vendor,
                model@,
                str_of(effort),
                str_of(account),
                sandbox,
            ) == Some(error@),
            r matches Ok(delegate) ==> parts_error(
                vendor,
                model@,
                str_of(effort),
                str_of(account),
                sandbox,
            ) is None && delegate@ == (DelegateModel {
                vendor,
                model: model@,
                effort: str_of(effort),
                sandbox: if vendor == Vendor::Codex {
                    match sandbox {
                        Some(mode) => Some(mode),
                        None => Some(CodexSandbox::ReadOnly),
                    }
                } else {
                    None
                },
                account: str_of(account),
                isolation,
            }),
    {
        let model = match ModelId::parse(model) {
            Ok(model) => model,
            Err(error) => return Err(error),
        };
        let effort = match effort {
            Some(effort) => match Effort::parse(effort) {
                Ok(effort) => Some(effort),
                Err(error) => return Err(error),
            },
            None => None,
        };
        let account = match account {
            Some(account) => match AccountAlias::parse(account) {
                Ok(account) => Some(account),
                Err(error) => return Err(error),
            },
            None => None,
        };
        match vendor {
            Vendor::Claude => {
                if sandbox.is_some() {
                    return Err(
                        DelegateError::NotForVendor {
                            option: "sandbox",
                            owner: Vendor::Codex,
                            vendor,
                        },
                    );
                }
                Ok(Delegate::Claude { model, effort, account, isolation })
            },
            Vendor::Codex => Ok(
                Delegate::Codex {
                    model,
                    effort,
                    sandbox: match sandbox {
                        Some(mode) => mode,
                        None => CodexSandbox::default(),
                    },
                    account,
                    isolation,
                },
            ),
        }
    }

    /// Which CLI this delegate runs.
    pub fn vendor(&self) -> (r: Vendor)
        ensures
            r == self@.vendor,
    {
        match self {
            Delegate::Claude { .. } => Vendor::Claude,
            Delegate::Codex { .. } => Vendor::Codex,
        }
    }

    /// The isolation recorded on this delegate, once it has been pinned.
    pub fn isolation(&self) -> (r: Option<Isolation>)
        ensures
            r == self@.isolation,
    {
        match self {
            Delegate::Claude { isolation, .. } => *isolation,
            Delegate::Codex { isolation, .. } => *isolation,
        }
    }

    /// The same delegate, with its isolation pinned.
    pub fn with_isolation(self, resolved: Isolation) -> (r: Self)
        ensures
            r@ == (DelegateModel { isolation: Some(resolved), ..self@ }),
    {
        match self {
            Delegate::Claude { model, effort, account, .. } => Delegate::Claude {
                model,
                effort,
                account,
                isolation: Some(resolved),
            },
            Delegate::Codex { model, effort, sandbox, account, .. } => Delegate::Codex {
                model,
                effort,
                sandbox,
                account,
                isolation: Some(resolved),
            },
        }
    }

    /// The same delegate, with its account pinned to `alias`.
    ///
    /// Used to record the account a consultation actually ran as, once a configured default has
    /// chosen one.
    pub fn with_account(self, alias: AccountAlias) -> (r: Self)
        ensures
            r@ == (DelegateModel { account: Some(alias@), ..self@ }),
    {
        match self {
            Delegate::Claude { model, effort, isolation, .. } => Delegate::Claude {
                model,
                effort,
                account: Some(alias),
                isolation,
            },
            Delegate::Codex { model, effort, sandbox, isolation, .. } => Delegate::Codex {
                model,
                effort,
                sandbox,
                account: Some(alias),
                isolation,
            },
        }
    }

    /// The same delegate, with its model identifier replaced.
    ///
    /// Used where the machine's configuration rewrites the identifier a caller asked for, so that
    /// every later reader of the record names the model that actually ran.
    pub fn with_model(self, replacement: ModelId) -> (r: Self)
        ensures
            r@ == (DelegateModel { model: replacement@, ..self@ }),
    {
        match self {
            Delegate::Claude { effort, account, isolation, .. } => Delegate::Claude {
                model: replacement,
                effort,
                account,
                isolation,
            },
            Delegate::Codex { effort, sandbox, account, isolation, .. } => Delegate::Codex {
                model: replacement,
                effort,
                sandbox,
                account,
                isolation,
            },
        }
    }

    /// The same delegate, with a reasoning effort filled in.
    ///
    /// Used where the caller named none and the machine's configuration names one for the model
    /// that runs, so the record says what the CLI was actually given.
    pub fn with_effort(self, chosen: Effort) -> (r: Self)
        ensures
            r@ == (DelegateModel { effort: Some(chosen@), ..self@ }),
    {
        match self {
            Delegate::Claude { model, account, isolation, .. } => Delegate::Claude {
                model,
                effort: Some(chosen),
                account,
                isolation,
            },
            Delegate::Codex { model, sandbox, account, isolation, .. } => Delegate::Codex {
                model,
                effort: Some(chosen),
                sandbox,
                account,
                isolation,
            },
        }
    }

    /// The configured account this delegate authenticates as, if one was named.
    pub fn account(&self) -> (r: Option<&AccountAlias>)
        ensures
            r is Some == self@.account is Some,
            r matches Some(alias) ==> self@.account == Some(alias@),
    {
        match self {
            Delegate::Claude { account, .. } => account.as_ref(),
            Delegate::Codex { account, .. } => account.as_ref(),
        }
    }

    /// The model identifier being consulted.
    pub fn model(&self) -> (r: &ModelId)
        ensures
            r@ == self@.model,
    {
        match self {
            Delegate::Claude { model, .. } => model,
            Delegate::Codex { model, .. } => model,
        }
    }

    /// The reasoning effort being requested, when one is.
    ///
    /// `None` once the record is pinned means neither the caller nor the machine's configuration
    /// named one, and the CLI's own default runs.
    pub fn effort(&self) -> (r: Option<&Effort>)
        ensures
            r is Some == self@.effort is Some,
            r matches Some(effort) ==> self@.effort == Some(effort@),
    {
        match self {
            Delegate::Claude { effort, .. } => effort.as_ref(),
            Delegate::Codex { effort, .. } => effort.as_ref(),
        }
    }

    /// A one-line description, for `list` output and log lines.
    pub fn summary(&self, programs: &Programs) -> (r: String)
        ensures
            r@ == delegate_summary(programs@, self@),
    {
        match self {
            Delegate::Claude { model, effort, account, isolation } => {
                let mut out = Vendor::Claude.program(programs).to_owned();
                out.append(" ");
                out.append(model.as_str());
                out.append(" effort=");
                out.append(describe_effort(effort));
                out.append(" account=");
                out.append(describe_account(account));
                out.append(describe_isolation(*isolation));
                out
            },
            Delegate::Codex { model, effort, sandbox, account, isolation } => {
                let mut out = Vendor::Codex.program(programs).to_owned();
                out.append(" ");
                out.append(model.as_str());
                out.append(" effort=");
                out.append(describe_effort(effort));
                out.append(" sandbox=");
                out.append(sandbox.as_str());
                out.append(" account=");
                out.append(describe_account(account));
                out.append(describe_isolation(*isolation));
                out
            },
        }
    }
}

impl Clone for Delegate {
    fn clone(&self) -> (r: Self)
        ensures
            r@ == self@,
    {
        match self {
            Delegate::Claude { model, effort, account, isolation } => Delegate::Claude {
                model: model.clone(),
                effort: match effort {
                    Some(effort) => Some(effort.clone()),
                    None => None,
                },
                account: match account {
                    Some(account) => Some(account.clone()),
                    None => None,
                },
                isolation: *isolation,
            },
            Delegate::Codex { model, effort, sandbox, account, isolation } => Delegate::Codex {
                model: model.clone(),
                effort: match effort {
                    Some(effort) => Some(effort.clone()),
                    None => None,
                },
                sandbox: *sandbox,
                account: match account {
                    Some(account) => Some(account.clone()),
                    None => None,
                },
                isolation: *isolation,
            },
        }
    }
}

/// Everything that varies between the turns of one consultation.
pub struct TurnPlan<'a> {
    /// File holding the question.
    /// It becomes the child's stdin, so no pipe needs draining.
    pub question_path: &'a str,
    /// Where Codex should drop its closing message.
    /// Ignored by Anthropic's delegate.
    pub last_message_path: &'a str,
    /// The delegate's own session identifier, when continuing a consultation.
    pub resume: Option<&'a SessionRef>,
    /// Environment the caller asked for on this consultation.
    ///
    /// Applied last, over the machine and account layers, so a one-off can override a standing
    /// setting.
    /// Only names the machine's configuration lists under `request_env` are accepted.
    pub extra_env: &'a TextMap<String>,
}

/// The session a plan continues.
pub open spec fn resume_of(plan: TurnPlan<'_>) -> Option<Seq<char>> {
    match plan.resume {
        Some(session) => Some(session@),
        None => None,
    }
}

/// A fully prepared child process: what to run, with which arguments, in which environment.
///
/// Produced only by [`Delegate::invocation`], so the flags that make capture correct cannot be
/// forgotten at a call site.
pub struct Invocation {
    /// Executable name, resolved against the child's `PATH`.
    pub program: String,
    /// The complete argument vector, excluding `argv[0]`.
    pub args: Vec<String>,
    /// The child's entire environment, built as an allowlist from empty.
    pub env: TextMap<String>,
}

/// What an [`Invocation`] says.
#[verifier::ext_equal]
pub struct InvocationModel {
    /// Executable name.
    pub program: Seq<char>,
    /// The argument vector.
    pub args: Seq<Seq<char>>,
    /// The environment.
    pub env: Map<Seq<char>, Seq<char>>,
}

impl View for Invocation {
    type V = InvocationModel;

    open spec fn view(&self) -> InvocationModel {
        InvocationModel { program: self.program@, args: texts(self.args@), env: self.env@ }
    }
}

/// Marks a process as already running underneath agentmux.
///
/// Read before every launch to refuse a delegate spawned from inside one.
pub const DELEGATE_MARKER: &'static str = "AGENTMUX_DELEGATE";

/// The empty MCP configuration handed to Anthropic's delegate.
///
/// Without it the delegate loads this machine's MCP servers, including agentmux itself, and a
/// consultation can recurse.
pub const EMPTY_MCP_CONFIG: &'static str = "{\"mcpServers\":{}}";

/// The built-in tools Anthropic's delegate may use.
///
/// A consultation is a second opinion, not an edit, so `Edit`, `Write` and `NotebookEdit` are not
/// offered.
/// That is a real reduction but not a sandbox: `Bash` is on the list.
/// What actually holds the line is `--permission-mode plan`, which the vendor enforces.
pub const CLAUDE_READ_ONLY_TOOLS: &'static str = "Bash,Read,Grep,Glob,WebFetch,WebSearch";

/// Environment variables every delegate needs regardless of vendor.
///
/// The child environment is built as an allowlist from empty rather than by filtering a denylist:
/// a denylist forgets the variable that was added last week; an allowlist cannot leak a variable
/// nobody thought about.
/// On Windows these include what a process needs before it can do anything at all.
pub open spec fn base_names(platform: Platform) -> Seq<Seq<char>> {
    let everywhere = seq![
        "PATH"@,
        "HOME"@,
        "USER"@,
        "LOGNAME"@,
        "SHELL"@,
        "LANG"@,
        "LC_ALL"@,
        "LC_CTYPE"@,
        "TZ"@,
        "TMPDIR"@,
        "HTTP_PROXY"@,
        "HTTPS_PROXY"@,
        "NO_PROXY"@,
        "http_proxy"@,
        "https_proxy"@,
        "no_proxy"@,
        "SSL_CERT_FILE"@,
        "SSL_CERT_DIR"@,
        "NODE_EXTRA_CA_CERTS"@,
    ];
    match platform {
        Platform::Unix => everywhere,
        Platform::Windows => everywhere + seq![
            "SystemRoot"@,
            "SystemDrive"@,
            "windir"@,
            "COMSPEC"@,
            "PATHEXT"@,
            "USERPROFILE"@,
            "APPDATA"@,
            "LOCALAPPDATA"@,
            "PROGRAMDATA"@,
            "TEMP"@,
            "TMP"@,
            "NUMBER_OF_PROCESSORS"@,
            "PROCESSOR_ARCHITECTURE"@,
        ],
    }
}

fn push_text(list: &mut Vec<String>, text: &str)
    ensures
        texts(final(list)@) == texts(old(list)@).push(text@),
{
    let text = text.to_owned();
    proof {
        lemma_texts_push(list@, text);
    }
    list.push(text);
}

fn base_allowlist(platform: Platform) -> (r: Vec<String>)
    ensures
        texts(r@) == base_names(platform),
{
    let mut names: Vec<String> = Vec::new();
    assert(texts(names@) =~= Seq::empty());
    push_text(&mut names, "PATH");
    push_text(&mut names, "HOME");
    push_text(&mut names, "USER");
    push_text(&mut names, "LOGNAME");
    push_text(&mut names, "SHELL");
    push_text(&mut names, "LANG");
    push_text(&mut names, "LC_ALL");
    push_text(&mut names, "LC_CTYPE");
    push_text(&mut names, "TZ");
    push_text(&mut names, "TMPDIR");
    push_text(&mut names, "HTTP_PROXY");
    push_text(&mut names, "HTTPS_PROXY");
    push_text(&mut names, "NO_PROXY");
    push_text(&mut names, "http_proxy");
    push_text(&mut names, "https_proxy");
    push_text(&mut names, "no_proxy");
    push_text(&mut names, "SSL_CERT_FILE");
    push_text(&mut names, "SSL_CERT_DIR");
    push_text(&mut names, "NODE_EXTRA_CA_CERTS");
    assert(texts(names@) =~= base_names(Platform::Unix));
    match platform {
        Platform::Unix => {},
        Platform::Windows => {
            push_text(&mut names, "SystemRoot");
            push_text(&mut names, "SystemDrive");
            push_text(&mut names, "windir");
            push_text(&mut names, "COMSPEC");
            push_text(&mut names, "PATHEXT");
            push_text(&mut names, "USERPROFILE");
            push_text(&mut names, "APPDATA");
            push_text(&mut names, "LOCALAPPDATA");
            push_text(&mut names, "PROGRAMDATA");
            push_text(&mut names, "TEMP");
            push_text(&mut names, "TMP");
            push_text(&mut names, "NUMBER_OF_PROCESSORS");
            push_text(&mut names, "PROCESSOR_ARCHITECTURE");
            assert(texts(names@) =~= base_names(Platform::Windows));
        },
    }
    names
}

/// The environment every child starts from: the host's path, home, locale, proxy and CA settings,
/// plus the marks of a non-interactive terminal.
pub open spec fn base_env_of(platform: Platform, host: Map<Seq<char>, Seq<char>>) -> Map<
    Seq<char>,
    Seq<char>,
> {
    forwarded(
        Map::empty(),
        base_names(platform).map_values(|name: Seq<char>| canonical_name(platform, name)),
        host,
    ).insert("TERM"@, "dumb"@).insert("NO_COLOR"@, "1"@).insert("CI"@, "1"@)
}

/// The environment every child starts from.
///
/// Shared with the quota probes, so a delegate and a probe that must reach the same network
/// cannot quietly diverge in what they are given to reach it with.
pub fn base_env(platform: Platform, host_env: &TextMap<String>) -> (r: TextMap<String>)
    ensures
        r@ == base_env_of(platform, host_env@),
{
    let names = canonical_list(platform, &base_allowlist(platform));
    let mut env: TextMap<String> = TextMap::new();
    forward(&mut env, &names, host_env);
    env.insert("TERM", "dumb".to_owned());
    env.insert("NO_COLOR", "1".to_owned());
    env.insert("CI", "1".to_owned());
    env
}

/// The environment variables a vendor reads for its identity, in the order they are documented.
///
/// Forwarded when no account is named, withheld when one is, so the account authenticates as
/// itself rather than as whatever key is exported.
///
/// `CLAUDE_CONFIG_DIR` is deliberately not among them, although it is where a login lives: the
/// process that launches agentmux is usually a session of Anthropic's harness, and that variable is
/// how such a session names its *own* identity.
/// Codex is the other way round: `CODEX_HOME` is forwarded, because a Codex session does not set
/// it for itself and it is the only way a relocated Codex login is found at all.
pub open spec fn credential_names(vendor: Vendor) -> Seq<Seq<char>> {
    match vendor {
        Vendor::Claude => seq![
            "ANTHROPIC_API_KEY"@,
            "ANTHROPIC_AUTH_TOKEN"@,
            "ANTHROPIC_BASE_URL"@,
        ],
        Vendor::Codex => seq!["OPENAI_API_KEY"@, "OPENAI_BASE_URL"@, "CODEX_HOME"@],
    }
}

/// The environment variables a vendor reads for its identity, in the order they are documented.
pub fn credential_keys(vendor: Vendor) -> (r: Vec<String>)
    ensures
        texts(r@) == credential_names(vendor),
{
    let mut names: Vec<String> = Vec::new();
    assert(texts(names@) =~= Seq::empty());
    match vendor {
        Vendor::Claude => {
            push_text(&mut names, "ANTHROPIC_API_KEY");
            push_text(&mut names, "ANTHROPIC_AUTH_TOKEN");
            push_text(&mut names, "ANTHROPIC_BASE_URL");
        },
        Vendor::Codex => {
            push_text(&mut names, "OPENAI_API_KEY");
            push_text(&mut names, "OPENAI_BASE_URL");
            push_text(&mut names, "CODEX_HOME");
        },
    }
    assert(texts(names@) =~= credential_names(vendor));
    names
}

/// Whether a name is one either CLI reads a credential from, which a named account withholds.
pub fn is_credential_name(name: &str) -> (r: bool)
    ensures
        r == (credential_names(Vendor::Claude).contains(name@) || credential_names(
            Vendor::Codex,
        ).contains(name@)),
{
    let claude = credential_keys(Vendor::Claude);
    let codex = credential_keys(Vendor::Codex);
    proof {
        lemma_listed(claude@, name@);
        lemma_listed(codex@, name@);
    }
    list_holds(&claude, name) || list_holds(&codex, name)
}

/// A list of strings holds a text exactly when its list of texts does.
pub proof fn lemma_listed(list: Seq<String>, name: Seq<char>)
    ensures
        listed(list, name) == texts(list).contains(name),
{
    if listed(list, name) {
        let i = choose|i: int| 0 <= i < list.len() && #[trigger] list[i]@ == name;
        assert(texts(list)[i] == name);
    }
    if texts(list).contains(name) {
        let i = choose|i: int| 0 <= i < texts(list).len() && texts(list)[i] == name;
        assert(list[i]@ == name);
    }
}

/// Names of the variables an account's fields map onto, per vendor.
pub struct CredentialVars {
    /// The configuration directory, and so the login: `CLAUDE_CONFIG_DIR` or `CODEX_HOME`.
    pub config_dir: &'static str,
    /// The API key.
    pub api_key: &'static str,
    /// A bearer token, which only Anthropic's CLI reads.
    pub auth_token: Option<&'static str>,
    /// The endpoint, whose presence means the vendor's own window is not what is being spent.
    pub base_url: &'static str,
}

/// The variable that holds each vendor's configuration directory.
pub open spec fn config_dir_var(vendor: Vendor) -> Seq<char> {
    match vendor {
        Vendor::Claude => "CLAUDE_CONFIG_DIR"@,
        Vendor::Codex => "CODEX_HOME"@,
    }
}

/// The variable that holds each vendor's API key.
pub open spec fn api_key_var(vendor: Vendor) -> Seq<char> {
    match vendor {
        Vendor::Claude => "ANTHROPIC_API_KEY"@,
        Vendor::Codex => "OPENAI_API_KEY"@,
    }
}

/// The variable that holds each vendor's endpoint.
pub open spec fn base_url_var(vendor: Vendor) -> Seq<char> {
    match vendor {
        Vendor::Claude => "ANTHROPIC_BASE_URL"@,
        Vendor::Codex => "OPENAI_BASE_URL"@,
    }
}

/// Names of the variables an account's fields map onto, per vendor.
pub fn credential_vars(vendor: Vendor) -> (r: CredentialVars)
    ensures
        r.config_dir@ == config_dir_var(vendor),
        r.api_key@ == api_key_var(vendor),
        r.base_url@ == base_url_var(vendor),
        r.auth_token is Some == (vendor == Vendor::Claude),
        r.auth_token matches Some(name) ==> name@ == "ANTHROPIC_AUTH_TOKEN"@,
{
    match vendor {
        Vendor::Claude => CredentialVars {
            config_dir: "CLAUDE_CONFIG_DIR",
            api_key: "ANTHROPIC_API_KEY",
            auth_token: Some("ANTHROPIC_AUTH_TOKEN"),
            base_url: "ANTHROPIC_BASE_URL",
        },
        Vendor::Codex => CredentialVars {
            config_dir: "CODEX_HOME",
            api_key: "OPENAI_API_KEY",
            auth_token: None,
            base_url: "OPENAI_BASE_URL",
        },
    }
}

/// An argument and its value, where the value is there.
pub open spec fn flag(name: Seq<char>, value: Option<Seq<char>>) -> Seq<Seq<char>> {
    match value {
        Some(value) => seq![name, value],
        None => Seq::empty(),
    }
}

/// Argument vector for Anthropic's CLI.
///
/// Every flag here is load-bearing:
///
/// - `--output-format stream-json` with `--verbose`: `text` and `json` return only the *last*
///   assistant message, which is not the same thing as the answer.
/// - `--setting-sources ""`: loads no user, project or local settings, so no `Stop` hook can
///   reopen the finished turn.
/// - `--strict-mcp-config` with an empty config: keeps the delegate from re-entering agentmux.
/// - `--permission-mode plan` with an edit-free `--tools` list: a second opinion, not an edit.
/// - `--no-session-persistence` is deliberately **absent**.
///   It defeats `--resume`, and a consultation must stay open to a follow-up.
pub open spec fn claude_args_of(
    model: Seq<char>,
    effort: Option<Seq<char>>,
    resume: Option<Seq<char>>,
    isolation: Isolation,
) -> Seq<Seq<char>> {
    seq!["--print"@] + flag("--resume"@, resume) + seq!["--model"@, model] + flag(
        "--effort"@,
        effort,
    ) + seq![
        "--permission-mode"@,
        "plan"@,
        "--tools"@,
        CLAUDE_READ_ONLY_TOOLS@,
        "--output-format"@,
        "stream-json"@,
        "--verbose"@,
    ] + (if isolation == Isolation::Inherit {
        Seq::<Seq<char>>::empty()
    } else {
        seq![
            "--setting-sources"@,
            Seq::<char>::empty(),
            "--strict-mcp-config"@,
            "--mcp-config"@,
            EMPTY_MCP_CONFIG@,
        ]
    })
}

/// Argument vector for the Codex CLI.
///
/// - `--json`: without it stdout carries only the final answer and stays empty until the process
///   exits, so there is neither progress nor a recovery path.
/// - `-c features.hooks=false`: the structural hook defence on this side.
/// - `--ignore-user-config`: the isolation control.
///   It drops `$CODEX_HOME/config.toml`, and with it the machine's configured MCP servers.
/// - `--output-last-message`: written by the codex process rather than by the agent, so a
///   read-only sandbox does not block it.
/// - `resume` **rejects `--sandbox`** and exits 2.
///   The sandbox goes through `-c sandbox_mode` there instead.
///   Resume also does not inherit the original model, so model and effort are re-pinned on every
///   turn.
/// - `--ephemeral` is deliberately **absent**: it does not persist the session, which would make
///   a follow-up impossible.
/// - `-` makes Codex read the prompt from stdin.
pub open spec fn codex_args_of(
    model: Seq<char>,
    effort: Option<Seq<char>>,
    sandbox: CodexSandbox,
    resume: Option<Seq<char>>,
    last_message_path: Seq<char>,
    isolation: Isolation,
) -> Seq<Seq<char>> {
    seq!["exec"@] + flag("resume"@, resume) + seq![
        "--json"@,
        "--skip-git-repo-check"@,
        "--model"@,
        model,
    ] + flag(
        "--config"@,
        match effort {
            Some(effort) => Some("model_reasoning_effort=\""@ + effort + "\""@),
            None => None,
        },
    ) + (if isolation == Isolation::Inherit {
        Seq::<Seq<char>>::empty()
    } else {
        seq!["--ignore-user-config"@, "--config"@, "features.hooks=false"@]
    }) + (if resume is Some {
        seq!["--config"@, "sandbox_mode=\""@ + sandbox_name(sandbox) + "\""@]
    } else {
        seq!["--sandbox"@, sandbox_name(sandbox)]
    }) + seq!["--output-last-message"@, last_message_path, "-"@]
}

fn claude_args(
    model: &ModelId,
    effort: &Option<Effort>,
    plan: &TurnPlan<'_>,
    isolation: Isolation,
) -> (r: Vec<String>)
    ensures
        texts(r@) == claude_args_of(model@, effort_of(*effort), resume_of(*plan), isolation),
{
    let mut args: Vec<String> = Vec::new();
    assert(texts(args@) =~= Seq::empty());
    push_text(&mut args, "--print");
    if let Some(session) = plan.resume {
        push_text(&mut args, "--resume");
        push_text(&mut args, session.as_str());
    }
    push_text(&mut args, "--model");
    push_text(&mut args, model.as_str());
    // Absent when nobody named one: the flag would otherwise have to carry a value agentmux made
    // up, and the CLI's own default is the one thing that is never out of date.
    if let Some(effort) = effort {
        push_text(&mut args, "--effort");
        push_text(&mut args, effort.as_str());
    }
    push_text(&mut args, "--permission-mode");
    push_text(&mut args, "plan");
    push_text(&mut args, "--tools");
    push_text(&mut args, CLAUDE_READ_ONLY_TOOLS);
    push_text(&mut args, "--output-format");
    push_text(&mut args, "stream-json");
    push_text(&mut args, "--verbose");
    // Plan mode and the read-only tool list are not part of isolation and stay either way: what
    // the delegate may *do* is a separate question from whose configuration it loads.
    if !isolation.inherits() {
        push_text(&mut args, "--setting-sources");
        push_text(&mut args, String::new().as_str());
        push_text(&mut args, "--strict-mcp-config");
        push_text(&mut args, "--mcp-config");
        push_text(&mut args, EMPTY_MCP_CONFIG);
    }
    assert(texts(args@) =~= claude_args_of(
        model@,
        effort_of(*effort),
        resume_of(*plan),
        isolation,
    ));
    args
}

fn codex_args(
    model: &ModelId,
    effort: &Option<Effort>,
    sandbox: CodexSandbox,
    plan: &TurnPlan<'_>,
    isolation: Isolation,
) -> (r: Vec<String>)
    ensures
        texts(r@) == codex_args_of(
            model@,
            effort_of(*effort),
            sandbox,
            resume_of(*plan),
            plan.last_message_path@,
            isolation,
        ),
{
    let mut args: Vec<String> = Vec::new();
    assert(texts(args@) =~= Seq::empty());
    push_text(&mut args, "exec");
    if let Some(session) = plan.resume {
        push_text(&mut args, "resume");
        push_text(&mut args, session.as_str());
    }
    push_text(&mut args, "--json");
    push_text(&mut args, "--skip-git-repo-check");
    push_text(&mut args, "--model");
    push_text(&mut args, model.as_str());
    // `Effort` and the sandbox literals hold no quote or backslash, so a bare TOML basic string
    // needs no escaping.
    if let Some(effort) = effort {
        let mut setting = "model_reasoning_effort=\"".to_owned();
        setting.append(effort.as_str());
        setting.append("\"");
        push_text(&mut args, "--config");
        push_text(&mut args, setting.as_str());
    }
    if !isolation.inherits() {
        push_text(&mut args, "--ignore-user-config");
        // Redundant with `--ignore-user-config` for config-file hooks, and cheap insurance
        // against a hook reaching the delegate by any other route.
        push_text(&mut args, "--config");
        push_text(&mut args, "features.hooks=false");
    }
    if plan.resume.is_some() {
        let mut setting = "sandbox_mode=\"".to_owned();
        setting.append(sandbox.as_str());
        setting.append("\"");
        push_text(&mut args, "--config");
        push_text(&mut args, setting.as_str());
    } else {
        push_text(&mut args, "--sandbox");
        push_text(&mut args, sandbox.as_str());
    }
    push_text(&mut args, "--output-last-message");
    push_text(&mut args, plan.last_message_path);
    push_text(&mut args, "-");
    assert(texts(args@) =~= codex_args_of(
        model@,
        effort_of(*effort),
        sandbox,
        resume_of(*plan),
        plan.last_message_path@,
        isolation,
    ));
    args
}

/// The isolation a consultation actually runs under.
///
/// An explicit choice wins; otherwise the account decides, because settings live in an account's
/// own configuration directory and "use my personal account, with its hooks" is one thought rather
/// than two.
/// With neither, the answer is isolation.
///
/// An account chosen by a *project* file does not get to decide: such a file arrives with a
/// `git clone`, and while it may say which of the operator's accounts pays, letting it also switch
/// on that account's hooks and MCP servers would make a checkout a third way to change isolation.
pub open spec fn isolation_of(d: DelegateModel, config: ConfigModel) -> Isolation {
    let deciding = match d.account {
        Some(alias) => Some(alias),
        None => if chosen_by_checkout(config, d.vendor) {
            None
        } else {
            default_alias(config, d.vendor)
        },
    };
    match d.isolation {
        Some(isolation) => isolation,
        None => match deciding {
            Some(alias) => match account_at(config, d.vendor, alias) {
                Some(account) if account.inherit_settings == Some(true) => Isolation::Inherit,
                _ => Isolation::Isolated,
            },
            None => Isolation::Isolated,
        },
    }
}

/// Who chose the alias a launch resolves to.
#[derive(Debug, Clone, Copy, PartialEq, Eq, Structural)]
pub enum Chooser {
    /// The caller named it.
    Caller,
    /// The machine file names it as the default.
    Machine,
    /// A project file names it as the default.
    Project,
}

/// Which alias a launch resolves to, and who chose it.
pub struct Selection {
    /// The alias.
    pub alias: AccountAlias,
    /// Who chose it.
    pub chooser: Chooser,
}

/// The alias a launch resolves to: the caller's, else the configured default, else none.
///
/// A caller that names no account gets the machine's or the checkout's chosen default, which is
/// the only thing a project file is allowed to say.
pub open spec fn selection_of(
    vendor: Vendor,
    requested: Option<Seq<char>>,
    config: ConfigModel,
) -> Result<Option<(Seq<char>, Chooser)>, DelegateErrorModel> {
    match requested {
        Some(alias) => Ok(Some((alias, Chooser::Caller))),
        None => match default_alias(config, vendor) {
            None => Ok(None),
            Some(alias) => match token_error(
                "account"@,
                alias,
                AccountAlias::MAX_LEN as nat,
                Alphabet::Alias,
            ) {
                Some(error) => Err(error),
                None => Ok(
                    Some(
                        (
                            alias,
                            if chosen_by_checkout(config, vendor) {
                                Chooser::Project
                            } else {
                                Chooser::Machine
                            },
                        ),
                    ),
                ),
            },
        },
    }
}

/// What a selection that may be absent says.
pub open spec fn selected(selection: Option<Selection>) -> Option<(Seq<char>, Chooser)> {
    match selection {
        Some(s) => Some((s.alias@, s.chooser)),
        None => None,
    }
}

fn select_alias(vendor: Vendor, requested: Option<&AccountAlias>, config: &Config) -> (r: Result<
    Option<Selection>,
    DelegateError,
>)
    ensures
        r matches Ok(selection) ==> selection_of(
            vendor,
            match requested {
                Some(alias) => Some(alias@),
                None => None,
            },
            config@,
        ) == Ok::<_, DelegateErrorModel>(selected(selection)),
        r matches Err(error) ==> selection_of(
            vendor,
            match requested {
                Some(alias) => Some(alias@),
                None => None,
            },
            config@,
        ) == Err::<Option<(Seq<char>, Chooser)>, _>(error@),
{
    if let Some(alias) = requested {
        return Ok(Some(Selection { alias: alias.clone(), chooser: Chooser::Caller }));
    }
    match config.default_account(vendor) {
        None => Ok(None),
        Some(default) => match AccountAlias::parse(default.alias) {
            Err(error) => Err(error),
            Ok(alias) => Ok(
                Some(
                    Selection {
                        alias,
                        chooser: match default.chosen_by {
                            ChosenBy::Machine(_) => Chooser::Machine,
                            ChosenBy::Project(_) => Chooser::Project,
                        },
                    },
                ),
            ),
        },
    }
}

/// An environment without some names.
pub open spec fn withheld(env: Map<Seq<char>, Seq<char>>, names: Seq<Seq<char>>) -> Map<
    Seq<char>,
    Seq<char>,
>
    decreases names.len(),
{
    if names.len() == 0 {
        env
    } else {
        withheld(env, names.drop_last()).remove(names.last())
    }
}

fn withhold(env: &mut TextMap<String>, names: &Vec<String>)
    ensures
        final(env)@ == withheld(old(env)@, texts(names@)),
{
    let ghost start = env@;
    let ghost all = texts(names@);
    let mut i: usize = 0;
    assert(all.take(0) =~= Seq::empty());
    while i < names.len()
        invariant
            i <= names.len(),
            all == texts(names@),
            env@ == withheld(start, all.take(i as int)),
        decreases names.len() - i,
    {
        assert(all.take(i + 1).drop_last() =~= all.take(i as int));
        assert(all.take(i + 1).last() == names@[i as int]@);
        env.remove(names[i].as_str());
        i = i + 1;
    }
    assert(all.take(i as int) =~= all);
}

/// How a host variable that an account reads and that is not set is told.
pub open spec fn unset_text(
    programs: ProgramsModel,
    vendor: Vendor,
    alias: Seq<char>,
    field: Seq<char>,
    name: Seq<char>,
) -> Seq<char> {
    "the "@ + program_of(programs, vendor) + " account `"@ + alias + "` reads "@ + field + " from $"@ + name
        + ", which is not set in the environment agentmux was launched with."@
}

/// A credential written into the file, or named as a host variable.
///
/// A variable wins over a literal, and one that is not set is an error rather than a fallback.
pub open spec fn credential_value(
    programs: ProgramsModel,
    literal: Option<Seq<char>>,
    from_env: Option<Seq<char>>,
    host: Map<Seq<char>, Seq<char>>,
    vendor: Vendor,
    alias: Seq<char>,
    field: Seq<char>,
) -> Result<Option<Seq<char>>, DelegateErrorModel> {
    match from_env {
        Some(name) => if host.contains_key(name) {
            Ok(Some(host[name]))
        } else {
            Err(DelegateErrorModel::Environment(unset_text(programs, vendor, alias, field, name)))
        },
        None => Ok(literal),
    }
}

fn secret_value(
    programs: &Programs,
    literal: &Option<Secret>,
    from_env: &Option<String>,
    host_env: &TextMap<String>,
    vendor: Vendor,
    alias: &AccountAlias,
    field: &'static str,
) -> (r: Result<Option<String>, DelegateError>)
    ensures
        r matches Ok(value) ==> credential_value(
            programs@,
            secret_of(*literal),
            text_of(*from_env),
            host_env@,
            vendor,
            alias@,
            field@,
        ) == Ok::<_, DelegateErrorModel>(text_of(value)),
        r matches Err(error) ==> credential_value(
            programs@,
            secret_of(*literal),
            text_of(*from_env),
            host_env@,
            vendor,
            alias@,
            field@,
        ) == Err::<Option<Seq<char>>, _>(error@),
{
    if let Some(name) = from_env {
        return match host_env.get(name.as_str()) {
            Some(value) => Ok(Some(value.clone())),
            None => {
                let mut out = "the ".to_owned();
                out.append(vendor.program(programs));
                out.append(" account `");
                out.append(alias.as_str());
                out.append("` reads ");
                out.append(field);
                out.append(" from $");
                out.append(name.as_str());
                out.append(", which is not set in the environment agentmux was launched with.");
                Err(DelegateError::Environment(out))
            },
        };
    }
    match literal {
        Some(secret) => Ok(Some(secret.expose().to_owned())),
        None => Ok(None),
    }
}

/// An environment with a value put under a name, where there is one.
pub open spec fn with_value(
    env: Map<Seq<char>, Seq<char>>,
    name: Seq<char>,
    value: Option<Seq<char>>,
) -> Map<Seq<char>, Seq<char>> {
    match value {
        Some(value) => env.insert(name, value),
        None => env,
    }
}

/// The configuration directory an account names, as a path.
pub open spec fn account_dir_of(
    account: AccountModel,
    host: Map<Seq<char>, Seq<char>>,
    platform: Platform,
) -> Option<Seq<char>> {
    match account.config_dir {
        Some(dir) => Some(expanded(platform, dir, home_of(host))),
        None => None,
    }
}

/// How an auth token on an account of the other vendor is told.
pub open spec fn token_text(
    programs: ProgramsModel,
    vendor: Vendor,
    alias: Seq<char>,
) -> Seq<char> {
    "the "@ + program_of(programs, vendor) + " account `"@ + alias
        + "` sets an auth token, which only the "@ + program_of(programs, Vendor::Claude)
        + " CLI reads. Use `api_key` or `api_key_env` instead."@
}

/// An environment with one account's fields under the variables its CLI reads.
///
/// A missing directory is refused here rather than left to the CLI: both vendors happily create a
/// fresh config directory and then report "Not logged in", which sends the caller looking at their
/// credentials instead of at the path that was wrong.
pub open spec fn with_credentials(
    programs: ProgramsModel,
    env: Map<Seq<char>, Seq<char>>,
    vendor: Vendor,
    alias: Seq<char>,
    account: AccountModel,
    host: Map<Seq<char>, Seq<char>>,
    platform: Platform,
    dir_exists: bool,
) -> Result<Map<Seq<char>, Seq<char>>, DelegateErrorModel> {
    let dir = account_dir_of(account, host, platform);
    let key = credential_value(
        programs,
        account.api_key,
        account.api_key_env,
        host,
        vendor,
        alias,
        "api_key"@,
    );
    let token = credential_value(
        programs,
        account.auth_token,
        account.auth_token_env,
        host,
        vendor,
        alias,
        "auth_token"@,
    );
    if dir is Some && !dir_exists {
        Err(DelegateErrorModel::AccountDirMissing { vendor, alias, path: dir->Some_0 })
    } else {
        match key {
            Err(error) => Err(error),
            Ok(key) => match token {
                Err(error) => Err(error),
                Ok(token) => if token is Some && vendor != Vendor::Claude {
                    Err(DelegateErrorModel::Environment(token_text(programs, vendor, alias)))
                } else {
                    Ok(
                        with_value(
                            with_value(
                                with_value(
                                    with_value(env, config_dir_var(vendor), dir),
                                    api_key_var(vendor),
                                    key,
                                ),
                                "ANTHROPIC_AUTH_TOKEN"@,
                                token,
                            ),
                            base_url_var(vendor),
                            account.base_url,
                        ),
                    )
                },
            },
        }
    }
}

fn apply_credentials(
    programs: &Programs,
    env: &mut TextMap<String>,
    vendor: Vendor,
    alias: &AccountAlias,
    account: &Account,
    host_env: &TextMap<String>,
    platform: Platform,
    dir_exists: bool,
) -> (r: Result<(), DelegateError>)
    ensures
        r is Ok ==> with_credentials(
            programs@,
            old(env)@,
            vendor,
            alias@,
            account@,
            host_env@,
            platform,
            dir_exists,
        ) == Ok::<_, DelegateErrorModel>(final(env)@),
        r matches Err(error) ==> with_credentials(
            programs@,
            old(env)@,
            vendor,
            alias@,
            account@,
            host_env@,
            platform,
            dir_exists,
        ) == Err::<Map<Seq<char>, Seq<char>>, _>(error@),
{
    let vars = credential_vars(vendor);
    let home = home_dir(host_env);
    if let Some(dir) = &account.config_dir {
        let resolved = expand_tilde(
            platform,
            dir.as_str(),
            match &home {
                Some(home) => Some(home.as_str()),
                None => None,
            },
        );
        if !dir_exists {
            return Err(
                DelegateError::AccountDirMissing {
                    vendor,
                    alias: alias.as_str().to_owned(),
                    path: resolved,
                },
            );
        }
        env.insert(vars.config_dir, resolved);
    }
    match secret_value(programs, &account.api_key, &account.api_key_env, host_env, vendor, alias, "api_key") {
        Err(error) => return Err(error),
        Ok(Some(key)) => env.insert(vars.api_key, key),
        Ok(None) => {},
    }
    match secret_value(
        programs,
        &account.auth_token,
        &account.auth_token_env,
        host_env,
        vendor,
        alias,
        "auth_token",
    ) {
        Err(error) => return Err(error),
        Ok(Some(token)) => match vars.auth_token {
            Some(name) => env.insert(name, token),
            None => {
                let mut out = "the ".to_owned();
                out.append(vendor.program(programs));
                out.append(" account `");
                out.append(alias.as_str());
                out.append("` sets an auth token, which only the ");
                out.append(Vendor::Claude.program(programs));
                out.append(" CLI reads. Use `api_key` or `api_key_env` instead.");
                return Err(DelegateError::Environment(out));
            },
        },
        Ok(None) => {},
    }
    if let Some(base) = &account.base_url {
        env.insert(vars.base_url, base.clone());
    }
    Ok(())
}

/// How an account that is configured but empty is told.
pub open spec fn empty_account_text(
    programs: ProgramsModel,
    vendor: Vendor,
    alias: Seq<char>,
) -> Seq<char> {
    "the "@ + program_of(programs, vendor) + " account `"@ + alias
        + "` is configured but empty. Give it a `config_dir`, an `api_key`, an `api_key_env` or a `base_url`."@
}

/// The file that chose an alias the caller did not name.
pub open spec fn chooser_file(config: ConfigModel, chooser: Chooser) -> Option<Seq<char>> {
    match chooser {
        Chooser::Project => config.project_source,
        Chooser::Machine => config.source,
        Chooser::Caller => None,
    }
}

/// An environment with the identity of a selection put into it.
///
/// With no alias the host's own credential variables are forwarded and the CLI uses its default
/// configuration.
/// With one they are withheld, whoever put them there: left in place the host's own key would
/// outrank the account's login and the caller would believe it had switched accounts while
/// spending the other one.
pub open spec fn with_account_env(
    env: Map<Seq<char>, Seq<char>>,
    vendor: Vendor,
    selection: Option<(Seq<char>, Chooser)>,
    config: ConfigModel,
    host: Map<Seq<char>, Seq<char>>,
    platform: Platform,
    dir_exists: bool,
) -> Result<Map<Seq<char>, Seq<char>>, DelegateErrorModel> {
    match selection {
        None => Ok(forwarded(env, credential_names(vendor), host)),
        Some((alias, chooser)) => match account_at(config, vendor, alias) {
            None => Err(
                DelegateErrorModel::UnknownAccount {
                    vendor,
                    alias,
                    configured: keys_of(in_order(accounts_of(config, vendor))),
                    config_path: config.source,
                    selected_by: chooser_file(config, chooser),
                },
            ),
            Some(account) => if account == no_account() {
                Err(
                    DelegateErrorModel::Environment(
                        empty_account_text(config.programs, vendor, alias),
                    ),
                )
            } else {
                match with_credentials(
                    config.programs,
                    withheld(env, credential_names(vendor)),
                    vendor,
                    alias,
                    account,
                    host,
                    platform,
                    dir_exists,
                ) {
                    Err(error) => Err(error),
                    Ok(env) => Ok(layered(env, account.launch, host)),
                }
            },
        },
    }
}

fn apply_account<'c>(
    env: &mut TextMap<String>,
    vendor: Vendor,
    selection: &Option<Selection>,
    config: &'c Config,
    host_env: &TextMap<String>,
    platform: Platform,
    dir_exists: bool,
) -> (r: Result<Option<&'c Account>, DelegateError>)
    ensures
        r matches Ok(account) ==> {
            &&& with_account_env(
                old(env)@,
                vendor,
                selected(*selection),
                config@,
                host_env@,
                platform,
                dir_exists,
            ) == Ok::<_, DelegateErrorModel>(final(env)@)
            &&& account is Some == *selection is Some
            &&& account matches Some(a) ==> account_at(
                config@,
                vendor,
                (*selection)->Some_0.alias@,
            ) == Some(a@)
        },
        r matches Err(error) ==> with_account_env(
            old(env)@,
            vendor,
            selected(*selection),
            config@,
            host_env@,
            platform,
            dir_exists,
        ) == Err::<Map<Seq<char>, Seq<char>>, _>(error@),
{
    let keys = credential_keys(vendor);
    let selection = match selection {
        None => {
            forward(env, &keys, host_env);
            return Ok(None);
        },
        Some(selection) => selection,
    };
    withhold(env, &keys);
    let alias = &selection.alias;
    let account = match config.account(vendor, alias.as_str()) {
        Some(account) => account,
        None => return Err(
            DelegateError::UnknownAccount {
                vendor,
                alias: alias.as_str().to_owned(),
                configured: config.alias_names(vendor),
                config_path: config.source.clone(),
                selected_by: match selection.chooser {
                    Chooser::Project => config.project_source.clone(),
                    Chooser::Machine => config.source.clone(),
                    Chooser::Caller => None,
                },
            },
        ),
    };
    if account.is_empty() {
        let mut out = "the ".to_owned();
        out.append(vendor.program(&config.programs));
        out.append(" account `");
        out.append(alias.as_str());
        out.append(
            "` is configured but empty. Give it a `config_dir`, an `api_key`, an `api_key_env` or a `base_url`.",
        );
        return Err(DelegateError::Environment(out));
    }
    if let Err(error) = apply_credentials(
        &config.programs,
        env,
        vendor,
        alias,
        account,
        host_env,
        platform,
        dir_exists,
    ) {
        return Err(error);
    }
    account.launch.apply(env, host_env);
    Ok(Some(account))
}

/// The layers below a request: who the delegate is, and the environment that makes it so.
pub struct Identity<'c> {
    /// The environment, complete but for the request's own names and the recursion marker.
    pub env: TextMap<String>,
    /// The account that was applied, when one was.
    pub account: Option<&'c Account>,
    /// Whether that account was the checkout's choice rather than the machine's or the caller's.
    pub chosen_by_project: bool,
}

/// What an [`Identity`] says.
#[verifier::ext_equal]
pub struct IdentityModel {
    /// The environment.
    pub env: Map<Seq<char>, Seq<char>>,
    /// The account that was applied.
    pub account: Option<AccountModel>,
    /// Whether the checkout chose it.
    pub chosen_by_project: bool,
}

/// What an identity says.
pub open spec fn identity_model(identity: Identity<'_>) -> IdentityModel {
    IdentityModel {
        env: identity.env@,
        account: match identity.account {
            Some(account) => Some(account@),
            None => None,
        },
        chosen_by_project: identity.chosen_by_project,
    }
}

/// The identity a delegate of one vendor runs as, with or without a named account.
///
/// The checkout's choice is known by the alias, whoever else named it: a consultation records the
/// alias it resolved to, so a follow-up asks for it by name, and a caller told by the checkout's
/// own instructions to name it is the checkout's choice too.
pub open spec fn identity_of(
    vendor: Vendor,
    requested: Option<Seq<char>>,
    config: ConfigModel,
    host: Map<Seq<char>, Seq<char>>,
    platform: Platform,
    dir_exists: bool,
) -> Result<IdentityModel, DelegateErrorModel> {
    let env = layered(base_env_of(platform, host), config.launch, host);
    match selection_of(vendor, requested, config) {
        Err(error) => Err(error),
        Ok(selection) => match with_account_env(
            env,
            vendor,
            selection,
            config,
            host,
            platform,
            dir_exists,
        ) {
            Err(error) => Err(error),
            Ok(env) => Ok(
                IdentityModel {
                    env,
                    account: match selection {
                        Some((alias, _)) => account_at(config, vendor, alias),
                        None => None,
                    },
                    chosen_by_project: selection matches Some((alias, _)) && chosen_by_checkout(
                        config,
                        vendor,
                    ) && default_alias(config, vendor) == Some(alias),
                },
            ),
        },
    }
}

/// Resolve the identity a delegate of one vendor runs as, with or without a named account.
///
/// `dir_exists` says whether the directory of [`account_dir`] is there.
pub fn resolve_identity<'c>(
    vendor: Vendor,
    alias: Option<&AccountAlias>,
    config: &'c Config,
    host_env: &TextMap<String>,
    platform: Platform,
    dir_exists: bool,
) -> (r: Result<Identity<'c>, DelegateError>)
    ensures
        r matches Ok(identity) ==> identity_of(
            vendor,
            match alias {
                Some(alias) => Some(alias@),
                None => None,
            },
            config@,
            host_env@,
            platform,
            dir_exists,
        ) == Ok::<_, DelegateErrorModel>(identity_model(identity)),
        r matches Err(error) ==> identity_of(
            vendor,
            match alias {
                Some(alias) => Some(alias@),
                None => None,
            },
            config@,
            host_env@,
            platform,
            dir_exists,
        ) == Err::<IdentityModel, _>(error@),
{
    let mut env = base_env(platform, host_env);
    // The machine-wide layer, before any account chooses an identity.
    config.launch.apply(&mut env, host_env);
    let selection = match select_alias(vendor, alias, config) {
        Ok(selection) => selection,
        Err(error) => return Err(error),
    };
    let chosen_by_project = match &selection {
        Some(selection) => match config.default_account(vendor) {
            Some(default) => match default.chosen_by {
                ChosenBy::Project(_) => same(default.alias, selection.alias.as_str()),
                ChosenBy::Machine(_) => false,
            },
            None => false,
        },
        None => false,
    };
    match apply_account(&mut env, vendor, &selection, config, host_env, platform, dir_exists) {
        Ok(account) => Ok(Identity { env, account, chosen_by_project }),
        Err(error) => Err(error),
    }
}

/// The directory that has to be there for a selection, where its account names one.
pub open spec fn needed_dir(
    vendor: Vendor,
    requested: Option<Seq<char>>,
    config: ConfigModel,
    host: Map<Seq<char>, Seq<char>>,
    platform: Platform,
) -> Option<Seq<char>> {
    match selection_of(vendor, requested, config) {
        Ok(Some((alias, _))) => match account_at(config, vendor, alias) {
            Some(account) => account_dir_of(account, host, platform),
            None => None,
        },
        _ => None,
    }
}

/// The directory that has to be there for a delegate to run as an account, where one is named.
pub fn account_dir(
    vendor: Vendor,
    alias: Option<&AccountAlias>,
    config: &Config,
    host_env: &TextMap<String>,
    platform: Platform,
) -> (r: Option<String>)
    ensures
        text_of(r) == needed_dir(
            vendor,
            match alias {
                Some(alias) => Some(alias@),
                None => None,
            },
            config@,
            host_env@,
            platform,
        ),
{
    let selection = match select_alias(vendor, alias, config) {
        Ok(Some(selection)) => selection,
        Ok(None) => return None,
        Err(_) => return None,
    };
    match config.account(vendor, selection.alias.as_str()) {
        Some(account) => match &account.config_dir {
            Some(dir) => {
                let home = home_dir(host_env);
                Some(
                    expand_tilde(
                        platform,
                        dir.as_str(),
                        match &home {
                            Some(home) => Some(home.as_str()),
                            None => None,
                        },
                    ),
                )
            },
            None => None,
        },
        None => None,
    }
}

/// How a name that a request may not set is told.
pub open spec fn refused_name_text(name: Seq<char>, allowed: Seq<Seq<char>>) -> Seq<char> {
    "`"@ + name
        + "` cannot be set per request: a request may only set the names agentmux.toml lists under `request_env`"@
        + (if allowed.len() == 0 {
        ", and this machine lists none"@
    } else {
        " ("@ + joined(allowed, ", "@) + ")"@
    })
        + ". Standing settings belong in an account or in `[launch]`, which no request can reach."@
}

/// What is wrong with one entry of a request's environment.
pub open spec fn request_error(
    platform: Platform,
    name: Seq<char>,
    value: Seq<char>,
    allowed: Seq<Seq<char>>,
) -> Option<DelegateErrorModel> {
    match env_name_fault(name) {
        Some(reason) => Some(
            DelegateErrorModel::Argument { field: "env"@, reason, value: name },
        ),
        None => if value.contains('\0') {
            Some(
                DelegateErrorModel::Argument {
                    field: "env"@,
                    reason: "has a value containing a NUL byte, which no environment can carry"@,
                    value: name,
                },
            )
        } else if !allowed.contains(canonical_name(platform, name)) {
            Some(DelegateErrorModel::Environment(refused_name_text(name, allowed)))
        } else {
            None
        },
    }
}

/// What is wrong with a request's environment.
pub open spec fn requested_error(
    platform: Platform,
    requested: Map<Seq<char>, Seq<char>>,
    allowed: Seq<Seq<char>>,
) -> Option<DelegateErrorModel> {
    first_error(
        in_order(requested).map_values(
            |e: (Seq<char>, Seq<char>)| request_error(platform, e.0, e.1, allowed),
        ),
    )
}

/// An environment with the entries of a request put over it, under the platform's spelling.
pub open spec fn with_request(
    platform: Platform,
    env: Map<Seq<char>, Seq<char>>,
    entries: Seq<(Seq<char>, Seq<char>)>,
) -> Map<Seq<char>, Seq<char>>
    decreases entries.len(),
{
    if entries.len() == 0 {
        env
    } else {
        with_request(platform, env, entries.drop_last()).insert(
            canonical_name(platform, entries.last().0),
            entries.last().1,
        )
    }
}

/// Apply the environment the caller asked for on this one consultation.
///
/// Accepts only names the machine's configuration lists under `request_env`, and nothing by
/// default.
/// The caller here is frequently another model acting on text it was given.
/// No list of names to refuse stays complete against that, so the operator lists the names to
/// accept instead, in a file no request can reach.
fn apply_request_env(
    platform: Platform,
    env: &mut TextMap<String>,
    requested: &TextMap<String>,
    allowed: &Vec<String>,
) -> (r: Result<(), DelegateError>)
    ensures
        r is Ok ==> requested_error(platform, requested@, texts(allowed@)) is None && final(env)@
            == with_request(platform, old(env)@, in_order(requested@)),
        r matches Err(error) ==> requested_error(platform, requested@, texts(allowed@)) == Some(
            error@,
        ),
{
    let n: usize = requested.len();
    let ghost start = env@;
    let ghost p = requested.pairs();
    let ghost names = texts(allowed@);
    let ghost errors = p.map_values(
        |e: (Seq<char>, Seq<char>)| request_error(platform, e.0, e.1, names),
    );
    let mut i: usize = 0;
    assert(p.take(0) =~= Seq::empty());
    while i < n
        invariant
            i <= n,
            n == p.len(),
            p == requested.pairs(),
            in_order(requested@) == p,
            names == texts(allowed@),
            errors == p.map_values(
                |e: (Seq<char>, Seq<char>)| request_error(platform, e.0, e.1, names),
            ),
            forall|k: int| 0 <= k < i ==> (#[trigger] errors[k]) is None,
            env@ == with_request(platform, start, p.take(i as int)),
        decreases n - i,
    {
        assert(errors[i as int] == request_error(platform, p[i as int].0, p[i as int].1, names));
        assert(p.take(i + 1).drop_last() =~= p.take(i as int));
        let name = requested.key_at(i).as_str();
        let value = requested.value_at(i);
        if let Err(reason) = check_env_name(name) {
            proof {
                lemma_first_error(errors, i as int);
            }
            return Err(
                DelegateError::Argument { field: "env", reason, value: name.to_owned() },
            );
        }
        if holds_char(value.as_str(), '\0') {
            proof {
                lemma_first_error(errors, i as int);
            }
            return Err(
                DelegateError::Argument {
                    field: "env",
                    reason: "has a value containing a NUL byte, which no environment can carry",
                    value: name.to_owned(),
                },
            );
        }
        // Spelled the way the platform reads it, like every name in the allowlist, so `path`
        // cannot slip past an allowlist that says `PATH` is not on it where the two are one
        // variable.
        let canonical = canonical_env_name(platform, name);
        proof {
            lemma_listed(allowed@, canonical@);
        }
        if !list_holds(allowed, canonical.as_str()) {
            proof {
                lemma_first_error(errors, i as int);
            }
            let mut out = "`".to_owned();
            out.append(name);
            out.append(
                "` cannot be set per request: a request may only set the names agentmux.toml lists under `request_env`",
            );
            if allowed.len() == 0 {
                out.append(", and this machine lists none");
            } else {
                let mut list = " (".to_owned();
                list.append(join(allowed, ", ").as_str());
                list.append(")");
                out.append(list.as_str());
            }
            out.append(
                ". Standing settings belong in an account or in `[launch]`, which no request can reach.",
            );
            return Err(DelegateError::Environment(out));
        }
        env.insert(canonical.as_str(), value.clone());
        i = i + 1;
    }
    proof {
        lemma_first_error(errors, errors.len() as int);
        assert(p.take(i as int) =~= p);
    }
    Ok(())
}

/// The names a request may set: the machine's, and the account's own unless a checkout chose it.
///
/// A checkout that selects an account is allowed to say which account pays, and nothing more; the
/// names a request may set are policy the same checkout's instructions could otherwise steer a
/// caller into using.
pub open spec fn allowed_names(config: ConfigModel, identity: IdentityModel) -> Seq<Seq<char>> {
    config.launch.request_env + (match identity.account {
        Some(account) if !identity.chosen_by_project => account.launch.request_env,
        _ => Seq::empty(),
    })
}

/// The argument vector of a delegate.
pub open spec fn args_of(
    d: DelegateModel,
    resume: Option<Seq<char>>,
    last_message_path: Seq<char>,
    isolation: Isolation,
) -> Seq<Seq<char>> {
    match d.sandbox {
        Some(sandbox) => codex_args_of(
            d.model,
            d.effort,
            sandbox,
            resume,
            last_message_path,
            isolation,
        ),
        None => claude_args_of(d.model, d.effort, resume, isolation),
    }
}

/// The child process for one turn, or why there is none.
pub open spec fn invocation_of(
    d: DelegateModel,
    resume: Option<Seq<char>>,
    last_message_path: Seq<char>,
    extra_env: Map<Seq<char>, Seq<char>>,
    config: ConfigModel,
    host: Map<Seq<char>, Seq<char>>,
    platform: Platform,
    dir_exists: bool,
) -> Result<InvocationModel, DelegateErrorModel> {
    match identity_of(d.vendor, d.account, config, host, platform, dir_exists) {
        Err(error) => Err(error),
        Ok(identity) => match requested_error(
            platform,
            extra_env,
            allowed_names(config, identity),
        ) {
            Some(error) => Err(error),
            None => Ok(
                InvocationModel {
                    program: program_of(config.programs, d.vendor),
                    args: args_of(d, resume, last_message_path, isolation_of(d, config)),
                    env: with_request(platform, identity.env, in_order(extra_env)).insert(
                        DELEGATE_MARKER@,
                        "1"@,
                    ),
                },
            ),
        },
    }
}

impl Delegate {
    /// The isolation this delegate would run under, given the machine's configuration.
    pub fn resolved_isolation(&self, config: &Config) -> (r: Isolation)
        ensures
            r == isolation_of(self@, config@),
    {
        let vendor = self.vendor();
        if let Some(isolation) = self.isolation() {
            return isolation;
        }
        let account = match self.account() {
            Some(alias) => config.account(vendor, alias.as_str()),
            None => match config.default_account(vendor) {
                Some(default) => match default.chosen_by {
                    ChosenBy::Project(_) => return Isolation::Isolated,
                    ChosenBy::Machine(_) => config.account(vendor, default.alias),
                },
                None => return Isolation::Isolated,
            },
        };
        match account {
            Some(account) => match account.inherit_settings {
                Some(true) => Isolation::Inherit,
                _ => Isolation::Isolated,
            },
            None => Isolation::Isolated,
        }
    }

    /// Build the child process for one turn.
    ///
    /// `host_env` is the environment agentmux itself was launched with; only the variables named
    /// in the allowlists are carried into the child.
    /// `dir_exists` says whether the directory of [`account_dir`] is there.
    ///
    /// Fails for an alias the configuration does not define, for one whose directory is not
    /// there, for an account that is empty or reads a secret from a host variable that is not
    /// set, and for a request environment entry the configuration does not allow.
    pub fn invocation(
        &self,
        plan: &TurnPlan<'_>,
        host_env: &TextMap<String>,
        config: &Config,
        platform: Platform,
        dir_exists: bool,
    ) -> (r: Result<Invocation, DelegateError>)
        ensures
            r matches Ok(invocation) ==> invocation_of(
                self@,
                resume_of(*plan),
                plan.last_message_path@,
                plan.extra_env@,
                config@,
                host_env@,
                platform,
                dir_exists,
            ) == Ok::<_, DelegateErrorModel>(invocation@),
            r matches Err(error) ==> invocation_of(
                self@,
                resume_of(*plan),
                plan.last_message_path@,
                plan.extra_env@,
                config@,
                host_env@,
                platform,
                dir_exists,
            ) == Err::<InvocationModel, _>(error@),
    {
        let identity = match resolve_identity(
            self.vendor(),
            self.account(),
            config,
            host_env,
            platform,
            dir_exists,
        ) {
            Ok(identity) => identity,
            Err(error) => return Err(error),
        };
        let ghost who = identity_model(identity);
        let isolation = self.resolved_isolation(config);
        let args = match self {
            Delegate::Claude { model, effort, .. } => claude_args(model, effort, plan, isolation),
            Delegate::Codex { model, effort, sandbox, .. } => codex_args(
                model,
                effort,
                *sandbox,
                plan,
                isolation,
            ),
        };
        let mut allowed: Vec<String> = Vec::new();
        push_all(&mut allowed, &config.launch.request_env);
        if let Some(account) = identity.account {
            if !identity.chosen_by_project {
                push_all(&mut allowed, &account.launch.request_env);
            }
        }
        assert(texts(allowed@) =~= allowed_names(config@, who));
        let mut env = identity.env;
        if let Err(error) = apply_request_env(platform, &mut env, plan.extra_env, &allowed) {
            return Err(error);
        }
        // The recursion guard, set last so no layer can change even its value.
        // An isolated delegate cannot reach agentmux because it loads no MCP servers, but an
        // inheriting one loads the operator's own — and if agentmux is among them, a delegate can
        // consult a delegate until something runs out.
        env.insert(DELEGATE_MARKER, "1".to_owned());
        Ok(Invocation { program: self.vendor().program(&config.programs).to_owned(), args, env })
    }

    /// The environment that decides which identity this delegate runs as.
    ///
    /// The machine's launch layer and the account's own, over the base every child starts from,
    /// and nothing a request adds.
    /// Anything that needs to know what a delegate would authenticate as reads it from here, so it
    /// cannot disagree with the launch.
    pub fn identity_env(
        &self,
        host_env: &TextMap<String>,
        config: &Config,
        platform: Platform,
        dir_exists: bool,
    ) -> (r: Result<TextMap<String>, DelegateError>)
        ensures
            r matches Ok(env) ==> (identity_of(
                self@.vendor,
                self@.account,
                config@,
                host_env@,
                platform,
                dir_exists,
            ) matches Ok(identity) && identity.env == env@),
            r matches Err(error) ==> identity_of(
                self@.vendor,
                self@.account,
                config@,
                host_env@,
                platform,
                dir_exists,
            ) == Err::<IdentityModel, _>(error@),
    {
        match resolve_identity(
            self.vendor(),
            self.account(),
            config,
            host_env,
            platform,
            dir_exists,
        ) {
            Ok(identity) => Ok(identity.env),
            Err(error) => Err(error),
        }
    }
}

/// Whether the values a request sets can only go under names that are allowed.
proof fn lemma_request_keys(
    platform: Platform,
    env: Map<Seq<char>, Seq<char>>,
    entries: Seq<(Seq<char>, Seq<char>)>,
    allowed: Seq<Seq<char>>,
    k: Seq<char>,
)
    requires
        forall|i: int|
            0 <= i < entries.len() ==> request_error(
                platform,
                (#[trigger] entries[i]).0,
                entries[i].1,
                allowed,
            ) is None,
        !allowed.contains(k),
    ensures
        with_request(platform, env, entries).contains_key(k) == env.contains_key(k),
        env.contains_key(k) ==> with_request(platform, env, entries)[k] == env[k],
    decreases entries.len(),
{
    if entries.len() > 0 {
        assert forall|i: int| 0 <= i < entries.drop_last().len() implies request_error(
            platform,
            (#[trigger] entries.drop_last()[i]).0,
            entries.drop_last()[i].1,
            allowed,
        ) is None by {
            assert(entries.drop_last()[i] == entries[i]);
        }
        lemma_request_keys(platform, env, entries.drop_last(), allowed, k);
        let last = entries[entries.len() - 1];
        assert(request_error(platform, last.0, last.1, allowed) is None);
    }
}

/// A request sets only what it may: under any name that the configuration does not allow, the
/// child sees what the identity alone gives it.
pub proof fn a_request_sets_only_allowed_names(
    d: DelegateModel,
    resume: Option<Seq<char>>,
    last_message_path: Seq<char>,
    extra_env: Map<Seq<char>, Seq<char>>,
    config: ConfigModel,
    host: Map<Seq<char>, Seq<char>>,
    platform: Platform,
    dir_exists: bool,
    k: Seq<char>,
)
    requires
        invocation_of(
            d,
            resume,
            last_message_path,
            extra_env,
            config,
            host,
            platform,
            dir_exists,
        ) is Ok,
        identity_of(d.vendor, d.account, config, host, platform, dir_exists) matches Ok(identity)
            && !allowed_names(config, identity).contains(k),
        k != DELEGATE_MARKER@,
    ensures
        ({
            let child = invocation_of(
                d,
                resume,
                last_message_path,
                extra_env,
                config,
                host,
                platform,
                dir_exists,
            )->Ok_0.env;
            let own = identity_of(
                d.vendor,
                d.account,
                config,
                host,
                platform,
                dir_exists,
            )->Ok_0.env;
            child.contains_key(k) == own.contains_key(k) && (own.contains_key(k) ==> child[k]
                == own[k])
        }),
{
    let identity = identity_of(d.vendor, d.account, config, host, platform, dir_exists)->Ok_0;
    let allowed = allowed_names(config, identity);
    let p = in_order(extra_env);
    let errors = p.map_values(
        |e: (Seq<char>, Seq<char>)| request_error(platform, e.0, e.1, allowed),
    );
    assert forall|i: int| 0 <= i < p.len() implies request_error(
        platform,
        (#[trigger] p[i]).0,
        p[i].1,
        allowed,
    ) is None by {
        lemma_no_error(errors, i);
        assert(errors[i] == request_error(platform, p[i].0, p[i].1, allowed));
    }
    lemma_request_keys(platform, identity.env, p, allowed, k);
}

/// Every delegate is marked: whatever any layer says, the child finds itself underneath agentmux.
pub proof fn every_delegate_is_marked(
    d: DelegateModel,
    resume: Option<Seq<char>>,
    last_message_path: Seq<char>,
    extra_env: Map<Seq<char>, Seq<char>>,
    config: ConfigModel,
    host: Map<Seq<char>, Seq<char>>,
    platform: Platform,
    dir_exists: bool,
)
    ensures
        invocation_of(
            d,
            resume,
            last_message_path,
            extra_env,
            config,
            host,
            platform,
            dir_exists,
        ) matches Ok(child) ==> child.env.contains_key(DELEGATE_MARKER@)
            && child.env[DELEGATE_MARKER@] == "1"@,
{
}

/// What forwarding adds is what it names.
pub proof fn lemma_forwarded_keys(
    target: Map<Seq<char>, Seq<char>>,
    names: Seq<Seq<char>>,
    host: Map<Seq<char>, Seq<char>>,
    k: Seq<char>,
)
    ensures
        forwarded(target, names, host).contains_key(k) ==> target.contains_key(k)
            || names.contains(k),
        !names.contains(k) ==> forwarded(target, names, host).contains_key(k)
            == target.contains_key(k),
    decreases names.len(),
{
    if names.len() > 0 {
        lemma_forwarded_keys(target, names.drop_last(), host, k);
        if names.drop_last().contains(k) {
            let i = choose|i: int| 0 <= i < names.drop_last().len() && names.drop_last()[i] == k;
            assert(names[i] == k);
        }
        assert(names[names.len() - 1] == names.last());
    }
}

/// What is withheld is gone, and nothing else is.
pub proof fn lemma_withheld_keys(
    env: Map<Seq<char>, Seq<char>>,
    names: Seq<Seq<char>>,
    k: Seq<char>,
)
    ensures
        withheld(env, names).contains_key(k) == (env.contains_key(k) && !names.contains(k)),
    decreases names.len(),
{
    if names.len() > 0 {
        lemma_withheld_keys(env, names.drop_last(), k);
        if names.drop_last().contains(k) {
            let i = choose|i: int| 0 <= i < names.drop_last().len() && names.drop_last()[i] == k;
            assert(names[i] == k);
        }
        if names.contains(k) && !names.drop_last().contains(k) {
            let i = choose|i: int| 0 <= i < names.len() && names[i] == k;
            if i < names.len() - 1 {
                assert(names.drop_last()[i] == k);
            }
        }
        assert(names[names.len() - 1] == names.last());
    }
}

/// Whether an account itself says what goes under a name.
pub open spec fn account_sets(vendor: Vendor, account: AccountModel, k: Seq<char>) -> bool {
    ||| k == config_dir_var(vendor) && account.config_dir is Some
    ||| k == api_key_var(vendor) && (account.api_key is Some || account.api_key_env is Some)
    ||| k == "ANTHROPIC_AUTH_TOKEN"@ && (account.auth_token is Some || account.auth_token_env
        is Some)
    ||| k == base_url_var(vendor) && account.base_url is Some
    ||| account.launch.env.contains_key(k)
    ||| account.launch.env_passthrough.contains(k)
}

/// Choosing an account withholds the vendor's credential variables: one of them reaches the child
/// only where the account itself says so, whatever the host exports and whatever the machine's
/// launch layer forwards.
pub proof fn an_account_withholds_host_credentials(
    vendor: Vendor,
    requested: Option<Seq<char>>,
    config: ConfigModel,
    host: Map<Seq<char>, Seq<char>>,
    platform: Platform,
    dir_exists: bool,
    k: Seq<char>,
)
    requires
        identity_of(vendor, requested, config, host, platform, dir_exists) matches Ok(identity)
            && identity.account is Some && identity.env.contains_key(k),
        credential_names(vendor).contains(k),
    ensures
        account_sets(
            vendor,
            identity_of(vendor, requested, config, host, platform, dir_exists)->Ok_0.account->Some_0,
            k,
        ),
{
    let identity = identity_of(vendor, requested, config, host, platform, dir_exists)->Ok_0;
    let selection = selection_of(vendor, requested, config)->Ok_0->Some_0;
    let account = identity.account->Some_0;
    let start = layered(base_env_of(platform, host), config.launch, host);
    let bare = withheld(start, credential_names(vendor));
    lemma_withheld_keys(start, credential_names(vendor), k);
    let own = with_credentials(
        config.programs,
        bare,
        vendor,
        selection.0,
        account,
        host,
        platform,
        dir_exists,
    )->Ok_0;
    lemma_forwarded_keys(own, account.launch.env_passthrough, host, k);
}

/// Whether some layer accounts for a name in the child's environment.
pub open spec fn accounted_for(
    vendor: Vendor,
    config: ConfigModel,
    identity: IdentityModel,
    platform: Platform,
    k: Seq<char>,
) -> bool {
    ||| base_names(platform).map_values(
        |name: Seq<char>| canonical_name(platform, name),
    ).contains(k)
    ||| k == "TERM"@ || k == "NO_COLOR"@ || k == "CI"@
    ||| config.launch.env.contains_key(k)
    ||| config.launch.env_passthrough.contains(k)
    ||| identity.account is None && credential_names(vendor).contains(k)
    ||| identity.account is Some && account_sets(vendor, identity.account->Some_0, k)
}

/// The child environment is an allowlist built from empty: every name in it is one that the base
/// list, the machine's launch layer, the vendor's credential list or the account accounts for, one
/// that a request may set, or the marker.
pub proof fn the_child_environment_is_an_allowlist(
    d: DelegateModel,
    resume: Option<Seq<char>>,
    last_message_path: Seq<char>,
    extra_env: Map<Seq<char>, Seq<char>>,
    config: ConfigModel,
    host: Map<Seq<char>, Seq<char>>,
    platform: Platform,
    dir_exists: bool,
    k: Seq<char>,
)
    requires
        invocation_of(
            d,
            resume,
            last_message_path,
            extra_env,
            config,
            host,
            platform,
            dir_exists,
        ) matches Ok(child) && child.env.contains_key(k),
    ensures
        identity_of(d.vendor, d.account, config, host, platform, dir_exists) matches Ok(identity)
            && (k == DELEGATE_MARKER@ || allowed_names(config, identity).contains(k)
            || accounted_for(d.vendor, config, identity, platform, k)),
{
    let identity = identity_of(d.vendor, d.account, config, host, platform, dir_exists)->Ok_0;
    if k != DELEGATE_MARKER@ && !allowed_names(config, identity).contains(k) {
        a_request_sets_only_allowed_names(
            d,
            resume,
            last_message_path,
            extra_env,
            config,
            host,
            platform,
            dir_exists,
            k,
        );
        assert(identity.env.contains_key(k));
        let names = base_names(platform).map_values(
            |name: Seq<char>| canonical_name(platform, name),
        );
        lemma_forwarded_keys(Map::empty(), names, host, k);
        let base = base_env_of(platform, host);
        lemma_forwarded_keys(base, config.launch.env_passthrough, host, k);
        let start = layered(base, config.launch, host);
        match selection_of(d.vendor, d.account, config)->Ok_0 {
            None => {
                lemma_forwarded_keys(start, credential_names(d.vendor), host, k);
            },
            Some((alias, _)) => {
                let account = identity.account->Some_0;
                let bare = withheld(start, credential_names(d.vendor));
                lemma_withheld_keys(start, credential_names(d.vendor), k);
                let own = with_credentials(
                    config.programs,
                    bare,
                    d.vendor,
                    alias,
                    account,
                    host,
                    platform,
                    dir_exists,
                )->Ok_0;
                lemma_forwarded_keys(own, account.launch.env_passthrough, host, k);
            },
        }
    }
}

/// A checkout cannot change isolation or policy: where a project file chose the account and the
/// call says nothing of isolation, the delegate runs isolated, and the account brings no names of
/// its own that a request may set.
pub proof fn a_checkout_only_decides_who_pays(
    d: DelegateModel,
    config: ConfigModel,
    host: Map<Seq<char>, Seq<char>>,
    platform: Platform,
    dir_exists: bool,
)
    requires
        d.account is None,
        d.isolation is None,
        chosen_by_checkout(config, d.vendor),
        identity_of(d.vendor, d.account, config, host, platform, dir_exists) is Ok,
    ensures
        isolation_of(d, config) == Isolation::Isolated,
        allowed_names(
            config,
            identity_of(d.vendor, d.account, config, host, platform, dir_exists)->Ok_0,
        ) == config.launch.request_env,
{
    let identity = identity_of(d.vendor, d.account, config, host, platform, dir_exists)->Ok_0;
    assert(allowed_names(config, identity) =~= config.launch.request_env);
}

/// What a delegate may do does not depend on whose configuration it loads: every delegate of
/// Anthropic's runs in plan mode with the read-only tools, and streams; the flags that detach
/// settings, hooks and servers stand behind them exactly when it does not inherit.
pub proof fn isolation_only_adds_flags(
    model: Seq<char>,
    effort: Option<Seq<char>>,
    resume: Option<Seq<char>>,
)
    ensures
        claude_args_of(model, effort, resume, Isolation::Isolated) == claude_args_of(
            model,
            effort,
            resume,
            Isolation::Inherit,
        ) + seq![
            "--setting-sources"@,
            Seq::<char>::empty(),
            "--strict-mcp-config"@,
            "--mcp-config"@,
            EMPTY_MCP_CONFIG@,
        ],
        claude_args_of(model, effort, resume, Isolation::Inherit).skip(
            claude_args_of(model, effort, resume, Isolation::Inherit).len() - 7,
        ) == seq![
            "--permission-mode"@,
            "plan"@,
            "--tools"@,
            CLAUDE_READ_ONLY_TOOLS@,
            "--output-format"@,
            "stream-json"@,
            "--verbose"@,
        ],
{
    assert(claude_args_of(model, effort, resume, Isolation::Isolated) =~= claude_args_of(
        model,
        effort,
        resume,
        Isolation::Inherit,
    ) + seq![
        "--setting-sources"@,
        Seq::<char>::empty(),
        "--strict-mcp-config"@,
        "--mcp-config"@,
        EMPTY_MCP_CONFIG@,
    ]);
    assert(claude_args_of(model, effort, resume, Isolation::Inherit).skip(
        claude_args_of(model, effort, resume, Isolation::Inherit).len() - 7,
    ) =~= seq![
        "--permission-mode"@,
        "plan"@,
        "--tools"@,
        CLAUDE_READ_ONLY_TOOLS@,
        "--output-format"@,
        "stream-json"@,
        "--verbose"@,
    ]);
}

/// What a request puts under a name is there: no later entry of it is lost, unless another of its
/// names is the same name to the platform.
proof fn lemma_request_value(
    platform: Platform,
    env: Map<Seq<char>, Seq<char>>,
    entries: Seq<(Seq<char>, Seq<char>)>,
    i: int,
) -> (j: int)
    requires
        0 <= i < entries.len(),
    ensures
        i <= j < entries.len(),
        canonical_name(platform, entries[j].0) == canonical_name(platform, entries[i].0),
        with_request(platform, env, entries).contains_key(
            canonical_name(platform, entries[i].0),
        ),
        with_request(platform, env, entries)[canonical_name(platform, entries[i].0)]
            == entries[j].1,
    decreases entries.len(),
{
    let last = entries.len() - 1;
    if canonical_name(platform, entries[last].0) == canonical_name(platform, entries[i].0) {
        last
    } else {
        lemma_request_value(platform, env, entries.drop_last(), i)
    }
}

/// A request leaves alone what it does not name.
proof fn lemma_request_leaves(
    platform: Platform,
    env: Map<Seq<char>, Seq<char>>,
    entries: Seq<(Seq<char>, Seq<char>)>,
    k: Seq<char>,
)
    requires
        forall|i: int|
            0 <= i < entries.len() ==> canonical_name(platform, (#[trigger] entries[i]).0) != k,
    ensures
        with_request(platform, env, entries).contains_key(k) == env.contains_key(k),
        env.contains_key(k) ==> with_request(platform, env, entries)[k] == env[k],
    decreases entries.len(),
{
    if entries.len() > 0 {
        let init = entries.drop_last();
        assert forall|i: int| 0 <= i < init.len() implies canonical_name(
            platform,
            (#[trigger] init[i]).0,
        ) != k by {
            assert(init[i] == entries[i]);
        }
        lemma_request_leaves(platform, env, init, k);
        assert(canonical_name(platform, entries[entries.len() - 1].0) != k);
    }
}

/// Whether a request sets a variable, as the platform spells it.
pub open spec fn requests(
    platform: Platform,
    extra_env: Map<Seq<char>, Seq<char>>,
    k: Seq<char>,
) -> bool {
    exists|name: Seq<char>|
        #[trigger] extra_env.contains_key(name) && canonical_name(platform, name) == k
}

/// A call has the last word: what it asks for is what the child finds, over everything that the
/// machine and the account say.
pub proof fn a_request_overrides_every_layer(
    d: DelegateModel,
    resume: Option<Seq<char>>,
    last_message_path: Seq<char>,
    extra_env: Map<Seq<char>, Seq<char>>,
    config: ConfigModel,
    host: Map<Seq<char>, Seq<char>>,
    platform: Platform,
    dir_exists: bool,
    name: Seq<char>,
)
    requires
        walkable(extra_env),
        extra_env.contains_key(name),
        canonical_name(platform, name) != DELEGATE_MARKER@,
    ensures
        invocation_of(
            d,
            resume,
            last_message_path,
            extra_env,
            config,
            host,
            platform,
            dir_exists,
        ) matches Ok(child) ==> {
            let k = canonical_name(platform, name);
            &&& child.env.contains_key(k)
            &&& exists|other: Seq<char>| #[trigger]
                extra_env.contains_key(other) && canonical_name(platform, other) == k
                    && child.env[k] == extra_env[other]
            &&& platform == Platform::Unix ==> child.env[k] == extra_env[name]
        },
{
    let made = invocation_of(
        d,
        resume,
        last_message_path,
        extra_env,
        config,
        host,
        platform,
        dir_exists,
    );
    if made is Ok {
        let identity = identity_of(d.vendor, d.account, config, host, platform, dir_exists)->Ok_0;
        let p = in_order(extra_env);
        assert(map_of(p).contains_key(name));
        let i = choose|i: int| 0 <= i < p.len() && (#[trigger] p[i]).0 == name;
        let j = lemma_request_value(platform, identity.env, p, i);
        lemma_entry(p, j);
        assert(extra_env.contains_key(p[j].0));
        assert(made->Ok_0.env[canonical_name(platform, name)] == extra_env[p[j].0]);
    }
}

/// An account has its say over the machine: what its own layer sets is what the child finds,
/// unless the call asks for something else.
pub proof fn an_accounts_layer_overrides_the_machines(
    d: DelegateModel,
    resume: Option<Seq<char>>,
    last_message_path: Seq<char>,
    extra_env: Map<Seq<char>, Seq<char>>,
    config: ConfigModel,
    host: Map<Seq<char>, Seq<char>>,
    platform: Platform,
    dir_exists: bool,
    k: Seq<char>,
)
    requires
        walkable(extra_env),
        !requests(platform, extra_env, k),
        k != DELEGATE_MARKER@,
        identity_of(d.vendor, d.account, config, host, platform, dir_exists) matches Ok(identity)
            && identity.account is Some && identity.account->Some_0.launch.env.contains_key(k),
    ensures
        invocation_of(
            d,
            resume,
            last_message_path,
            extra_env,
            config,
            host,
            platform,
            dir_exists,
        ) matches Ok(child) ==> child.env.contains_key(k) && child.env[k] == identity_of(
            d.vendor,
            d.account,
            config,
            host,
            platform,
            dir_exists,
        )->Ok_0.account->Some_0.launch.env[k],
{
    let identity = identity_of(d.vendor, d.account, config, host, platform, dir_exists)->Ok_0;
    lemma_unrequested(platform, identity.env, extra_env, k);
}

/// What no entry of a request names keeps the value that the identity gives it.
pub proof fn lemma_unrequested(
    platform: Platform,
    env: Map<Seq<char>, Seq<char>>,
    extra_env: Map<Seq<char>, Seq<char>>,
    k: Seq<char>,
)
    requires
        walkable(extra_env),
        !requests(platform, extra_env, k),
    ensures
        with_request(platform, env, in_order(extra_env)).contains_key(k) == env.contains_key(k),
        env.contains_key(k) ==> with_request(platform, env, in_order(extra_env))[k] == env[k],
{
    let p = in_order(extra_env);
    assert forall|i: int| 0 <= i < p.len() implies canonical_name(platform, (#[trigger] p[i]).0)
        != k by {
        lemma_entry(p, i);
        assert(extra_env.contains_key(p[i].0));
    }
    lemma_request_leaves(platform, env, p, k);
}

/// The value of a variable that is not forwarded stays.
pub proof fn lemma_forwarded_leaves(
    target: Map<Seq<char>, Seq<char>>,
    names: Seq<Seq<char>>,
    host: Map<Seq<char>, Seq<char>>,
    k: Seq<char>,
)
    requires
        !names.contains(k),
        target.contains_key(k),
    ensures
        forwarded(target, names, host).contains_key(k),
        forwarded(target, names, host)[k] == target[k],
    decreases names.len(),
{
    if names.len() > 0 {
        let init = names.drop_last();
        if init.contains(k) {
            let i = choose|i: int| 0 <= i < init.len() && init[i] == k;
            assert(names[i] == k);
        }
        assert(names[names.len() - 1] != k);
        lemma_forwarded_leaves(target, init, host, k);
    }
}

/// The value of a variable that is not withheld stays.
pub proof fn lemma_withheld_leaves(
    env: Map<Seq<char>, Seq<char>>,
    names: Seq<Seq<char>>,
    k: Seq<char>,
)
    requires
        !names.contains(k),
        env.contains_key(k),
    ensures
        withheld(env, names).contains_key(k),
        withheld(env, names)[k] == env[k],
    decreases names.len(),
{
    if names.len() > 0 {
        let init = names.drop_last();
        if init.contains(k) {
            let i = choose|i: int| 0 <= i < init.len() && init[i] == k;
            assert(names[i] == k);
        }
        assert(names[names.len() - 1] != k);
        lemma_withheld_leaves(env, init, k);
    }
}

/// The machine has its say over what every child starts from: what its `[launch]` layer sets is
/// what the child finds, unless the account or the call says otherwise, or it is a credential
/// variable of the vendor, which belongs to whoever is chosen to pay.
pub proof fn the_machines_layer_overrides_the_base(
    d: DelegateModel,
    resume: Option<Seq<char>>,
    last_message_path: Seq<char>,
    extra_env: Map<Seq<char>, Seq<char>>,
    config: ConfigModel,
    host: Map<Seq<char>, Seq<char>>,
    platform: Platform,
    dir_exists: bool,
    k: Seq<char>,
)
    requires
        walkable(extra_env),
        config.launch.env.contains_key(k),
        !requests(platform, extra_env, k),
        k != DELEGATE_MARKER@,
        !credential_names(d.vendor).contains(k),
        identity_of(d.vendor, d.account, config, host, platform, dir_exists) matches Ok(identity)
            && (identity.account matches Some(account) ==> !account_sets(d.vendor, account, k)),
    ensures
        invocation_of(
            d,
            resume,
            last_message_path,
            extra_env,
            config,
            host,
            platform,
            dir_exists,
        ) matches Ok(child) ==> child.env.contains_key(k) && child.env[k] == config.launch.env[k],
{
    let identity = identity_of(d.vendor, d.account, config, host, platform, dir_exists)->Ok_0;
    lemma_unrequested(platform, identity.env, extra_env, k);
    let start = layered(base_env_of(platform, host), config.launch, host);
    match selection_of(d.vendor, d.account, config)->Ok_0 {
        None => {
            lemma_forwarded_leaves(start, credential_names(d.vendor), host, k);
        },
        Some((alias, _)) => {
            let account = identity.account->Some_0;
            lemma_withheld_leaves(start, credential_names(d.vendor), k);
            let own = with_credentials(
                config.programs,
                withheld(start, credential_names(d.vendor)),
                d.vendor,
                alias,
                account,
                host,
                platform,
                dir_exists,
            )->Ok_0;
            assert(own.contains_key(k) && own[k] == start[k]);
            lemma_forwarded_leaves(own, account.launch.env_passthrough, host, k);
        },
    }
}

/// A variable that is forwarded has the host's value.
pub proof fn lemma_forwarded_value(
    target: Map<Seq<char>, Seq<char>>,
    names: Seq<Seq<char>>,
    host: Map<Seq<char>, Seq<char>>,
    k: Seq<char>,
)
    requires
        names.contains(k),
        host.contains_key(k),
    ensures
        forwarded(target, names, host).contains_key(k),
        forwarded(target, names, host)[k] == host[k],
    decreases names.len(),
{
    let init = names.drop_last();
    if names.last() != k {
        let i = choose|i: int| 0 <= i < names.len() && names[i] == k;
        assert(init[i] == k);
        lemma_forwarded_value(target, init, host, k);
    }
}

/// With no account chosen by anyone the delegate is whoever the host is logged in as: each
/// credential variable of its vendor that the host exports reaches it as it is.
pub proof fn without_an_account_the_host_pays(
    vendor: Vendor,
    config: ConfigModel,
    host: Map<Seq<char>, Seq<char>>,
    platform: Platform,
    dir_exists: bool,
    k: Seq<char>,
)
    requires
        default_alias(config, vendor) is None,
        credential_names(vendor).contains(k),
        host.contains_key(k),
    ensures
        identity_of(vendor, None, config, host, platform, dir_exists) matches Ok(identity)
            && identity.account is None && identity.env.contains_key(k) && identity.env[k]
            == host[k],
{
    let start = layered(base_env_of(platform, host), config.launch, host);
    lemma_forwarded_value(start, credential_names(vendor), host, k);
}

/// A delegate of Anthropic's never follows the host's own session: the directory that the host
/// keeps its identity in reaches the child only where the machine's file forwards it or an account
/// names one.
pub proof fn the_hosts_session_is_not_followed(
    config: ConfigModel,
    host: Map<Seq<char>, Seq<char>>,
    platform: Platform,
    dir_exists: bool,
)
    requires
        default_alias(config, Vendor::Claude) is None,
        !config.launch.env.contains_key(config_dir_var(Vendor::Claude)),
        !config.launch.env_passthrough.contains(config_dir_var(Vendor::Claude)),
    ensures
        identity_of(Vendor::Claude, None, config, host, platform, dir_exists) matches Ok(identity)
            && !identity.env.contains_key(config_dir_var(Vendor::Claude)),
{
    let k = config_dir_var(Vendor::Claude);
    let names = base_names(platform).map_values(|name: Seq<char>| canonical_name(platform, name));
    reveal_strlit("CLAUDE_CONFIG_DIR");
    assert(!names.contains(k)) by {
        lemma_base_names_are_other(platform);
        if names.contains(k) {
            let i = choose|i: int| 0 <= i < names.len() && names[i] == k;
            assert(names[i] == canonical_name(platform, base_names(platform)[i]));
            assert(names[i].len() == base_names(platform)[i].len());
        }
    }
    reveal_strlit("TERM");
    reveal_strlit("NO_COLOR");
    reveal_strlit("CI");
    reveal_strlit("ANTHROPIC_API_KEY");
    reveal_strlit("ANTHROPIC_AUTH_TOKEN");
    reveal_strlit("ANTHROPIC_BASE_URL");
    assert(k[0] == 'C');
    assert(!credential_names(Vendor::Claude).contains(k)) by {
        assert("ANTHROPIC_API_KEY"@[0] == 'A');
        assert("ANTHROPIC_AUTH_TOKEN"@[0] == 'A');
        assert("ANTHROPIC_BASE_URL"@[0] == 'A');
    }
    lemma_forwarded_keys(Map::empty(), names, host, k);
    let base = base_env_of(platform, host);
    assert("TERM"@.len() == 4 && "NO_COLOR"@.len() == 8 && "CI"@.len() == 2 && k.len() == 17);
    assert(!base.contains_key(k));
    lemma_forwarded_keys(base, config.launch.env_passthrough, host, k);
    let start = layered(base, config.launch, host);
    lemma_forwarded_keys(start, credential_names(Vendor::Claude), host, k);
}

/// No variable that every child starts from has a name as long as that of the session directory.
proof fn lemma_base_names_are_other(platform: Platform)
    ensures
        forall|i: int|
            0 <= i < base_names(platform).len() ==> (#[trigger] base_names(platform)[i]).len()
                != 17,
{
    reveal_strlit("PATH");
    reveal_strlit("HOME");
    reveal_strlit("USER");
    reveal_strlit("LOGNAME");
    reveal_strlit("SHELL");
    reveal_strlit("LANG");
    reveal_strlit("LC_ALL");
    reveal_strlit("LC_CTYPE");
    reveal_strlit("TZ");
    reveal_strlit("TMPDIR");
    reveal_strlit("HTTP_PROXY");
    reveal_strlit("HTTPS_PROXY");
    reveal_strlit("NO_PROXY");
    reveal_strlit("http_proxy");
    reveal_strlit("https_proxy");
    reveal_strlit("no_proxy");
    reveal_strlit("SSL_CERT_FILE");
    reveal_strlit("SSL_CERT_DIR");
    reveal_strlit("NODE_EXTRA_CA_CERTS");
    reveal_strlit("SystemRoot");
    reveal_strlit("SystemDrive");
    reveal_strlit("windir");
    reveal_strlit("COMSPEC");
    reveal_strlit("PATHEXT");
    reveal_strlit("USERPROFILE");
    reveal_strlit("APPDATA");
    reveal_strlit("LOCALAPPDATA");
    reveal_strlit("PROGRAMDATA");
    reveal_strlit("TEMP");
    reveal_strlit("TMP");
    reveal_strlit("NUMBER_OF_PROCESSORS");
    reveal_strlit("PROCESSOR_ARCHITECTURE");
}

/// A name is passed on as it was given: whatever the model and the effort are called, the CLI is
/// handed exactly those words, on a first turn and on a resumed one.
pub proof fn names_are_passed_verbatim(
    d: DelegateModel,
    resume: Option<Seq<char>>,
    last_message_path: Seq<char>,
    isolation: Isolation,
)
    ensures
        exists|i: int|
            0 <= i && i + 1 < args_of(d, resume, last_message_path, isolation).len()
                && #[trigger] args_of(d, resume, last_message_path, isolation)[i] == "--model"@
                && args_of(d, resume, last_message_path, isolation)[i + 1] == d.model,
        d.effort matches Some(effort) ==> exists|i: int|
            0 <= i && i + 1 < args_of(d, resume, last_message_path, isolation).len()
                && #[trigger] args_of(d, resume, last_message_path, isolation)[i] == (
            if d.sandbox is None {
                "--effort"@
            } else {
                "--config"@
            }) && args_of(d, resume, last_message_path, isolation)[i + 1] == (
            if d.sandbox is None {
                effort
            } else {
                "model_reasoning_effort=\""@ + effort + "\""@
            }),
{
    let args = args_of(d, resume, last_message_path, isolation);
    let head: int = if resume is Some {
        3
    } else {
        1
    };
    let at: int = if d.sandbox is Some {
        head + 2
    } else {
        head
    };
    assert(args[at] == "--model"@);
    assert(args[at + 1] == d.model);
    if d.effort is Some {
        assert(args[at + 2] == (if d.sandbox is None {
            "--effort"@
        } else {
            "--config"@
        }));
        assert(args[at + 3] == (if d.sandbox is None {
            d.effort->Some_0
        } else {
            "model_reasoning_effort=\""@ + d.effort->Some_0 + "\""@
        }));
    }
}

/// What a Codex delegate may write does not depend on whose configuration it loads: the flags that
/// detach settings, hooks and servers are all that isolation adds, and the sandbox stands either
/// way.
pub proof fn codex_isolation_only_adds_flags(
    model: Seq<char>,
    effort: Option<Seq<char>>,
    sandbox: CodexSandbox,
    resume: Option<Seq<char>>,
    last_message_path: Seq<char>,
)
    ensures
        ({
            let isolated = codex_args_of(
                model,
                effort,
                sandbox,
                resume,
                last_message_path,
                Isolation::Isolated,
            );
            let inherit = codex_args_of(
                model,
                effort,
                sandbox,
                resume,
                last_message_path,
                Isolation::Inherit,
            );
            let rest = (if resume is Some {
                seq!["--config"@, "sandbox_mode=\""@ + sandbox_name(sandbox) + "\""@]
            } else {
                seq!["--sandbox"@, sandbox_name(sandbox)]
            }) + seq!["--output-last-message"@, last_message_path, "-"@];
            let shared = inherit.len() - rest.len();
            &&& 0 <= shared
            &&& inherit.skip(shared) == rest
            &&& isolated == inherit.take(shared) + seq![
                "--ignore-user-config"@,
                "--config"@,
                "features.hooks=false"@,
            ] + rest
        }),
{
    let isolated = codex_args_of(
        model,
        effort,
        sandbox,
        resume,
        last_message_path,
        Isolation::Isolated,
    );
    let inherit = codex_args_of(
        model,
        effort,
        sandbox,
        resume,
        last_message_path,
        Isolation::Inherit,
    );
    let rest = (if resume is Some {
        seq!["--config"@, "sandbox_mode=\""@ + sandbox_name(sandbox) + "\""@]
    } else {
        seq!["--sandbox"@, sandbox_name(sandbox)]
    }) + seq!["--output-last-message"@, last_message_path, "-"@];
    let shared = inherit.len() - rest.len();
    assert(inherit.skip(shared) =~= rest);
    assert(isolated =~= inherit.take(shared) + seq![
        "--ignore-user-config"@,
        "--config"@,
        "features.hooks=false"@,
    ] + rest);
}

} // verus!
