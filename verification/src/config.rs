//! What this machine offers a delegate: named accounts, and the environment launches run under.
//!
//! An agent asking for a second opinion knows it wants "the personal account"; it has no way to
//! know where that account's credentials live, and the answer differs on every machine.
//! This module is the indirection between the two, so a prompt that says `account: personal` works
//! unchanged on a laptop, a workstation and a CI box that each store it somewhere different.
//!
//! # Two files, two jobs
//!
//! A **machine** file defines accounts: paths, credentials, endpoints, environment.
//! It also holds the model rewrites — the machine's answer to "when something asks for *this*
//! model, run *that* one".
//! It is found only at fixed locations under the home directory, or at the one absolute path
//! `AGENTMUX_CONFIG` names.
//!
//! A **project** file is found by walking up from the delegate's working directory, so it can
//! arrive with a `git clone`.
//! It may *select* an account and nothing else.
//! Were it allowed to define one, a cloned repository could name an endpoint of its own and
//! forward the caller's real key to it on the first delegation.
//!
//! Both roles are read only from a file the current user owns and nobody else can write, because
//! either can change which identity a consultation runs as.

use vstd::prelude::*;
use vstd::string::*;

use crate::delegate::{
    program_of, token_fault, AccountAlias, Alphabet, Effort, ModelId, Programs, ProgramsModel, Vendor,
};
use crate::ordered::{in_order, lemma_one_more, map_of, walkable, TextMap};
use crate::path::{
    absolute, ancestors, ancestors_of, climbs, components_of, firm, has_parent_step, is_absolute,
    join_path, joined_path, lemma_firm_below, lemma_join_components, lemma_join_lies_under,
    lemma_lies_under_transitive, lies_under, plain, same_path, starts_with,
};
use crate::text::{
    ascii_lower, ascii_upper, chars_of, debug_quoted, decimal, holds_char, lemma_texts_push,
    lowercase, number, quoted, same, str_of, text_of, texts, to_uppercase, uppercase,
};

pub use crate::path::expand_tilde;

verus! {

/// Environment variable holding an explicit path to the configuration file.
pub const CONFIG_PATH_ENV: &'static str = "AGENTMUX_CONFIG";

/// The file name looked for, in both roles.
pub const FILE_NAME: &'static str = "agentmux.toml";

/// Whose rules for paths and for environment names apply.
#[derive(Debug, Clone, Copy, PartialEq, Eq, Structural)]
pub enum Platform {
    /// Paths are divided by `/`, and names are read exactly.
    Unix,
    /// Paths may begin with a drive or a share, and names are read without regard to case.
    Windows,
}

/// Why a configuration file could not be loaded.
#[derive(Debug, PartialEq, Eq)]
pub enum ConfigError {
    /// The file exists but is not readable.
    Unreadable {
        /// The file that could not be read.
        path: String,
        /// The underlying I/O failure, in the system's words.
        source: String,
    },
    /// The file exists but is not valid TOML, or does not match the expected shape.
    ///
    /// Carries the parser's message and position but not the parser's error, whose own rendering
    /// quotes the offending source line — and the offending line of this file is as likely as
    /// not to hold a key.
    Malformed {
        /// The file that could not be parsed.
        path: String,
        /// What the parser objected to.
        message: String,
        /// Where in the file, as a byte offset, when the parser knows.
        offset: Option<usize>,
    },
    /// An alias or environment name in the file is not one agentmux can use.
    InvalidName {
        /// The file.
        path: String,
        /// What kind of name it was.
        what: &'static str,
        /// The name as written.
        value: String,
        /// What is wrong with it.
        reason: &'static str,
    },
    /// A project file tried to define an account, a launch environment or a model rewrite,
    /// rather than select an account.
    ProjectFileOversteps {
        /// The offending file.
        path: String,
    },
    /// A model rewrite names a model the same file rewrites again.
    ChainedRewrite {
        /// The file.
        path: String,
        /// The identifier a caller would ask for.
        from: String,
        /// What it is rewritten to, which is itself rewritten.
        to: String,
    },
    /// A configuration file another user could have written was found.
    Untrusted {
        /// The offending file.
        path: String,
        /// What is wrong with it.
        problem: &'static str,
    },
    /// [`CONFIG_PATH_ENV`] named a file that does not exist.
    ///
    /// Only an explicit path is an error when missing.
    MissingExplicit {
        /// The path that was named.
        path: String,
    },
    /// [`CONFIG_PATH_ENV`] named a relative path.
    ///
    /// A relative path would resolve against whatever directory agentmux happens to run in, which
    /// under an MCP host is the project — and a project must not be able to supply the machine
    /// file.
    RelativeExplicit {
        /// The path that was named.
        path: String,
    },
}

/// What a [`ConfigError`] says.
#[verifier::ext_equal]
pub enum ConfigErrorModel {
    /// Not readable.
    Unreadable {
        /// The file.
        path: Seq<char>,
        /// The failure.
        source: Seq<char>,
    },
    /// Not valid.
    Malformed {
        /// The file.
        path: Seq<char>,
        /// The objection.
        message: Seq<char>,
        /// Where.
        offset: Option<usize>,
    },
    /// A name that cannot be used.
    InvalidName {
        /// The file.
        path: Seq<char>,
        /// What kind of name.
        what: Seq<char>,
        /// The name.
        value: Seq<char>,
        /// What is wrong with it.
        reason: Seq<char>,
    },
    /// A project file that defines something.
    ProjectFileOversteps {
        /// The file.
        path: Seq<char>,
    },
    /// A rewrite of a rewrite.
    ChainedRewrite {
        /// The file.
        path: Seq<char>,
        /// What is asked for.
        from: Seq<char>,
        /// What it is rewritten to.
        to: Seq<char>,
    },
    /// A file another user could have written.
    Untrusted {
        /// The file.
        path: Seq<char>,
        /// What is wrong with it.
        problem: Seq<char>,
    },
    /// An explicit path that is not there.
    MissingExplicit {
        /// The path.
        path: Seq<char>,
    },
    /// An explicit path that is relative.
    RelativeExplicit {
        /// The path.
        path: Seq<char>,
    },
}

impl View for ConfigError {
    type V = ConfigErrorModel;

    open spec fn view(&self) -> ConfigErrorModel {
        match self {
            ConfigError::Unreadable { path, source } => ConfigErrorModel::Unreadable {
                path: path@,
                source: source@,
            },
            ConfigError::Malformed { path, message, offset } => ConfigErrorModel::Malformed {
                path: path@,
                message: message@,
                offset: *offset,
            },
            ConfigError::InvalidName { path, what, value, reason } =>
                ConfigErrorModel::InvalidName {
                path: path@,
                what: what@,
                value: value@,
                reason: reason@,
            },
            ConfigError::ProjectFileOversteps { path } =>
                ConfigErrorModel::ProjectFileOversteps { path: path@ },
            ConfigError::ChainedRewrite { path, from, to } => ConfigErrorModel::ChainedRewrite {
                path: path@,
                from: from@,
                to: to@,
            },
            ConfigError::Untrusted { path, problem } => ConfigErrorModel::Untrusted {
                path: path@,
                problem: problem@,
            },
            ConfigError::MissingExplicit { path } => ConfigErrorModel::MissingExplicit {
                path: path@,
            },
            ConfigError::RelativeExplicit { path } => ConfigErrorModel::RelativeExplicit {
                path: path@,
            },
        }
    }
}

/// Where a parse failed, when the parser knows it.
pub open spec fn offset_text(offset: Option<usize>) -> Seq<char> {
    match offset {
        Some(at) => " (at byte "@ + decimal(at as nat) + " of the file)"@,
        None => Seq::empty(),
    }
}

/// How a [`ConfigError`] reads.
pub open spec fn config_error_text(error: ConfigErrorModel) -> Seq<char> {
    match error {
        ConfigErrorModel::Unreadable { path, source } => "cannot read the agentmux config at "@
            + path + ": "@ + source,
        ConfigErrorModel::Malformed { path, message, offset } => "the agentmux config at "@ + path
            + " is not valid"@ + offset_text(offset) + ": "@ + message,
        ConfigErrorModel::InvalidName { path, what, value, reason } => "the agentmux config at "@
            + path + " names "@ + what + " "@ + debug_quoted(value) + ", which "@ + reason,
        ConfigErrorModel::ProjectFileOversteps { path } => path
            + " defines accounts, model rewrites or a [launch] environment, and a project agentmux.toml may only select an account with [defaults.<vendor>]. Move the definitions to your machine configuration: a file that travels with a repository must not be able to name a credential, an endpoint, an environment variable, or which model your questions are answered by."@,
        ConfigErrorModel::ChainedRewrite { path, from, to } => "the agentmux config at "@ + path
            + " rewrites the model "@ + debug_quoted(from) + " to "@ + debug_quoted(to)
            + ", which it rewrites again. A rewrite is one substitution, never a chain, so this rule does not do what it reads as: name the identifier you want run on both lines."@,
        ConfigErrorModel::Untrusted { path, problem } => path + " "@ + problem
            + ", and it can name commands, endpoints and credentials. Make it owned by you and writable only by you (`chmod go-w "@
            + path + "`) before agentmux will read it."@,
        ConfigErrorModel::MissingExplicit { path } => CONFIG_PATH_ENV@ + " points at "@ + path
            + ", which does not exist"@,
        ConfigErrorModel::RelativeExplicit { path } => CONFIG_PATH_ENV@
            + " must be an absolute path, not "@ + path,
    }
}

/// The byte offset of a parse failure, when the parser knows it.
fn describe_offset(offset: Option<usize>) -> (r: String)
    ensures
        r@ == offset_text(offset),
{
    match offset {
        Some(at) => {
            let mut out = " (at byte ".to_owned();
            out.append(number(at as u64).as_str());
            out.append(" of the file)");
            out
        },
        None => String::new(),
    }
}

impl ConfigError {
    /// The error as a caller reads it.
    pub fn message(&self) -> (r: String)
        ensures
            r@ == config_error_text(self@),
    {
        match self {
            ConfigError::Unreadable { path, source } => {
                let mut out = "cannot read the agentmux config at ".to_owned();
                out.append(path.as_str());
                out.append(": ");
                out.append(source.as_str());
                out
            },
            ConfigError::Malformed { path, message, offset } => {
                let mut out = "the agentmux config at ".to_owned();
                out.append(path.as_str());
                out.append(" is not valid");
                out.append(describe_offset(*offset).as_str());
                out.append(": ");
                out.append(message.as_str());
                out
            },
            ConfigError::InvalidName { path, what, value, reason } => {
                let mut out = "the agentmux config at ".to_owned();
                out.append(path.as_str());
                out.append(" names ");
                out.append(what);
                out.append(" ");
                out.append(quoted(value.as_str()).as_str());
                out.append(", which ");
                out.append(reason);
                out
            },
            ConfigError::ProjectFileOversteps { path } => {
                let mut out = path.clone();
                out.append(
                    " defines accounts, model rewrites or a [launch] environment, and a project agentmux.toml may only select an account with [defaults.<vendor>]. Move the definitions to your machine configuration: a file that travels with a repository must not be able to name a credential, an endpoint, an environment variable, or which model your questions are answered by.",
                );
                out
            },
            ConfigError::ChainedRewrite { path, from, to } => {
                let mut out = "the agentmux config at ".to_owned();
                out.append(path.as_str());
                out.append(" rewrites the model ");
                out.append(quoted(from.as_str()).as_str());
                out.append(" to ");
                out.append(quoted(to.as_str()).as_str());
                out.append(
                    ", which it rewrites again. A rewrite is one substitution, never a chain, so this rule does not do what it reads as: name the identifier you want run on both lines.",
                );
                out
            },
            ConfigError::Untrusted { path, problem } => {
                let mut out = path.clone();
                out.append(" ");
                out.append(problem);
                out.append(
                    ", and it can name commands, endpoints and credentials. Make it owned by you and writable only by you (`chmod go-w ",
                );
                out.append(path.as_str());
                out.append("`) before agentmux will read it.");
                out
            },
            ConfigError::MissingExplicit { path } => {
                let mut out = CONFIG_PATH_ENV.to_owned();
                out.append(" points at ");
                out.append(path.as_str());
                out.append(", which does not exist");
                out
            },
            ConfigError::RelativeExplicit { path } => {
                let mut out = CONFIG_PATH_ENV.to_owned();
                out.append(" must be an absolute path, not ");
                out.append(path.as_str());
                out
            },
        }
    }
}

/// A message with what stands between quotation marks blanked; `quoted` says whether the text
/// starts between two of them.
pub open spec fn blanked(message: Seq<char>, quoted: bool) -> Seq<char>
    decreases message.len(),
{
    if message.len() == 0 {
        Seq::empty()
    } else if message[0] == '"' {
        (if quoted {
            seq!['"']
        } else {
            seq!['"', '…']
        }) + blanked(message.drop_first(), !quoted)
    } else if quoted {
        blanked(message.drop_first(), quoted)
    } else {
        seq![message[0]] + blanked(message.drop_first(), quoted)
    }
}

/// A parser message with every quoted value blanked.
///
/// A message about the wrong kind of value repeats the value — `invalid type: string "…"` — and
/// in this file a value is as likely as not to be a key.
pub fn without_quoted_values(message: &str) -> (r: String)
    ensures
        r@ == blanked(message@, false),
{
    let chars = chars_of(message);
    let mut out = String::new();
    let mut quoted = false;
    let mut i: usize = 0;
    assert(chars@.skip(0) =~= chars@);
    assert(out@ + blanked(message@, false) =~= blanked(message@, false));
    while i < chars.len()
        invariant
            i <= chars.len(),
            chars@ == message@,
            out@ + blanked(chars@.skip(i as int), quoted) == blanked(message@, false),
        decreases chars.len() - i,
    {
        let c = chars[i];
        let ghost had = out@;
        let ghost rest = chars@.skip(i as int);
        assert(rest[0] == c);
        assert(rest.drop_first() =~= chars@.skip(i + 1));
        let ghost tail_flip = blanked(chars@.skip(i + 1), !quoted);
        let ghost tail_keep = blanked(chars@.skip(i + 1), quoted);
        if c == '"' {
            quoted = !quoted;
            out.push('"');
            if quoted {
                out.push('…');
                assert(had + (seq!['"', '…'] + tail_flip) =~= out@ + tail_flip);
            } else {
                assert(had + (seq!['"'] + tail_flip) =~= out@ + tail_flip);
            }
        } else if !quoted {
            out.push(c);
            assert(had + (seq![c] + tail_keep) =~= out@ + tail_keep);
        }
        i = i + 1;
    }
    assert(chars@.skip(i as int) =~= Seq::empty());
    assert(out@ + Seq::<char>::empty() =~= out@);
    out
}

/// Whether a text leaves one between two quotation marks, given whether it started there.
pub open spec fn left_quoted(text: Seq<char>, quoted: bool) -> bool
    decreases text.len(),
{
    if text.len() == 0 {
        quoted
    } else {
        left_quoted(text.drop_first(), if text[0] == '"' {
            !quoted
        } else {
            quoted
        })
    }
}

proof fn lemma_blanked_concat(a: Seq<char>, b: Seq<char>, quoted: bool)
    ensures
        blanked(a + b, quoted) == blanked(a, quoted) + blanked(b, left_quoted(a, quoted)),
    decreases a.len(),
{
    if a.len() == 0 {
        assert(a + b =~= b);
        assert(blanked(a, quoted) + blanked(b, quoted) =~= blanked(b, quoted));
    } else {
        assert((a + b).drop_first() =~= a.drop_first() + b);
        let next = if a[0] == '"' {
            !quoted
        } else {
            quoted
        };
        lemma_blanked_concat(a.drop_first(), b, next);
        assert(blanked(a + b, quoted) =~= blanked(a, quoted) + blanked(b, left_quoted(a, quoted)));
    }
}

proof fn lemma_value_blanked(value: Seq<char>)
    requires
        !value.contains('"'),
    ensures
        blanked(value, true) == Seq::<char>::empty(),
        left_quoted(value, true),
    decreases value.len(),
{
    if value.len() > 0 {
        assert(value.contains(value[0]));
        assert forall|c: char| value.drop_first().contains(c) implies value.contains(c) by {
            let i = choose|i: int| 0 <= i < value.drop_first().len() && value.drop_first()[i] == c;
            assert(value[i + 1] == c);
        }
        lemma_value_blanked(value.drop_first());
    }
}

/// A quoted value never shows: with any other value between the same quotation marks the blanked
/// message is the same.
pub proof fn quoted_values_never_show(
    before: Seq<char>,
    value: Seq<char>,
    other: Seq<char>,
    after: Seq<char>,
)
    requires
        !left_quoted(before, false),
        !value.contains('"'),
        !other.contains('"'),
    ensures
        blanked(before + seq!['"'] + value + seq!['"'] + after, false) == blanked(
            before + seq!['"'] + other + seq!['"'] + after,
            false,
        ),
{
    lemma_value_blanked(value);
    lemma_value_blanked(other);
    let mark = seq!['"'];
    let opening = before + mark;
    lemma_blanked_concat(before, mark, false);
    lemma_left_quoted_concat(before, mark, false);
    assert(mark.drop_first() =~= Seq::empty());
    assert(left_quoted(mark, false)) by {
        reveal_with_fuel(left_quoted, 2);
    }
    assert(left_quoted(opening, false));
    let tail = mark + after;
    assert(before + mark + value + mark + after =~= opening + (value + tail));
    assert(before + mark + other + mark + after =~= opening + (other + tail));
    lemma_blanked_concat(opening, value + tail, false);
    lemma_blanked_concat(opening, other + tail, false);
    lemma_blanked_concat(value, tail, true);
    lemma_blanked_concat(other, tail, true);
}

proof fn lemma_left_quoted_concat(a: Seq<char>, b: Seq<char>, quoted: bool)
    ensures
        left_quoted(a + b, quoted) == left_quoted(b, left_quoted(a, quoted)),
    decreases a.len(),
{
    if a.len() == 0 {
        assert(a + b =~= b);
    } else {
        assert((a + b).drop_first() =~= a.drop_first() + b);
        let next = if a[0] == '"' {
            !quoted
        } else {
            quoted
        };
        lemma_left_quoted_concat(a.drop_first(), b, next);
    }
}

/// The keys of a configuration file, without the values they are set to.
pub enum KeyTree {
    /// A table, with its entries in the order of their keys.
    Table(Vec<KeyEntry>),
    /// A list of some number of values.
    List(usize),
    /// Any other value.
    Leaf,
}

/// One key of a table and what stands under it.
pub struct KeyEntry {
    /// The key.
    pub key: String,
    /// What stands under it.
    pub value: KeyTree,
}

/// Whether a value says nothing that an absent key would not say.
pub open spec fn says_nothing(value: KeyTree) -> bool {
    match value {
        KeyTree::Table(entries) => entries@.len() == 0,
        KeyTree::List(count) => count == 0,
        KeyTree::Leaf => false,
    }
}

/// The place of a key below a prefix.
pub open spec fn dotted(prefix: Seq<char>, key: Seq<char>) -> Seq<char> {
    if prefix.len() == 0 {
        key
    } else {
        prefix + "."@ + key
    }
}

/// The position of the first entry with a key, or the number of entries where there is none.
pub open spec fn position_of(entries: Seq<KeyEntry>, key: Seq<char>) -> int
    decreases entries.len(),
{
    if entries.len() == 0 || entries[0].key@ == key {
        0
    } else {
        1 + position_of(entries.drop_first(), key)
    }
}

/// The keys of `written` from position `from` on that `understood` does not hold, depth first.
///
/// A key whose value is an empty table or array is passed over: serialising drops an empty `env`
/// or `request_env`, so a file that spells one out would otherwise be told its own key is unknown.
pub open spec fn unknown_from(
    written: Seq<KeyEntry>,
    understood: Seq<KeyEntry>,
    prefix: Seq<char>,
    from: int,
) -> Seq<Seq<char>>
    decreases written, written.len() - from,
{
    if from < 0 || from >= written.len() {
        Seq::empty()
    } else {
        let entry = written[from];
        let place = dotted(prefix, entry.key@);
        let at = position_of(understood, entry.key@);
        let here = if 0 <= at < understood.len() {
            match (understood[at].value, entry.value) {
                (KeyTree::Table(known), KeyTree::Table(inner)) => unknown_from(
                    inner@,
                    known@,
                    place,
                    0,
                ),
                _ => Seq::empty(),
            }
        } else if says_nothing(entry.value) {
            Seq::empty()
        } else {
            seq![place]
        };
        here + unknown_from(written, understood, prefix, from + 1)
    }
}

fn is_empty_value(value: &KeyTree) -> (r: bool)
    ensures
        r == says_nothing(*value),
{
    match value {
        KeyTree::Table(entries) => entries.len() == 0,
        KeyTree::List(count) => *count == 0,
        KeyTree::Leaf => false,
    }
}

fn find_key(entries: &Vec<KeyEntry>, key: &str) -> (r: usize)
    ensures
        r == position_of(entries@, key@),
        r <= entries.len(),
{
    let mut i: usize = 0;
    assert(entries@.skip(0) =~= entries@);
    while i < entries.len()
        invariant
            i <= entries.len(),
            position_of(entries@, key@) == i + position_of(entries@.skip(i as int), key@),
        decreases entries.len() - i,
    {
        assert(entries@.skip(i as int)[0] == entries@[i as int]);
        assert(entries@.skip(i as int).drop_first() =~= entries@.skip(i + 1));
        if same(entries[i].key.as_str(), key) {
            return i;
        }
        i = i + 1;
    }
    i
}

/// Report every key of `written` that `understood` does not hold, depth first.
pub fn collect_unknown_keys(
    written: &Vec<KeyEntry>,
    understood: &Vec<KeyEntry>,
    prefix: &str,
) -> (r: Vec<String>)
    ensures
        texts(r@) == unknown_from(written@, understood@, prefix@, 0),
    decreases written,
{
    let mut found: Vec<String> = Vec::new();
    let mut i: usize = 0;
    let ghost all = unknown_from(written@, understood@, prefix@, 0);
    assert(texts(found@) + all =~= all);
    while i < written.len()
        invariant
            i <= written.len(),
            all == unknown_from(written@, understood@, prefix@, 0),
            texts(found@) + unknown_from(written@, understood@, prefix@, i as int) == all,
        decreases written.len() - i,
    {
        let entry = &written[i];
        let ghost had = texts(found@);
        let ghost rest = unknown_from(written@, understood@, prefix@, i + 1);
        let place = if prefix.is_empty() {
            entry.key.clone()
        } else {
            let mut place = prefix.to_owned();
            place.append(".");
            place.append(entry.key.as_str());
            place
        };
        assert(place@ == dotted(prefix@, entry.key@));
        let at: usize = find_key(understood, entry.key.as_str());
        let ghost mut here = Seq::<Seq<char>>::empty();
        if at < understood.len() {
            if let KeyTree::Table(known) = &understood[at].value {
                if let KeyTree::Table(inner) = &entry.value {
                    let mut below = collect_unknown_keys(inner, known, place.as_str());
                    proof {
                        here = texts(below@);
                        assert(texts(found@ + below@) =~= had + here);
                    }
                    found.append(&mut below);
                }
            }
        } else if !is_empty_value(&entry.value) {
            proof {
                lemma_texts_push(found@, place);
                here = seq![place@];
                assert(had.push(place@) =~= had + here);
            }
            found.push(place);
        }
        proof {
            assert(texts(found@) =~= had + here);
            assert(unknown_from(written@, understood@, prefix@, i as int) =~= here + rest);
            assert(had + (here + rest) =~= (had + here) + rest);
        }
        i = i + 1;
    }
    assert(texts(found@) + Seq::<Seq<char>>::empty() =~= texts(found@));
    found
}

/// A key a configuration file set that this build does not read.
///
/// Reported rather than refused, so that a file written for a newer agentmux still loads on an
/// older one.
/// The cost is that a misspelling is no longer fatal either — `configdir` for `config_dir` leaves
/// an account authenticating as the CLI's own login — which is why every reader of a
/// configuration says these out loud.
#[derive(Debug, PartialEq, Eq)]
pub struct UnknownKey {
    /// The file that set it.
    pub file: String,
    /// The dotted path to the key, as `accounts.codex.work.configdir`.
    pub key: String,
}

impl View for UnknownKey {
    type V = (Seq<char>, Seq<char>);

    open spec fn view(&self) -> (Seq<char>, Seq<char>) {
        (self.file@, self.key@)
    }
}

impl UnknownKey {
    /// The key as a reader is told of it.
    pub fn message(&self) -> (r: String)
        ensures
            r@ == self@.0 + " sets "@ + self@.1,
    {
        let mut out = self.file.clone();
        out.append(" sets ");
        out.append(self.key.as_str());
        out
    }
}

/// What a list of unknown keys says.
pub open spec fn unknown_of(list: Seq<UnknownKey>) -> Seq<(Seq<char>, Seq<char>)> {
    list.map_values(|k: UnknownKey| k@)
}

/// Which of a file's keys this build does not read.
///
/// `understood` is what the parsed configuration serialises back to, so the answer cannot drift
/// from the types.
pub fn unknown_keys(written: &Vec<KeyEntry>, understood: &Vec<KeyEntry>, path: &str) -> (r: Vec<
    UnknownKey,
>)
    ensures
        unknown_of(r@) == unknown_from(written@, understood@, ""@, 0).map_values(
            |key: Seq<char>| (path@, key),
        ),
{
    let found = collect_unknown_keys(written, understood, "");
    let mut out: Vec<UnknownKey> = Vec::new();
    let mut i: usize = 0;
    while i < found.len()
        invariant
            i <= found.len(),
            out@.len() == i,
            forall|j: int|
                0 <= j < i ==> (#[trigger] out@[j])@ == (path@, texts(found@)[j]),
        decreases found.len() - i,
    {
        assert(texts(found@)[i as int] == found@[i as int]@);
        out.push(UnknownKey { file: path.to_owned(), key: found[i].clone() });
        i = i + 1;
    }
    assert(unknown_of(out@) =~= texts(found@).map_values(|key: Seq<char>| (path@, key)));
    out
}

/// A value of a TOML document, as the `toml` crate holds it.
#[verifier::external_type_specification]
#[verifier::external_body]
pub struct ExTomlValue(toml::Value);

/// The keys that a TOML value holds, each with what kind of value stands under it, in the order in
/// which the `toml` crate walks them.
pub uninterp spec fn held_keys(value: toml::Value) -> Seq<KeyEntry>;

/// The keys of a text read as a TOML document, where it is one.
pub uninterp spec fn toml_keys_of(text: Seq<char>) -> Option<Seq<KeyEntry>>;

/// Calls `toml::Table`'s `FromStr`: a table where the text is a TOML document, and nothing where it
/// is not.
///
/// Which texts are documents, and which keys each holds, is the grammar of TOML and has a name here
/// rather than a definition.
#[verifier::external_body]
fn toml_table(text: &str) -> (r: Option<toml::Value>)
    ensures
        match r {
            Some(table) => toml_keys_of(text@) == Some(held_keys(table)),
            None => toml_keys_of(text@) is None,
        },
{
    text.parse::<toml::Table>().ok().map(toml::Value::Table)
}

/// Calls `toml::Table::iter`, in a table and in each table below it: every key, with the entries of
/// the table, the number of items of the array, or neither, that stands under it.
#[verifier::external_body]
fn toml_entries(value: &toml::Value) -> (r: Vec<KeyEntry>)
    ensures
        r@ == held_keys(*value),
{
    let entry = |(key, held): (&String, &toml::Value)| KeyEntry {
        key: key.clone(),
        value: match held {
            toml::Value::Table(_) => KeyTree::Table(toml_entries(held)),
            toml::Value::Array(items) => KeyTree::List(items.len()),
            _ => KeyTree::Leaf,
        },
    };
    value.as_table().map_or_else(Vec::new, |table| table.iter().map(entry).collect())
}

/// Which of the keys that a file's text sets this build does not read.
///
/// A text that does not parse says nothing here: the reader of the file reports that.
pub fn unknown_keys_in(text: &str, understood: &Vec<KeyEntry>, path: &str) -> (r: Vec<UnknownKey>)
    ensures
        match toml_keys_of(text@) {
            Some(written) => unknown_of(r@) == unknown_from(
                written,
                understood@,
                ""@,
                0,
            ).map_values(|key: Seq<char>| (path@, key)),
            None => r@.len() == 0,
        },
{
    match toml_table(text) {
        Some(table) => unknown_keys(&toml_entries(&table), understood, path),
        None => Vec::new(),
    }
}

/// A credential value held in the configuration file.
///
/// It can be taken out only by asking for it, and nothing in the crate writes it anywhere but into
/// a delegate's environment.
pub struct Secret {
    text: String,
}

impl View for Secret {
    type V = Seq<char>;

    closed spec fn view(&self) -> Seq<char> {
        self.text@
    }
}

impl Secret {
    /// Wrap a value that must not be shown again.
    pub fn new(value: &str) -> (r: Self)
        ensures
            r@ == value@,
    {
        Secret { text: value.to_owned() }
    }

    /// The value, for handing to the delegate's environment and nowhere else.
    pub fn expose(&self) -> (r: &str)
        ensures
            r@ == self@,
    {
        self.text.as_str()
    }

    /// What a debugging print shows of a secret, whatever its value.
    pub fn debug_text(&self) -> (r: &'static str)
        ensures
            r@ == "Secret(<redacted>)"@,
    {
        "Secret(<redacted>)"
    }

    /// What is shown in place of the value, whatever it is.
    pub fn redacted(&self) -> (r: &'static str)
        ensures
            r@ == "<redacted>"@,
    {
        "<redacted>"
    }
}

impl Clone for Secret {
    fn clone(&self) -> (r: Self)
        ensures
            r@ == self@,
    {
        Secret { text: self.text.clone() }
    }
}

/// The characters of a secret that may be absent.
pub open spec fn secret_of(secret: Option<Secret>) -> Option<Seq<char>> {
    match secret {
        Some(s) => Some(s@),
        None => None,
    }
}

/// Whether a character is a control character.
pub open spec fn is_control(c: char) -> bool {
    c as int <= 0x1f || 0x7f <= c as int <= 0x9f
}

fn control(c: char) -> (r: bool)
    ensures
        r == is_control(c),
{
    let u: u32 = c as u32;
    u <= 0x1f || (0x7f <= u && u <= 0x9f)
}

/// Why a string cannot name an environment variable, or nothing where it can.
///
/// The rule is the operating system's, not agentmux's: a name with `=` in it would be read by
/// the child as a different, shorter name, and a NUL byte cannot be carried at all.
pub open spec fn env_name_fault(name: Seq<char>) -> Option<Seq<char>> {
    if name.len() == 0 {
        Some("is empty"@)
    } else if name.contains('=') {
        Some("contains `=`, which would end the name early"@)
    } else if exists|i: int| 0 <= i < name.len() && is_control(#[trigger] name[i]) {
        Some("contains a control character"@)
    } else {
        None
    }
}

/// Whether a string can name an environment variable.
///
/// The reason is phrased to follow the name in a message.
pub fn check_env_name(name: &str) -> (r: Result<(), &'static str>)
    ensures
        r is Ok == env_name_fault(name@) is None,
        r matches Err(reason) ==> env_name_fault(name@) == Some(reason@),
{
    if name.is_empty() {
        return Err("is empty");
    }
    if holds_char(name, '=') {
        return Err("contains `=`, which would end the name early");
    }
    let chars = chars_of(name);
    let mut i: usize = 0;
    while i < chars.len()
        invariant
            i <= chars.len(),
            chars@ == name@,
            name@.len() > 0,
            !name@.contains('='),
            forall|j: int| 0 <= j < i ==> !is_control(#[trigger] name@[j]),
        decreases chars.len() - i,
    {
        if control(chars[i]) {
            assert(is_control(name@[i as int]));
            return Err("contains a control character");
        }
        i = i + 1;
    }
    Ok(())
}

/// The spelling of an environment name the platform will read it under.
pub open spec fn canonical_name(platform: Platform, name: Seq<char>) -> Seq<char> {
    match platform {
        Platform::Unix => name,
        Platform::Windows => uppercase(name),
    }
}

/// The spelling of an environment name the platform will read it under.
///
/// Windows reads names without regard to case; every other platform reads them exactly.
/// Every name agentmux handles — from the host environment, a configuration file or a request —
/// passes through here on the way in, so one comparison rule serves every map.
pub fn canonical_env_name(platform: Platform, name: &str) -> (r: String)
    ensures
        r@ == canonical_name(platform, name@),
{
    match platform {
        Platform::Unix => name.to_owned(),
        Platform::Windows => to_uppercase(name),
    }
}

/// On Windows case never tells two names apart: names that differ in nothing else are one name.
pub proof fn case_never_tells_names_apart(a: Seq<char>, b: Seq<char>)
    requires
        lowercase(a) == lowercase(b),
    ensures
        canonical_name(Platform::Windows, a) == canonical_name(Platform::Windows, b),
{
    assert(lowercase(a).len() == a.len() && lowercase(b).len() == b.len());
    assert forall|i: int| 0 <= i < a.len() implies ascii_upper(#[trigger] a[i]) == ascii_upper(
        b[i],
    ) by {
        assert(lowercase(a)[i] == ascii_lower(a[i]));
        assert(lowercase(b)[i] == ascii_lower(b[i]));
    }
    assert(uppercase(a) =~= uppercase(b));
}

/// Environment a launch runs under, layered from three places.
///
/// The child environment is otherwise an allowlist built from empty, which is deliberate but
/// cannot anticipate every setup.
/// These fields are the extension point, so agentmux never has to learn what Bedrock is.
pub struct LaunchEnv {
    /// Variables set to a literal value.
    ///
    /// Held as secrets because this very table is where a Bedrock key goes, and `agentmux
    /// accounts` prints the configuration back.
    pub env: TextMap<Secret>,
    /// Host variables to forward, by name.
    ///
    /// Named rather than valued so a rotated credential is picked up without editing the file.
    pub env_passthrough: Vec<String>,
    /// Names a single request may set through its own `env`.
    ///
    /// Nothing by default: the operator names what may be set, in a file no request can reach.
    pub request_env: Vec<String>,
}

/// What a [`LaunchEnv`] says.
#[verifier::ext_equal]
pub struct LaunchModel {
    /// Variables set to a literal value.
    pub env: Map<Seq<char>, Seq<char>>,
    /// Host variables to forward.
    pub env_passthrough: Seq<Seq<char>>,
    /// Names a request may set.
    pub request_env: Seq<Seq<char>>,
}

impl View for LaunchEnv {
    type V = LaunchModel;

    open spec fn view(&self) -> LaunchModel {
        LaunchModel {
            env: self.env@,
            env_passthrough: texts(self.env_passthrough@),
            request_env: texts(self.request_env@),
        }
    }
}

/// A layer that contributes nothing.
pub open spec fn no_launch() -> LaunchModel {
    LaunchModel { env: Map::empty(), env_passthrough: Seq::empty(), request_env: Seq::empty() }
}

/// The keys of a list of entries.
pub open spec fn keys_of<W>(entries: Seq<(Seq<char>, W)>) -> Seq<Seq<char>> {
    entries.map_values(|e: (Seq<char>, W)| e.0)
}

/// Every name a layer uses, in the order they are looked at.
pub open spec fn launch_names(launch: LaunchModel) -> Seq<Seq<char>> {
    keys_of(in_order(launch.env)) + launch.env_passthrough + launch.request_env
}

/// The first thing wrong in a list of what is wrong with each of some things.
pub open spec fn first_error<E>(errors: Seq<Option<E>>) -> Option<E>
    decreases errors.len(),
{
    if errors.len() == 0 {
        None
    } else if errors[0] is Some {
        errors[0]
    } else {
        first_error(errors.drop_first())
    }
}

/// The first error of a list is the one before which there is none.
pub proof fn lemma_first_error<E>(errors: Seq<Option<E>>, n: int)
    requires
        0 <= n <= errors.len(),
        forall|i: int| 0 <= i < n ==> (#[trigger] errors[i]) is None,
        n == errors.len() || errors[n] is Some,
    ensures
        first_error(errors) == if n == errors.len() {
            None
        } else {
            errors[n]
        },
    decreases errors.len(),
{
    if n > 0 {
        assert(errors[0] is None);
        assert forall|i: int| 0 <= i < n - 1 implies (#[trigger] errors.drop_first()[i]) is None by {
            assert(errors[i + 1] is None);
        }
        lemma_first_error(errors.drop_first(), n - 1);
    }
}

/// What is wrong with an environment name a file uses.
pub open spec fn name_error(path: Seq<char>, name: Seq<char>) -> Option<ConfigErrorModel> {
    match env_name_fault(name) {
        Some(reason) => Some(
            ConfigErrorModel::InvalidName {
                path,
                what: "the environment variable"@,
                value: name,
                reason,
            },
        ),
        None => None,
    }
}

/// What is wrong with a layer a file holds.
pub open spec fn launch_error(launch: LaunchModel, path: Seq<char>) -> Option<ConfigErrorModel> {
    first_error(launch_names(launch).map_values(|name: Seq<char>| name_error(path, name)))
}

/// An environment with some host variables forwarded into it, where the host has them.
pub open spec fn forwarded(
    target: Map<Seq<char>, Seq<char>>,
    names: Seq<Seq<char>>,
    host: Map<Seq<char>, Seq<char>>,
) -> Map<Seq<char>, Seq<char>>
    decreases names.len(),
{
    if names.len() == 0 {
        target
    } else {
        let before = forwarded(target, names.drop_last(), host);
        if host.contains_key(names.last()) {
            before.insert(names.last(), host[names.last()])
        } else {
            before
        }
    }
}

/// An environment with a layer applied over it: what the layer forwards, then what it sets.
pub open spec fn layered(
    target: Map<Seq<char>, Seq<char>>,
    launch: LaunchModel,
    host: Map<Seq<char>, Seq<char>>,
) -> Map<Seq<char>, Seq<char>> {
    forwarded(target, launch.env_passthrough, host).union_prefer_right(launch.env)
}

/// Entries under the names the platform reads them by; of two that become one the later stays.
pub open spec fn renamed<W>(platform: Platform, entries: Seq<(Seq<char>, W)>) -> Map<Seq<char>, W>
    decreases entries.len(),
{
    if entries.len() == 0 {
        Map::empty()
    } else {
        renamed(platform, entries.drop_last()).insert(
            canonical_name(platform, entries.last().0),
            entries.last().1,
        )
    }
}

/// A layer with its names spelled the way the platform reads them.
pub open spec fn canonical_launch(platform: Platform, launch: LaunchModel) -> LaunchModel {
    LaunchModel {
        env: renamed(platform, in_order(launch.env)),
        env_passthrough: launch.env_passthrough.map_values(
            |name: Seq<char>| canonical_name(platform, name),
        ),
        request_env: launch.request_env.map_values(
            |name: Seq<char>| canonical_name(platform, name),
        ),
    }
}

/// Where names are read exactly, spelling them for the platform changes nothing.
pub proof fn exact_names_stay<W>(entries: Seq<(Seq<char>, W)>)
    requires
        crate::ordered::ascending(entries),
    ensures
        renamed(Platform::Unix, entries) == map_of(entries),
    decreases entries.len(),
{
    if entries.len() == 0 {
        assert(map_of(entries) =~= Map::empty());
    } else {
        let n = entries.len() - 1;
        lemma_one_more(entries, n);
        assert(entries.take(n) =~= entries.drop_last());
        assert(entries.take(n + 1) =~= entries);
        exact_names_stay(entries.drop_last());
    }
}

pub(crate) fn canonical_list(platform: Platform, names: &Vec<String>) -> (r: Vec<String>)
    ensures
        texts(r@) == texts(names@).map_values(|name: Seq<char>| canonical_name(platform, name)),
{
    let mut out: Vec<String> = Vec::new();
    let mut i: usize = 0;
    while i < names.len()
        invariant
            i <= names.len(),
            out@.len() == i,
            forall|j: int|
                0 <= j < i ==> (#[trigger] out@[j])@ == canonical_name(platform, names@[j]@),
        decreases names.len() - i,
    {
        out.push(canonical_env_name(platform, names[i].as_str()));
        i = i + 1;
    }
    assert(texts(out@) =~= texts(names@).map_values(
        |name: Seq<char>| canonical_name(platform, name),
    ));
    out
}

fn invalid_variable(path: &str, name: &str, reason: &'static str) -> (r: ConfigError)
    requires
        env_name_fault(name@) == Some(reason@),
    ensures
        Some(r@) == name_error(path@, name@),
{
    ConfigError::InvalidName {
        path: path.to_owned(),
        what: "the environment variable",
        value: name.to_owned(),
        reason,
    }
}

impl Default for LaunchEnv {
    fn default() -> (r: Self)
        ensures
            r@ == no_launch(),
    {
        let r = LaunchEnv {
            env: TextMap::new(),
            env_passthrough: Vec::new(),
            request_env: Vec::new(),
        };
        assert(r@ =~= no_launch());
        r
    }
}

impl LaunchEnv {
    /// Whether this layer contributes nothing.
    pub fn is_empty(&self) -> (r: bool)
        ensures
            r == (self@ == no_launch()),
    {
        let r = self.env.is_empty() && self.env_passthrough.len() == 0 && self.request_env.len()
            == 0;
        proof {
            assert(self@.env_passthrough.len() == self.env_passthrough.len());
            assert(self@.request_env.len() == self.request_env.len());
            if r {
                assert(self@ =~= no_launch());
            }
        }
        r
    }

    /// Spell every environment name the way the platform will read it.
    pub fn canonicalise_env_names(self, platform: Platform) -> (r: Self)
        ensures
            r@ == canonical_launch(platform, self@),
    {
        let ghost p = self.env.pairs();
        let env_passthrough = canonical_list(platform, &self.env_passthrough);
        let request_env = canonical_list(platform, &self.request_env);
        let mut entries = self.env.into_entries();
        let mut env: TextMap<Secret> = TextMap::new();
        let ghost mut done: int = 0;
        assert(p.take(0) =~= Seq::empty());
        while entries.len() > 0
            invariant
                0 <= done <= p.len(),
                entries@.len() == p.len() - done,
                forall|i: int|
                    0 <= i < entries@.len() ==> (#[trigger] entries@[i]).0@ == p[done + i].0
                        && entries@[i].1@ == p[done + i].1,
                env@ == renamed(platform, p.take(done)),
            decreases entries.len(),
        {
            let (name, value) = entries.remove(0);
            assert(p.take(done + 1).drop_last() =~= p.take(done));
            env.insert(canonical_env_name(platform, name.as_str()).as_str(), value);
            proof {
                done = done + 1;
            }
        }
        assert(p.take(done) =~= p);
        LaunchEnv { env, env_passthrough, request_env }
    }

    /// Refuse a name that no environment could carry.
    pub fn validate(&self, path: &str) -> (r: Result<(), ConfigError>)
        ensures
            r is Ok == launch_error(self@, path@) is None,
            r matches Err(error) ==> launch_error(self@, path@) == Some(error@),
    {
        let mut names: Vec<String> = Vec::new();
        let count: usize = self.env.len();
        let ghost p = self.env.pairs();
        let mut i: usize = 0;
        assert(texts(names@) =~= keys_of(p.take(0)));
        while i < count
            invariant
                i <= count,
                count == p.len(),
                p == self.env.pairs(),
                texts(names@) == keys_of(p.take(i as int)),
            decreases count - i,
        {
            let name = self.env.key_at(i).clone();
            proof {
                lemma_texts_push(names@, name);
                assert(keys_of(p.take(i + 1)) =~= keys_of(p.take(i as int)).push(p[i as int].0));
            }
            names.push(name);
            i = i + 1;
        }
        assert(p.take(i as int) =~= p);
        push_all(&mut names, &self.env_passthrough);
        push_all(&mut names, &self.request_env);
        assert(texts(names@) =~= launch_names(self@));
        let ghost errors = launch_names(self@).map_values(
            |name: Seq<char>| name_error(path@, name),
        );
        let mut j: usize = 0;
        while j < names.len()
            invariant
                j <= names.len(),
                texts(names@) == launch_names(self@),
                errors == launch_names(self@).map_values(
                    |name: Seq<char>| name_error(path@, name),
                ),
                forall|k: int| 0 <= k < j ==> (#[trigger] errors[k]) is None,
            decreases names.len() - j,
        {
            assert(errors[j as int] == name_error(path@, texts(names@)[j as int]));
            assert(texts(names@)[j as int] == names@[j as int]@);
            if let Err(reason) = check_env_name(names[j].as_str()) {
                proof {
                    lemma_first_error(errors, j as int);
                }
                return Err(invalid_variable(path, names[j].as_str(), reason));
            }
            j = j + 1;
        }
        proof {
            lemma_first_error(errors, errors.len() as int);
        }
        Ok(())
    }

    /// Apply this layer over `target`.
    ///
    /// Passthrough is resolved first so an explicit `env` value in the same layer wins over a
    /// forwarded one of the same name.
    pub fn apply(&self, target: &mut TextMap<String>, host_env: &TextMap<String>)
        ensures
            final(target)@ == layered(old(target)@, self@, host_env@),
    {
        forward(target, &self.env_passthrough, host_env);
        let ghost base = target@;
        let count: usize = self.env.len();
        let ghost p = self.env.pairs();
        let mut i: usize = 0;
        assert(map_of(p.take(0)) =~= Map::empty());
        assert(base.union_prefer_right(map_of(p.take(0))) =~= base);
        while i < count
            invariant
                i <= count,
                count == p.len(),
                p == self.env.pairs(),
                crate::ordered::ascending(p),
                target@ == base.union_prefer_right(map_of(p.take(i as int))),
            decreases count - i,
        {
            proof {
                lemma_one_more(p, i as int);
            }
            let name = self.env.key_at(i);
            let value = self.env.value_at(i);
            target.insert(name.as_str(), value.expose().to_owned());
            i = i + 1;
            assert(target@ =~= base.union_prefer_right(map_of(p.take(i as int))));
        }
        assert(p.take(i as int) =~= p);
    }
}

pub(crate) fn push_all(list: &mut Vec<String>, more: &Vec<String>)
    ensures
        texts(final(list)@) == texts(old(list)@) + texts(more@),
{
    let ghost start = texts(list@);
    let mut i: usize = 0;
    assert(start + texts(more@).take(0) =~= start);
    while i < more.len()
        invariant
            i <= more.len(),
            texts(list@) == start + texts(more@).take(i as int),
        decreases more.len() - i,
    {
        let name = more[i].clone();
        proof {
            lemma_texts_push(list@, name);
            assert(texts(more@).take(i + 1) =~= texts(more@).take(i as int).push(name@));
            assert(start + texts(more@).take(i + 1) =~= (start + texts(more@).take(i as int)).push(
                name@,
            ));
        }
        list.push(name);
        i = i + 1;
    }
    assert(texts(more@).take(i as int) =~= texts(more@));
}

pub(crate) fn forward(target: &mut TextMap<String>, names: &Vec<String>, host_env: &TextMap<String>)
    ensures
        final(target)@ == forwarded(old(target)@, texts(names@), host_env@),
{
    let ghost start = target@;
    let ghost all = texts(names@);
    let mut i: usize = 0;
    assert(all.take(0) =~= Seq::empty());
    while i < names.len()
        invariant
            i <= names.len(),
            all == texts(names@),
            target@ == forwarded(start, all.take(i as int), host_env@),
        decreases names.len() - i,
    {
        assert(all.take(i + 1).drop_last() =~= all.take(i as int));
        assert(all.take(i + 1).last() == names@[i as int]@);
        if let Some(value) = host_env.get(names[i].as_str()) {
            target.insert(names[i].as_str(), value.clone());
        }
        i = i + 1;
    }
    assert(all.take(i as int) =~= all);
}

/// One account: where its credentials live, or what they are.
///
/// Every field is optional and at least one must be set.
/// A `config_dir` account authenticates as a logged-in CLI profile; a `base_url` account points the
/// CLI at some other endpoint, which is how a locally served model is reached.
pub struct Account {
    /// The CLI's configuration directory: `CLAUDE_CONFIG_DIR`, or `CODEX_HOME` for Codex.
    pub config_dir: Option<String>,
    /// The API key, written into the file.
    pub api_key: Option<Secret>,
    /// Name of a host environment variable to read the API key from instead.
    ///
    /// Preferred over [`Self::api_key`]: it keeps the secret out of a file that tends to be synced
    /// between machines and committed by accident.
    pub api_key_env: Option<String>,
    /// The OAuth token, for Anthropic's CLI only.
    pub auth_token: Option<Secret>,
    /// Name of a host environment variable to read the OAuth token from instead.
    pub auth_token_env: Option<String>,
    /// An alternative API endpoint, such as a local server or a gateway.
    pub base_url: Option<String>,
    /// Run delegates on this account with its own settings, hooks and MCP servers.
    ///
    /// Off unless set.
    pub inherit_settings: Option<bool>,
    /// Free text shown by `agentmux accounts`, so a caller can choose without guessing.
    pub description: Option<String>,
    /// Environment applied when this account is used.
    pub launch: LaunchEnv,
}

/// What an [`Account`] says.
#[verifier::ext_equal]
pub struct AccountModel {
    /// The configuration directory.
    pub config_dir: Option<Seq<char>>,
    /// The API key.
    pub api_key: Option<Seq<char>>,
    /// The variable to read the API key from.
    pub api_key_env: Option<Seq<char>>,
    /// The OAuth token.
    pub auth_token: Option<Seq<char>>,
    /// The variable to read the OAuth token from.
    pub auth_token_env: Option<Seq<char>>,
    /// The endpoint.
    pub base_url: Option<Seq<char>>,
    /// Whether delegates inherit the account's settings.
    pub inherit_settings: Option<bool>,
    /// Free text.
    pub description: Option<Seq<char>>,
    /// Environment applied.
    pub launch: LaunchModel,
}

impl View for Account {
    type V = AccountModel;

    open spec fn view(&self) -> AccountModel {
        AccountModel {
            config_dir: text_of(self.config_dir),
            api_key: secret_of(self.api_key),
            api_key_env: text_of(self.api_key_env),
            auth_token: secret_of(self.auth_token),
            auth_token_env: text_of(self.auth_token_env),
            base_url: text_of(self.base_url),
            inherit_settings: self.inherit_settings,
            description: text_of(self.description),
            launch: self.launch@,
        }
    }
}

/// An account that says nothing at all.
pub open spec fn no_account() -> AccountModel {
    AccountModel {
        config_dir: None,
        api_key: None,
        api_key_env: None,
        auth_token: None,
        auth_token_env: None,
        base_url: None,
        inherit_settings: None,
        description: None,
        launch: no_launch(),
    }
}

impl Default for Account {
    fn default() -> (r: Self)
        ensures
            r@ == no_account(),
    {
        Account {
            config_dir: None,
            api_key: None,
            api_key_env: None,
            auth_token: None,
            auth_token_env: None,
            base_url: None,
            inherit_settings: None,
            description: None,
            launch: LaunchEnv::default(),
        }
    }
}

/// The platform's spelling of a name that may be absent.
pub open spec fn canonical_option(
    platform: Platform,
    name: Option<Seq<char>>,
) -> Option<Seq<char>> {
    match name {
        Some(name) => Some(canonical_name(platform, name)),
        None => None,
    }
}

/// An account with its names spelled the way the platform reads them.
pub open spec fn canonical_account(platform: Platform, account: AccountModel) -> AccountModel {
    AccountModel {
        launch: canonical_launch(platform, account.launch),
        api_key_env: canonical_option(platform, account.api_key_env),
        auth_token_env: canonical_option(platform, account.auth_token_env),
        ..account
    }
}

impl Account {
    /// Whether this account says nothing at all.
    ///
    /// An empty table is rejected rather than treated as the default account: it is always a
    /// mistake, and silently running as the default identity is the wrong way to resolve it.
    pub fn is_empty(&self) -> (r: bool)
        ensures
            r == (self@ == no_account()),
    {
        let r = self.config_dir.is_none() && self.api_key.is_none() && self.api_key_env.is_none()
            && self.auth_token.is_none() && self.auth_token_env.is_none()
            && self.base_url.is_none() && self.inherit_settings.is_none()
            && self.description.is_none() && self.launch.is_empty();
        r
    }

    fn canonicalise_env_names(self, platform: Platform) -> (r: Self)
        ensures
            r@ == canonical_account(platform, self@),
    {
        Account {
            config_dir: self.config_dir,
            api_key: self.api_key,
            api_key_env: match self.api_key_env {
                Some(name) => Some(canonical_env_name(platform, name.as_str())),
                None => None,
            },
            auth_token: self.auth_token,
            auth_token_env: match self.auth_token_env {
                Some(name) => Some(canonical_env_name(platform, name.as_str())),
                None => None,
            },
            base_url: self.base_url,
            inherit_settings: self.inherit_settings,
            description: self.description,
            launch: self.launch.canonicalise_env_names(platform),
        }
    }
}

/// What a file asks for when the caller asks for nothing.
pub struct Defaults {
    /// The account alias to use.
    pub account: Option<String>,
}

impl View for Defaults {
    type V = Option<Seq<char>>;

    open spec fn view(&self) -> Option<Seq<char>> {
        text_of(self.account)
    }
}

/// The machine's agentmux configuration.
pub struct Config {
    /// What the vendors are called in it.
    pub programs: Programs,
    /// Accounts by vendor, then by alias.
    ///
    /// The vendor level is a plain string rather than a closed enum so that a file naming a vendor
    /// this build has never heard of is ignored rather than rejected.
    pub accounts: TextMap<TextMap<Account>>,
    /// Which account to use per vendor when the caller names none.
    pub defaults: TextMap<Defaults>,
    /// Model identifiers to substitute, by vendor, then by the identifier a caller asks for.
    ///
    /// Read through [`Config::rewritten_model`].
    pub models: TextMap<TextMap<String>>,
    /// Reasoning efforts to use when a caller names none, by vendor, then by the model that runs.
    ///
    /// Read through [`Config::default_effort`].
    pub efforts: TextMap<TextMap<String>>,
    /// Environment applied to every delegate launch.
    pub launch: LaunchEnv,
    /// Which machine file the accounts came from, or `None` when none was found.
    pub source: Option<String>,
    /// Which project file selected a default, when one did.
    pub project_source: Option<String>,
    /// Keys the files set that this build does not read, in the order they were found.
    ///
    /// Empty unless something is wrong: either the file was written for a newer agentmux, or a
    /// key is misspelled and doing nothing.
    pub unknown: Vec<UnknownKey>,
    /// The vendors whose default the project file changed.
    ///
    /// Read only through [`Config::default_account`], which is where the answer is typed.
    pub project_defaults: TextMap<()>,
}

/// What a [`Config`] says.
#[verifier::ext_equal]
pub struct ConfigModel {
    /// What the vendors are called.
    pub programs: ProgramsModel,
    /// Accounts by vendor, then by alias.
    pub accounts: Map<Seq<char>, Map<Seq<char>, AccountModel>>,
    /// Default accounts by vendor.
    pub defaults: Map<Seq<char>, Option<Seq<char>>>,
    /// Model rewrites by vendor.
    pub models: Map<Seq<char>, Map<Seq<char>, Seq<char>>>,
    /// Reasoning efforts by vendor, then by model.
    pub efforts: Map<Seq<char>, Map<Seq<char>, Seq<char>>>,
    /// Environment applied to every launch.
    pub launch: LaunchModel,
    /// The machine file.
    pub source: Option<Seq<char>>,
    /// The project file.
    pub project_source: Option<Seq<char>>,
    /// Keys that are not read.
    pub unknown: Seq<(Seq<char>, Seq<char>)>,
    /// The vendors whose default the project file changed.
    pub project_defaults: Map<Seq<char>, ()>,
}

impl View for Config {
    type V = ConfigModel;

    open spec fn view(&self) -> ConfigModel {
        ConfigModel {
            programs: self.programs@,
            accounts: self.accounts@,
            defaults: self.defaults@,
            models: self.models@,
            efforts: self.efforts@,
            launch: self.launch@,
            source: text_of(self.source),
            project_source: text_of(self.project_source),
            unknown: unknown_of(self.unknown@),
            project_defaults: self.project_defaults@,
        }
    }
}

/// A configuration that says nothing.
pub open spec fn no_config(programs: ProgramsModel) -> ConfigModel {
    ConfigModel {
        programs,
        accounts: Map::empty(),
        defaults: Map::empty(),
        models: Map::empty(),
        efforts: Map::empty(),
        launch: no_launch(),
        source: None,
        project_source: None,
        unknown: Seq::empty(),
        project_defaults: Map::empty(),
    }
}

impl Config {
    /// A configuration that says nothing.
    pub fn empty(programs: Programs) -> (r: Self)
        ensures
            r@ == no_config(programs@),
    {
        let r = Config {
            programs,
            accounts: TextMap::new(),
            defaults: TextMap::new(),
            models: TextMap::new(),
            efforts: TextMap::new(),
            launch: LaunchEnv::default(),
            source: None,
            project_source: None,
            unknown: Vec::new(),
            project_defaults: TextMap::new(),
        };
        assert(r@ =~= no_config(programs@));
        r
    }
}

/// Which file chose a default account.
#[derive(Debug, Clone, Copy)]
pub enum ChosenBy<'a> {
    /// The machine file, or a configuration built without one.
    Machine(Option<&'a str>),
    /// A project file, which arrived with the checkout.
    Project(&'a str),
}

/// Which file a choice is owed to.
pub open spec fn chooser_path(chosen_by: ChosenBy<'_>) -> Option<Seq<char>> {
    match chosen_by {
        ChosenBy::Machine(Some(path)) => Some(path@),
        ChosenBy::Machine(None) => None,
        ChosenBy::Project(path) => Some(path@),
    }
}

impl<'a> ChosenBy<'a> {
    /// The file that made the choice, when there was one.
    pub fn path(&self) -> (r: Option<&'a str>)
        ensures
            r is Some == chooser_path(*self) is Some,
            r matches Some(path) ==> chooser_path(*self) == Some(path@),
    {
        match self {
            ChosenBy::Machine(path) => *path,
            ChosenBy::Project(path) => Some(*path),
        }
    }
}

/// The account one vendor falls back to when the caller names none, and who said so.
#[derive(Debug, Clone, Copy)]
pub struct DefaultAccount<'a> {
    /// The alias the file names.
    pub alias: &'a str,
    /// Which file chose it, because a checkout's choice may switch on less than the machine's.
    pub chosen_by: ChosenBy<'a>,
}

/// The alias a configuration falls back to for a vendor.
pub open spec fn default_alias(config: ConfigModel, vendor: Vendor) -> Option<Seq<char>> {
    if config.defaults.contains_key(program_of(config.programs, vendor)) {
        config.defaults[program_of(config.programs, vendor)]
    } else {
        None
    }
}

/// Whether the fallback for a vendor is the checkout's choice rather than the machine's.
pub open spec fn chosen_by_checkout(config: ConfigModel, vendor: Vendor) -> bool {
    config.project_defaults.contains_key(program_of(config.programs, vendor))
        && config.project_source is Some
}

/// The account of a vendor under an alias.
pub open spec fn account_at(config: ConfigModel, vendor: Vendor, alias: Seq<char>) -> Option<
    AccountModel,
> {
    if config.accounts.contains_key(program_of(config.programs, vendor))
        && config.accounts[program_of(config.programs, vendor)].contains_key(alias) {
        Some(config.accounts[program_of(config.programs, vendor)][alias])
    } else {
        None
    }
}

/// The accounts of a vendor.
pub open spec fn accounts_of(config: ConfigModel, vendor: Vendor) -> Map<Seq<char>, AccountModel> {
    if config.accounts.contains_key(program_of(config.programs, vendor)) {
        config.accounts[program_of(config.programs, vendor)]
    } else {
        Map::empty()
    }
}

/// The model rewrites of a vendor.
pub open spec fn rewrites_of(config: ConfigModel, vendor: Vendor) -> Map<Seq<char>, Seq<char>> {
    if config.models.contains_key(program_of(config.programs, vendor)) {
        config.models[program_of(config.programs, vendor)]
    } else {
        Map::empty()
    }
}

/// The reasoning efforts of a vendor's models.
pub open spec fn efforts_of(config: ConfigModel, vendor: Vendor) -> Map<Seq<char>, Seq<char>> {
    if config.efforts.contains_key(program_of(config.programs, vendor)) {
        config.efforts[program_of(config.programs, vendor)]
    } else {
        Map::empty()
    }
}

/// What a set of rules makes of a name, where it makes something else of it.
pub open spec fn rewrite(rules: Map<Seq<char>, Seq<char>>, name: Seq<char>) -> Option<Seq<char>> {
    if rules.contains_key(name) && rules[name] != name {
        Some(rules[name])
    } else {
        None
    }
}

impl Config {
    /// The accounts defined for one vendor, where the configuration speaks of it.
    pub fn accounts(&self, vendor: Vendor) -> (r: Option<&TextMap<Account>>)
        ensures
            r is Some == self@.accounts.contains_key(program_of(self@.programs, vendor)),
            r matches Some(map) ==> map@ == self@.accounts[program_of(self@.programs, vendor)],
    {
        self.accounts.get(vendor.program(&self.programs))
    }

    /// One account, by alias.
    pub fn account(&self, vendor: Vendor, alias: &str) -> (r: Option<&Account>)
        ensures
            r is Some == account_at(self@, vendor, alias@) is Some,
            r matches Some(account) ==> account_at(self@, vendor, alias@) == Some(account@),
    {
        match self.accounts.get(vendor.program(&self.programs)) {
            Some(accounts) => accounts.get(alias),
            None => None,
        }
    }

    /// The model rewrites defined for one vendor, where the configuration speaks of it.
    ///
    /// For a reader listing what the machine offers; [`Self::rewritten_model`] is what a launch
    /// asks.
    pub fn model_rewrites(&self, vendor: Vendor) -> (r: Option<&TextMap<String>>)
        ensures
            r is Some == self@.models.contains_key(program_of(self@.programs, vendor)),
            r matches Some(map) ==> map@ == self@.models[program_of(self@.programs, vendor)],
    {
        self.models.get(vendor.program(&self.programs))
    }

    /// What to run when a caller asks for `model`, when this machine rewrites it.
    ///
    /// An identifier the file says nothing about is not touched, so a model released this morning
    /// reaches the delegate CLI unchanged.
    /// The match is exact, and one substitution is applied: the result is never looked up again.
    /// A rule naming the same identifier on both sides asks for nothing and answers `None`.
    pub fn rewritten_model(&self, vendor: Vendor, model: &str) -> (r: Option<&str>)
        ensures
            str_of(r) == rewrite(rewrites_of(self@, vendor), model@),
    {
        match self.models.get(vendor.program(&self.programs)) {
            Some(rules) => match rules.get(model) {
                Some(to) => if same(to.as_str(), model) {
                    None
                } else {
                    Some(to.as_str())
                },
                None => None,
            },
            None => None,
        }
    }

    /// The reasoning effort this machine names for a model, used only when a caller names none.
    pub fn default_effort(&self, vendor: Vendor, model: &str) -> (r: Option<&str>)
        ensures
            r is Some == efforts_of(self@, vendor).contains_key(model@),
            r matches Some(effort) ==> effort@ == efforts_of(self@, vendor)[model@],
    {
        match self.efforts.get(vendor.program(&self.programs)) {
            Some(efforts) => match efforts.get(model) {
                Some(effort) => Some(effort.as_str()),
                None => None,
            },
            None => None,
        }
    }

    /// The account to use for one vendor when the caller names none, and which file chose it.
    ///
    /// A project file may choose which of the machine's accounts pays; it may not, through that
    /// choice, switch on anything else the account is configured with.
    pub fn default_account(&self, vendor: Vendor) -> (r: Option<DefaultAccount<'_>>)
        ensures
            r is Some == default_alias(self@, vendor) is Some,
            r matches Some(default) ==> {
                &&& default_alias(self@, vendor) == Some(default.alias@)
                &&& (default.chosen_by is Project) == chosen_by_checkout(self@, vendor)
                &&& chooser_path(default.chosen_by) == if chosen_by_checkout(self@, vendor) {
                    self@.project_source
                } else {
                    self@.source
                }
            },
    {
        let alias = match self.defaults.get(vendor.program(&self.programs)) {
            Some(defaults) => match &defaults.account {
                Some(alias) => alias.as_str(),
                None => return None,
            },
            None => return None,
        };
        let by_project = self.project_defaults.contains_key(vendor.program(&self.programs));
        let chosen_by = match &self.project_source {
            Some(path) if by_project => ChosenBy::Project(path.as_str()),
            _ => ChosenBy::Machine(
                match &self.source {
                    Some(path) => Some(path.as_str()),
                    None => None,
                },
            ),
        };
        Some(DefaultAccount { alias, chosen_by })
    }

    /// Every alias defined for one vendor, for an error message or a tool description.
    pub fn alias_names(&self, vendor: Vendor) -> (r: Vec<String>)
        ensures
            texts(r@) == keys_of(in_order(accounts_of(self@, vendor))),
    {
        let mut out: Vec<String> = Vec::new();
        match self.accounts.get(vendor.program(&self.programs)) {
            Some(accounts) => {
                let n: usize = accounts.len();
                let ghost p = accounts.pairs();
                let mut i: usize = 0;
                assert(texts(out@) =~= keys_of(p.take(0)));
                while i < n
                    invariant
                        i <= n,
                        n == p.len(),
                        p == accounts.pairs(),
                        texts(out@) == keys_of(p.take(i as int)),
                    decreases n - i,
                {
                    let name = accounts.key_at(i).clone();
                    proof {
                        lemma_texts_push(out@, name);
                        assert(keys_of(p.take(i + 1)) =~= keys_of(p.take(i as int)).push(
                            p[i as int].0,
                        ));
                    }
                    out.push(name);
                    i = i + 1;
                }
                assert(p.take(i as int) =~= p);
            },
            None => {
                proof {
                    crate::ordered::lemma_walk_empty::<AccountModel>();
                    assert(texts(out@) =~= keys_of(Seq::<(Seq<char>, AccountModel)>::empty()));
                }
            },
        }
        out
    }
}

/// What is wrong with one account of a file.
pub open spec fn account_error(
    path: Seq<char>,
    vendor: Seq<char>,
    alias: Seq<char>,
    account: AccountModel,
) -> Option<ConfigErrorModel> {
    let key_error = match account.api_key_env {
        Some(name) => name_error(path, name),
        None => None,
    };
    let token_error = match account.auth_token_env {
        Some(name) => name_error(path, name),
        None => None,
    };
    if token_fault(alias, AccountAlias::MAX_LEN as nat, Alphabet::Alias) is Some {
        Some(
            ConfigErrorModel::InvalidName {
                path,
                what: "the account alias"@,
                value: alias,
                reason: "may only contain letters, digits, `-`, `_` and `.`"@,
            },
        )
    } else if account == no_account() {
        Some(
            ConfigErrorModel::InvalidName {
                path,
                what: "the account"@,
                value: vendor + "."@ + alias,
                reason: "is empty; give it a `config_dir`, an `api_key`, an `api_key_env` or a `base_url`"@,
            },
        )
    } else if launch_error(account.launch, path) is Some {
        launch_error(account.launch, path)
    } else if key_error is Some {
        key_error
    } else {
        token_error
    }
}

/// What is wrong with the accounts of one vendor of a file.
pub open spec fn vendor_error(
    path: Seq<char>,
    vendor: Seq<char>,
    accounts: Map<Seq<char>, AccountModel>,
) -> Option<ConfigErrorModel> {
    first_error(
        in_order(accounts).map_values(
            |e: (Seq<char>, AccountModel)| account_error(path, vendor, e.0, e.1),
        ),
    )
}

/// What is wrong with one model rewrite of a file.
///
/// A rule naming another rule's key reads as a chain, and one substitution is all there is; it is
/// refused rather than resolved, because either answer would be a guess at which of the two lines
/// the operator meant.
/// A rule that maps a name to itself changes nothing, so a rule pointing at it does not chain.
pub open spec fn rewrite_error(
    path: Seq<char>,
    rules: Map<Seq<char>, Seq<char>>,
    from: Seq<char>,
    to: Seq<char>,
) -> Option<ConfigErrorModel> {
    let bad = |value: Seq<char>|
        ConfigErrorModel::InvalidName {
            path,
            what: "the model"@,
            value,
            reason: "is not an identifier a delegate CLI could be given"@,
        };
    if token_fault(from, ModelId::MAX_LEN as nat, Alphabet::Model) is Some {
        Some(bad(from))
    } else if token_fault(to, ModelId::MAX_LEN as nat, Alphabet::Model) is Some {
        Some(bad(to))
    } else if rewrite(rules, from) is Some && rewrite(rules, to) is Some {
        Some(ConfigErrorModel::ChainedRewrite { path, from, to })
    } else {
        None
    }
}

/// What is wrong with the model rewrites of one vendor of a file.
pub open spec fn rules_error(path: Seq<char>, rules: Map<Seq<char>, Seq<char>>) -> Option<
    ConfigErrorModel,
> {
    first_error(
        in_order(rules).map_values(
            |e: (Seq<char>, Seq<char>)| rewrite_error(path, rules, e.0, e.1),
        ),
    )
}

/// What is wrong with the effort a file names for a model.
pub open spec fn effort_error(path: Seq<char>, model: Seq<char>, effort: Seq<char>) -> Option<
    ConfigErrorModel,
> {
    if token_fault(model, ModelId::MAX_LEN as nat, Alphabet::Model) is Some {
        Some(
            ConfigErrorModel::InvalidName {
                path,
                what: "the model"@,
                value: model,
                reason: "is not an identifier a delegate CLI could be given"@,
            },
        )
    } else if token_fault(effort, Effort::MAX_LEN as nat, Alphabet::Effort) is Some {
        Some(
            ConfigErrorModel::InvalidName {
                path,
                what: "the effort"@,
                value: effort,
                reason: "is not a name a delegate CLI could be given"@,
            },
        )
    } else {
        None
    }
}

/// What is wrong with the efforts of one vendor of a file.
pub open spec fn efforts_error(path: Seq<char>, efforts: Map<Seq<char>, Seq<char>>) -> Option<
    ConfigErrorModel,
> {
    first_error(
        in_order(efforts).map_values(|e: (Seq<char>, Seq<char>)| effort_error(path, e.0, e.1)),
    )
}

/// What is wrong with one default of a file.
pub open spec fn default_error(path: Seq<char>, chosen: Option<Seq<char>>) -> Option<
    ConfigErrorModel,
> {
    match chosen {
        Some(alias) if token_fault(alias, AccountAlias::MAX_LEN as nat, Alphabet::Alias)
            is Some => Some(
            ConfigErrorModel::InvalidName {
                path,
                what: "the default account"@,
                value: alias,
                reason: "may only contain letters, digits, `-`, `_` and `.`"@,
            },
        ),
        _ => None,
    }
}

/// What is wrong with the accounts of a file.
pub open spec fn accounts_error(config: ConfigModel, path: Seq<char>) -> Option<ConfigErrorModel> {
    first_error(
        in_order(config.accounts).map_values(
            |e: (Seq<char>, Map<Seq<char>, AccountModel>)| vendor_error(path, e.0, e.1),
        ),
    )
}

/// What is wrong with the model rewrites of a file.
pub open spec fn models_error(config: ConfigModel, path: Seq<char>) -> Option<ConfigErrorModel> {
    first_error(
        in_order(config.models).map_values(
            |e: (Seq<char>, Map<Seq<char>, Seq<char>>)| rules_error(path, e.1),
        ),
    )
}

/// What is wrong with the efforts of a file.
pub open spec fn all_efforts_error(config: ConfigModel, path: Seq<char>) -> Option<
    ConfigErrorModel,
> {
    first_error(
        in_order(config.efforts).map_values(
            |e: (Seq<char>, Map<Seq<char>, Seq<char>>)| efforts_error(path, e.1),
        ),
    )
}

/// What is wrong with the defaults of a file.
pub open spec fn defaults_error(config: ConfigModel, path: Seq<char>) -> Option<ConfigErrorModel> {
    first_error(
        in_order(config.defaults).map_values(
            |e: (Seq<char>, Option<Seq<char>>)| default_error(path, e.1),
        ),
    )
}

/// The first thing wrong with a configuration file.
///
/// An alias is advertised to callers and passed back as an argument, so one the argument parser
/// would refuse must not be advertised; an environment name the operating system would misread
/// must not reach a child.
/// Vendor keys are left alone, so a file naming a vendor this build does not know still loads.
pub open spec fn config_error(config: ConfigModel, path: Seq<char>) -> Option<ConfigErrorModel> {
    if accounts_error(config, path) is Some {
        accounts_error(config, path)
    } else if models_error(config, path) is Some {
        models_error(config, path)
    } else if all_efforts_error(config, path) is Some {
        all_efforts_error(config, path)
    } else if defaults_error(config, path) is Some {
        defaults_error(config, path)
    } else {
        launch_error(config.launch, path)
    }
}

/// What a check that may fail found.
pub open spec fn found(r: Result<(), ConfigError>) -> Option<ConfigErrorModel> {
    match r {
        Ok(_) => None,
        Err(error) => Some(error@),
    }
}

fn check_variable(path: &str, name: &Option<String>) -> (r: Result<(), ConfigError>)
    ensures
        found(r) == match *name {
            Some(name) => name_error(path@, name@),
            None => None,
        },
{
    match name {
        Some(name) => match check_env_name(name.as_str()) {
            Ok(_) => Ok(()),
            Err(reason) => Err(invalid_variable(path, name.as_str(), reason)),
        },
        None => Ok(()),
    }
}

fn check_account(path: &str, vendor: &str, alias: &str, account: &Account) -> (r: Result<
    (),
    ConfigError,
>)
    ensures
        found(r) == account_error(path@, vendor@, alias@, account@),
{
    if AccountAlias::parse(alias).is_err() {
        return Err(
            ConfigError::InvalidName {
                path: path.to_owned(),
                what: "the account alias",
                value: alias.to_owned(),
                reason: "may only contain letters, digits, `-`, `_` and `.`",
            },
        );
    }
    if account.is_empty() {
        let mut value = vendor.to_owned();
        value.append(".");
        value.append(alias);
        return Err(
            ConfigError::InvalidName {
                path: path.to_owned(),
                what: "the account",
                value,
                reason: "is empty; give it a `config_dir`, an `api_key`, an `api_key_env` or a `base_url`",
            },
        );
    }
    if let Err(error) = account.launch.validate(path) {
        return Err(error);
    }
    if let Err(error) = check_variable(path, &account.api_key_env) {
        return Err(error);
    }
    check_variable(path, &account.auth_token_env)
}

fn check_vendor(path: &str, vendor: &str, accounts: &TextMap<Account>) -> (r: Result<
    (),
    ConfigError,
>)
    ensures
        found(r) == vendor_error(path@, vendor@, accounts@),
{
    let n: usize = accounts.len();
    let ghost p = accounts.pairs();
    let ghost errors = p.map_values(
        |e: (Seq<char>, AccountModel)| account_error(path@, vendor@, e.0, e.1),
    );
    let mut i: usize = 0;
    while i < n
        invariant
            i <= n,
            n == p.len(),
            p == accounts.pairs(),
            in_order(accounts@) == p,
            errors == p.map_values(
                |e: (Seq<char>, AccountModel)| account_error(path@, vendor@, e.0, e.1),
            ),
            forall|k: int| 0 <= k < i ==> (#[trigger] errors[k]) is None,
        decreases n - i,
    {
        assert(errors[i as int] == account_error(path@, vendor@, p[i as int].0, p[i as int].1));
        if let Err(error) = check_account(
            path,
            vendor,
            accounts.key_at(i).as_str(),
            accounts.value_at(i),
        ) {
            proof {
                lemma_first_error(errors, i as int);
            }
            return Err(error);
        }
        i = i + 1;
    }
    proof {
        lemma_first_error(errors, errors.len() as int);
    }
    Ok(())
}

fn invalid_model(path: &str, value: &str) -> (r: ConfigError)
    ensures
        r@ == (ConfigErrorModel::InvalidName {
            path: path@,
            what: "the model"@,
            value: value@,
            reason: "is not an identifier a delegate CLI could be given"@,
        }),
{
    ConfigError::InvalidName {
        path: path.to_owned(),
        what: "the model",
        value: value.to_owned(),
        reason: "is not an identifier a delegate CLI could be given",
    }
}

fn is_rewritten(rules: &TextMap<String>, name: &str) -> (r: bool)
    ensures
        r == rewrite(rules@, name@) is Some,
{
    match rules.get(name) {
        Some(to) => !same(to.as_str(), name),
        None => false,
    }
}

fn check_rules(path: &str, rules: &TextMap<String>) -> (r: Result<(), ConfigError>)
    ensures
        found(r) == rules_error(path@, rules@),
{
    let n: usize = rules.len();
    let ghost p = rules.pairs();
    let ghost errors = p.map_values(
        |e: (Seq<char>, Seq<char>)| rewrite_error(path@, rules@, e.0, e.1),
    );
    let mut i: usize = 0;
    while i < n
        invariant
            i <= n,
            n == p.len(),
            p == rules.pairs(),
            in_order(rules@) == p,
            errors == p.map_values(
                |e: (Seq<char>, Seq<char>)| rewrite_error(path@, rules@, e.0, e.1),
            ),
            forall|k: int| 0 <= k < i ==> (#[trigger] errors[k]) is None,
        decreases n - i,
    {
        assert(errors[i as int] == rewrite_error(path@, rules@, p[i as int].0, p[i as int].1));
        let from = rules.key_at(i).as_str();
        let to = rules.value_at(i).as_str();
        let error = if ModelId::parse(from).is_err() {
            Some(invalid_model(path, from))
        } else if ModelId::parse(to).is_err() {
            Some(invalid_model(path, to))
        } else if is_rewritten(rules, from) && is_rewritten(rules, to) {
            Some(
                ConfigError::ChainedRewrite {
                    path: path.to_owned(),
                    from: from.to_owned(),
                    to: to.to_owned(),
                },
            )
        } else {
            None
        };
        if let Some(error) = error {
            proof {
                lemma_first_error(errors, i as int);
            }
            return Err(error);
        }
        i = i + 1;
    }
    proof {
        lemma_first_error(errors, errors.len() as int);
    }
    Ok(())
}

fn check_efforts(path: &str, efforts: &TextMap<String>) -> (r: Result<(), ConfigError>)
    ensures
        found(r) == efforts_error(path@, efforts@),
{
    let n: usize = efforts.len();
    let ghost p = efforts.pairs();
    let ghost errors = p.map_values(|e: (Seq<char>, Seq<char>)| effort_error(path@, e.0, e.1));
    let mut i: usize = 0;
    while i < n
        invariant
            i <= n,
            n == p.len(),
            p == efforts.pairs(),
            in_order(efforts@) == p,
            errors == p.map_values(|e: (Seq<char>, Seq<char>)| effort_error(path@, e.0, e.1)),
            forall|k: int| 0 <= k < i ==> (#[trigger] errors[k]) is None,
        decreases n - i,
    {
        assert(errors[i as int] == effort_error(path@, p[i as int].0, p[i as int].1));
        let model = efforts.key_at(i).as_str();
        let effort = efforts.value_at(i).as_str();
        let error = if ModelId::parse(model).is_err() {
            Some(invalid_model(path, model))
        } else if Effort::parse(effort).is_err() {
            Some(
                ConfigError::InvalidName {
                    path: path.to_owned(),
                    what: "the effort",
                    value: effort.to_owned(),
                    reason: "is not a name a delegate CLI could be given",
                },
            )
        } else {
            None
        };
        if let Some(error) = error {
            proof {
                lemma_first_error(errors, i as int);
            }
            return Err(error);
        }
        i = i + 1;
    }
    proof {
        lemma_first_error(errors, errors.len() as int);
    }
    Ok(())
}

impl Config {
    fn check_accounts(&self, path: &str) -> (r: Result<(), ConfigError>)
        ensures
            found(r) == accounts_error(self@, path@),
    {
        let n: usize = self.accounts.len();
        let ghost p = self.accounts.pairs();
        let ghost errors = p.map_values(
            |e: (Seq<char>, Map<Seq<char>, AccountModel>)| vendor_error(path@, e.0, e.1),
        );
        let mut i: usize = 0;
        while i < n
            invariant
                i <= n,
                n == p.len(),
                p == self.accounts.pairs(),
                in_order(self.accounts@) == p,
                errors == p.map_values(
                    |e: (Seq<char>, Map<Seq<char>, AccountModel>)| vendor_error(path@, e.0, e.1),
                ),
                forall|k: int| 0 <= k < i ==> (#[trigger] errors[k]) is None,
            decreases n - i,
        {
            assert(errors[i as int] == vendor_error(path@, p[i as int].0, p[i as int].1));
            if let Err(error) = check_vendor(
                path,
                self.accounts.key_at(i).as_str(),
                self.accounts.value_at(i),
            ) {
                proof {
                    lemma_first_error(errors, i as int);
                }
                return Err(error);
            }
            i = i + 1;
        }
        proof {
            lemma_first_error(errors, errors.len() as int);
        }
        Ok(())
    }

    fn check_models(&self, path: &str) -> (r: Result<(), ConfigError>)
        ensures
            found(r) == models_error(self@, path@),
    {
        let n: usize = self.models.len();
        let ghost p = self.models.pairs();
        let ghost errors = p.map_values(
            |e: (Seq<char>, Map<Seq<char>, Seq<char>>)| rules_error(path@, e.1),
        );
        let mut i: usize = 0;
        while i < n
            invariant
                i <= n,
                n == p.len(),
                p == self.models.pairs(),
                in_order(self.models@) == p,
                errors == p.map_values(
                    |e: (Seq<char>, Map<Seq<char>, Seq<char>>)| rules_error(path@, e.1),
                ),
                forall|k: int| 0 <= k < i ==> (#[trigger] errors[k]) is None,
            decreases n - i,
        {
            assert(errors[i as int] == rules_error(path@, p[i as int].1));
            if let Err(error) = check_rules(path, self.models.value_at(i)) {
                proof {
                    lemma_first_error(errors, i as int);
                }
                return Err(error);
            }
            i = i + 1;
        }
        proof {
            lemma_first_error(errors, errors.len() as int);
        }
        Ok(())
    }

    fn check_model_efforts(&self, path: &str) -> (r: Result<(), ConfigError>)
        ensures
            found(r) == all_efforts_error(self@, path@),
    {
        let n: usize = self.efforts.len();
        let ghost p = self.efforts.pairs();
        let ghost errors = p.map_values(
            |e: (Seq<char>, Map<Seq<char>, Seq<char>>)| efforts_error(path@, e.1),
        );
        let mut i: usize = 0;
        while i < n
            invariant
                i <= n,
                n == p.len(),
                p == self.efforts.pairs(),
                in_order(self.efforts@) == p,
                errors == p.map_values(
                    |e: (Seq<char>, Map<Seq<char>, Seq<char>>)| efforts_error(path@, e.1),
                ),
                forall|k: int| 0 <= k < i ==> (#[trigger] errors[k]) is None,
            decreases n - i,
        {
            assert(errors[i as int] == efforts_error(path@, p[i as int].1));
            if let Err(error) = check_efforts(path, self.efforts.value_at(i)) {
                proof {
                    lemma_first_error(errors, i as int);
                }
                return Err(error);
            }
            i = i + 1;
        }
        proof {
            lemma_first_error(errors, errors.len() as int);
        }
        Ok(())
    }

    fn check_defaults(&self, path: &str) -> (r: Result<(), ConfigError>)
        ensures
            found(r) == defaults_error(self@, path@),
    {
        let n: usize = self.defaults.len();
        let ghost p = self.defaults.pairs();
        let ghost errors = p.map_values(
            |e: (Seq<char>, Option<Seq<char>>)| default_error(path@, e.1),
        );
        let mut i: usize = 0;
        while i < n
            invariant
                i <= n,
                n == p.len(),
                p == self.defaults.pairs(),
                in_order(self.defaults@) == p,
                errors == p.map_values(
                    |e: (Seq<char>, Option<Seq<char>>)| default_error(path@, e.1),
                ),
                forall|k: int| 0 <= k < i ==> (#[trigger] errors[k]) is None,
            decreases n - i,
        {
            assert(errors[i as int] == default_error(path@, p[i as int].1));
            if let Some(alias) = &self.defaults.value_at(i).account {
                if AccountAlias::parse(alias.as_str()).is_err() {
                    proof {
                        lemma_first_error(errors, i as int);
                    }
                    return Err(
                        ConfigError::InvalidName {
                            path: path.to_owned(),
                            what: "the default account",
                            value: alias.clone(),
                            reason: "may only contain letters, digits, `-`, `_` and `.`",
                        },
                    );
                }
            }
            i = i + 1;
        }
        proof {
            lemma_first_error(errors, errors.len() as int);
        }
        Ok(())
    }

    /// Refuse a name the file uses that could never be used back.
    pub fn validate(&self, path: &str) -> (r: Result<(), ConfigError>)
        ensures
            found(r) == config_error(self@, path@),
    {
        if let Err(error) = self.check_accounts(path) {
            return Err(error);
        }
        if let Err(error) = self.check_models(path) {
            return Err(error);
        }
        if let Err(error) = self.check_model_efforts(path) {
            return Err(error);
        }
        if let Err(error) = self.check_defaults(path) {
            return Err(error);
        }
        self.launch.validate(path)
    }
}

/// Where no error is first, there is none at all.
pub proof fn lemma_no_error<E>(errors: Seq<Option<E>>, i: int)
    requires
        first_error(errors) is None,
        0 <= i < errors.len(),
    ensures
        errors[i] is None,
    decreases errors.len(),
{
    if i > 0 {
        lemma_no_error(errors.drop_first(), i - 1);
    }
}

/// A rewrite is one substitution, never a chain: in a configuration that was accepted, what a rule
/// of some vendor makes of a name no rule of that vendor makes anything else of.
pub proof fn accepted_rewrites_never_chain(
    config: ConfigModel,
    path: Seq<char>,
    vendor: Vendor,
    name: Seq<char>,
)
    requires
        config_error(config, path) is None,
        walkable(config.models),
        forall|v: Seq<char>| #[trigger]
            config.models.contains_key(v) ==> walkable(config.models[v]),
    ensures
        rewrite(rewrites_of(config, vendor), name) matches Some(to) ==> rewrite(
            rewrites_of(config, vendor),
            to,
        ) is None,
{
    let rules = rewrites_of(config, vendor);
    if rewrite(rules, name) is Some {
        let v = program_of(config.programs, vendor);
        let p = in_order(config.models);
        let i = choose|i: int| 0 <= i < p.len() && (#[trigger] p[i]).0 == v;
        assert(map_of(p).contains_key(v));
        crate::ordered::lemma_entry(p, i);
        let errors = p.map_values(
            |e: (Seq<char>, Map<Seq<char>, Seq<char>>)| rules_error(path, e.1),
        );
        lemma_no_error(errors, i);
        assert(errors[i] == rules_error(path, rules));
        let q = in_order(rules);
        let j = choose|j: int| 0 <= j < q.len() && (#[trigger] q[j]).0 == name;
        assert(map_of(q).contains_key(name));
        crate::ordered::lemma_entry(q, j);
        let inner = q.map_values(
            |e: (Seq<char>, Seq<char>)| rewrite_error(path, rules, e.0, e.1),
        );
        lemma_no_error(inner, j);
        assert(inner[j] == rewrite_error(path, rules, name, rules[name]));
    }
}

/// An accepted configuration advertises only aliases that a caller can pass back.
pub proof fn accepted_aliases_can_be_named(
    config: ConfigModel,
    path: Seq<char>,
    vendor: Vendor,
    alias: Seq<char>,
)
    requires
        config_error(config, path) is None,
        walkable(config.accounts),
        forall|v: Seq<char>| #[trigger]
            config.accounts.contains_key(v) ==> walkable(config.accounts[v]),
        account_at(config, vendor, alias) is Some,
    ensures
        token_fault(alias, AccountAlias::MAX_LEN as nat, Alphabet::Alias) is None,
        account_at(config, vendor, alias) != Some(no_account()),
{
    let v = program_of(config.programs, vendor);
    let p = in_order(config.accounts);
    assert(map_of(p).contains_key(v));
    let i = choose|i: int| 0 <= i < p.len() && (#[trigger] p[i]).0 == v;
    crate::ordered::lemma_entry(p, i);
    let errors = p.map_values(
        |e: (Seq<char>, Map<Seq<char>, AccountModel>)| vendor_error(path, e.0, e.1),
    );
    lemma_no_error(errors, i);
    let accounts = config.accounts[v];
    assert(errors[i] == vendor_error(path, v, accounts));
    let q = in_order(accounts);
    assert(map_of(q).contains_key(alias));
    let j = choose|j: int| 0 <= j < q.len() && (#[trigger] q[j]).0 == alias;
    crate::ordered::lemma_entry(q, j);
    let inner = q.map_values(
        |e: (Seq<char>, AccountModel)| account_error(path, v, e.0, e.1),
    );
    lemma_no_error(inner, j);
    assert(inner[j] == account_error(path, v, alias, accounts[alias]));
}

/// The accounts of one vendor with their names spelled the way the platform reads them.
pub open spec fn canonical_accounts(
    platform: Platform,
    accounts: Map<Seq<char>, AccountModel>,
) -> Map<Seq<char>, AccountModel> {
    accounts.map_values(|account: AccountModel| canonical_account(platform, account))
}

/// A configuration with every environment name spelled the way the platform reads it.
pub open spec fn canonical_config(platform: Platform, config: ConfigModel) -> ConfigModel {
    ConfigModel {
        launch: canonical_launch(platform, config.launch),
        accounts: config.accounts.map_values(
            |accounts: Map<Seq<char>, AccountModel>| canonical_accounts(platform, accounts),
        ),
        ..config
    }
}

fn canonicalise_accounts(platform: Platform, accounts: TextMap<Account>) -> (r: TextMap<Account>)
    ensures
        r@ == canonical_accounts(platform, accounts@),
{
    let ghost p = accounts.pairs();
    let ghost spell = |account: AccountModel| canonical_account(platform, account);
    let ghost all = accounts@;
    let mut entries = accounts.into_entries();
    let mut out: TextMap<Account> = TextMap::new();
    let ghost mut done: int = 0;
    assert(map_of(p.take(0)).map_values(spell) =~= Map::empty());
    while entries.len() > 0
        invariant
            0 <= done <= p.len(),
            crate::ordered::ascending(p),
            spell == (|account: AccountModel| canonical_account(platform, account)),
            entries@.len() == p.len() - done,
            forall|i: int|
                0 <= i < entries@.len() ==> (#[trigger] entries@[i]).0@ == p[done + i].0
                    && entries@[i].1@ == p[done + i].1,
            out@ == map_of(p.take(done)).map_values(spell),
        decreases entries.len(),
    {
        proof {
            lemma_one_more(p, done);
        }
        let (alias, account) = entries.remove(0);
        out.insert(alias.as_str(), account.canonicalise_env_names(platform));
        proof {
            done = done + 1;
            assert(out@ =~= map_of(p.take(done)).map_values(spell));
        }
    }
    assert(p.take(done) =~= p);
    out
}

impl Config {
    /// Spell every environment name the way the platform will read it.
    ///
    /// Done once when a file is read, so every later comparison — withholding a credential,
    /// matching a request against `request_env` — is a plain one.
    pub fn canonicalise_env_names(self, platform: Platform) -> (r: Self)
        ensures
            r@ == canonical_config(platform, self@),
    {
        let ghost model = self@;
        let ghost p = self.accounts.pairs();
        let ghost spell = |accounts: Map<Seq<char>, AccountModel>|
            canonical_accounts(platform, accounts);
        let mut entries = self.accounts.into_entries();
        let mut accounts: TextMap<TextMap<Account>> = TextMap::new();
        let ghost mut done: int = 0;
        assert(map_of(p.take(0)).map_values(spell) =~= Map::empty());
        while entries.len() > 0
            invariant
                0 <= done <= p.len(),
                crate::ordered::ascending(p),
                spell == (|accounts: Map<Seq<char>, AccountModel>|
                    canonical_accounts(platform, accounts)),
                entries@.len() == p.len() - done,
                forall|i: int|
                    0 <= i < entries@.len() ==> (#[trigger] entries@[i]).0@ == p[done + i].0
                        && entries@[i].1@ == p[done + i].1,
                accounts@ == map_of(p.take(done)).map_values(spell),
            decreases entries.len(),
        {
            proof {
                lemma_one_more(p, done);
            }
            let (vendor, inner) = entries.remove(0);
            accounts.insert(vendor.as_str(), canonicalise_accounts(platform, inner));
            proof {
                done = done + 1;
                assert(accounts@ =~= map_of(p.take(done)).map_values(spell));
            }
        }
        assert(p.take(done) =~= p);
        Config {
            programs: self.programs,
            accounts,
            defaults: self.defaults,
            models: self.models,
            efforts: self.efforts,
            launch: self.launch.canonicalise_env_names(platform),
            source: self.source,
            project_source: self.project_source,
            unknown: self.unknown,
            project_defaults: self.project_defaults,
        }
    }

    /// Accept a configuration that was parsed from a file, or refuse it.
    ///
    /// `unknown` are the keys of the file that the configuration does not hold, as it was before
    /// its names were spelled for the platform.
    pub fn read(parsed: Config, path: &str, unknown: Vec<UnknownKey>, platform: Platform) -> (r:
        Result<Config, ConfigError>)
        ensures
            r matches Err(error) ==> config_error(parsed@, path@) == Some(error@),
            r matches Ok(config) ==> config_error(parsed@, path@) is None && config@
                == (ConfigModel {
                source: Some(path@),
                unknown: unknown_of(unknown@),
                ..canonical_config(platform, parsed@)
            }),
    {
        if let Err(error) = parsed.validate(path) {
            return Err(error);
        }
        let mut config = parsed.canonicalise_env_names(platform);
        config.unknown = unknown;
        config.source = Some(path.to_owned());
        Ok(config)
    }
}

/// What is known of a configuration file before it is read.
pub struct FileFacts {
    /// Whether it is a regular file.
    pub is_file: bool,
    /// The user that owns it.
    pub owner: u32,
    /// The user agentmux runs as.
    pub user: u32,
    /// Its permission bits.
    pub mode: u32,
}

/// Why a configuration file is not to be trusted, or nothing where it is.
pub open spec fn distrust(facts: FileFacts) -> Option<Seq<char>> {
    if !facts.is_file {
        Some("is not a regular file"@)
    } else if facts.owner != facts.user {
        Some("is owned by another user"@)
    } else if facts.mode & 0o022u32 != 0 {
        Some("is writable by other users"@)
    } else {
        None
    }
}

/// Refuse a configuration file that another user owns or could write.
///
/// It can name commands, endpoints and credentials, so a writable file is an injection point
/// rather than merely an exposed one — the same reason `ssh` refuses a group-writable config.
/// Readability is not checked: `0644` is normal inside a container image.
pub fn refuse_if_untrusted(path: &str, facts: &FileFacts) -> (r: Result<(), ConfigError>)
    ensures
        found(r) == match distrust(*facts) {
            Some(problem) => Some(ConfigErrorModel::Untrusted { path: path@, problem }),
            None => None,
        },
{
    if !facts.is_file {
        return Err(
            ConfigError::Untrusted { path: path.to_owned(), problem: "is not a regular file" },
        );
    }
    if facts.owner != facts.user {
        return Err(
            ConfigError::Untrusted { path: path.to_owned(), problem: "is owned by another user" },
        );
    }
    if facts.mode & 0o022u32 != 0 {
        return Err(
            ConfigError::Untrusted {
                path: path.to_owned(),
                problem: "is writable by other users",
            },
        );
    }
    Ok(())
}

/// The user's home directory, as the host environment reports it.
pub open spec fn home_of(host: Map<Seq<char>, Seq<char>>) -> Option<Seq<char>> {
    if host.contains_key("HOME"@) {
        Some(host["HOME"@])
    } else if host.contains_key("USERPROFILE"@) {
        Some(host["USERPROFILE"@])
    } else {
        None
    }
}

/// The user's home directory, as the host environment reports it.
///
/// Windows sets `USERPROFILE` rather than `HOME`.
pub fn home_dir(host_env: &TextMap<String>) -> (r: Option<String>)
    ensures
        text_of(r) == home_of(host_env@),
{
    match host_env.get("HOME") {
        Some(home) => Some(home.clone()),
        None => match host_env.get("USERPROFILE") {
            Some(home) => Some(home.clone()),
            None => None,
        },
    }
}

/// The home directory, where it is an absolute path.
pub open spec fn absolute_home(platform: Platform, host: Map<Seq<char>, Seq<char>>) -> Option<
    Seq<char>,
> {
    match home_of(host) {
        Some(home) if absolute(platform, home) => Some(home),
        _ => None,
    }
}

/// A base directory the environment names, where it counts: one that lies under the home
/// directory and does not climb.
pub open spec fn base_under_home(
    platform: Platform,
    host: Map<Seq<char>, Seq<char>>,
    name: Seq<char>,
) -> Option<Seq<char>> {
    match absolute_home(platform, host) {
        Some(home) if host.contains_key(name) && absolute(platform, host[name]) && !climbs(
            platform,
            host[name],
        ) && lies_under(platform, host[name], home) => Some(host[name]),
        _ => None,
    }
}

/// The configuration file below a base directory.
pub open spec fn file_below(platform: Platform, base: Seq<char>) -> Seq<char> {
    joined_path(platform, joined_path(platform, base, "agentmux"@), FILE_NAME@)
}

/// The configuration file below a base directory that may be absent.
pub open spec fn files_below(platform: Platform, base: Option<Seq<char>>) -> Seq<Seq<char>> {
    match base {
        Some(base) => seq![file_below(platform, base)],
        None => Seq::empty(),
    }
}

/// Machine-level locations, in the order they are tried.
pub open spec fn machine_paths_of(
    platform: Platform,
    host: Map<Seq<char>, Seq<char>>,
) -> Seq<Seq<char>> {
    let named = files_below(platform, base_under_home(platform, host, "XDG_CONFIG_HOME"@));
    let at_home = match absolute_home(platform, host) {
        Some(home) => {
            let standard = file_below(platform, joined_path(platform, home, ".config"@));
            let both = if named.len() > 0 && components_of(platform, named[0]) == components_of(
                platform,
                standard,
            ) {
                named
            } else {
                named.push(standard)
            };
            both.push(joined_path(platform, home, FILE_NAME@))
        },
        None => named,
    };
    at_home + files_below(platform, base_under_home(platform, host, "APPDATA"@))
}

fn under_home(platform: Platform, host_env: &TextMap<String>, name: &str) -> (r: Option<String>)
    ensures
        text_of(r) == base_under_home(platform, host_env@, name@),
{
    let home = match home_dir(host_env) {
        Some(home) => home,
        None => return None,
    };
    if !is_absolute(platform, home.as_str()) {
        return None;
    }
    match host_env.get(name) {
        Some(base) => if is_absolute(platform, base.as_str()) && !has_parent_step(
            platform,
            base.as_str(),
        ) && starts_with(platform, base.as_str(), home.as_str()) {
            Some(base.clone())
        } else {
            None
        },
        None => None,
    }
}

fn config_file_below(platform: Platform, base: &str) -> (r: String)
    ensures
        r@ == file_below(platform, base@),
{
    join_path(platform, join_path(platform, base, "agentmux").as_str(), FILE_NAME)
}

impl Config {
    /// Machine-level locations, in the order they are tried.
    ///
    /// These are the only files allowed to *define* an account.
    /// None is reachable by walking up from a working directory, so a checkout can never become
    /// one.
    ///
    /// `~/.config/agentmux/` comes before anything platform-specific on every OS, macOS
    /// included: it is the path someone syncing dotfiles between machines can symlink.
    ///
    /// A base directory named by the environment counts only when it lies under the home
    /// directory.
    /// One that is relative would resolve against whatever directory agentmux runs in, and one
    /// pointed elsewhere would let a checkout supply the machine file.
    pub fn machine_paths(platform: Platform, host_env: &TextMap<String>) -> (r: Vec<String>)
        ensures
            texts(r@) == machine_paths_of(platform, host_env@),
    {
        let mut paths: Vec<String> = Vec::new();
        assert(texts(paths@) =~= Seq::empty());
        if let Some(xdg) = under_home(platform, host_env, "XDG_CONFIG_HOME") {
            let file = config_file_below(platform, xdg.as_str());
            paths.push(file);
            assert(texts(paths@) =~= seq![file@]);
        }
        let ghost named = files_below(
            platform,
            base_under_home(platform, host_env@, "XDG_CONFIG_HOME"@),
        );
        assert(texts(paths@) == named);
        if let Some(home) = home_dir(host_env) {
            if is_absolute(platform, home.as_str()) {
                let below = join_path(platform, home.as_str(), ".config");
                let standard = config_file_below(platform, below.as_str());
                assert(named.len() > 0 ==> named[0] == paths@[0]@);
                if !(paths.len() > 0 && same_path(platform, paths[0].as_str(), standard.as_str())) {
                    proof {
                        lemma_texts_push(paths@, standard);
                    }
                    paths.push(standard);
                }
                let plain = join_path(platform, home.as_str(), FILE_NAME);
                proof {
                    lemma_texts_push(paths@, plain);
                }
                paths.push(plain);
            }
        }
        let ghost at_home = texts(paths@);
        assert(at_home + Seq::<Seq<char>>::empty() =~= at_home);
        if let Some(appdata) = under_home(platform, host_env, "APPDATA") {
            let file = config_file_below(platform, appdata.as_str());
            proof {
                lemma_texts_push(paths@, file);
                assert(at_home.push(file@) =~= at_home + seq![file@]);
            }
            paths.push(file);
        }
        paths
    }

    /// The file [`CONFIG_PATH_ENV`] names, where it names one.
    ///
    /// An exported-but-empty variable means unset.
    pub fn explicit_path(host_env: &TextMap<String>) -> (r: Option<String>)
        ensures
            text_of(r) == explicit_of(host_env@),
    {
        match host_env.get(CONFIG_PATH_ENV) {
            Some(path) => if path.as_str().is_empty() {
                None
            } else {
                Some(path.clone())
            },
            None => None,
        }
    }
}

/// The file that the environment names, where it names one.
pub open spec fn explicit_of(host: Map<Seq<char>, Seq<char>>) -> Option<Seq<char>> {
    if host.contains_key(CONFIG_PATH_ENV@) && host[CONFIG_PATH_ENV@].len() > 0 {
        Some(host[CONFIG_PATH_ENV@])
    } else {
        None
    }
}

/// A machine file is always the user's own: every machine-level location is a file of the one name
/// that lies under the home directory, whatever the environment says.
///
/// The home directory is one whose prefix stays what it is when a step is put behind it, as that of
/// every path that Windows itself hands out does; of a Unix path nothing is asked.
pub proof fn machine_paths_lie_under_home(
    platform: Platform,
    host: Map<Seq<char>, Seq<char>>,
    i: int,
)
    requires
        absolute_home(platform, host) matches Some(home) ==> firm(platform, home),
        0 <= i < machine_paths_of(platform, host).len(),
    ensures
        absolute_home(platform, host) matches Some(home) && lies_under(
            platform,
            machine_paths_of(platform, host)[i],
            home,
        ),
        components_of(platform, machine_paths_of(platform, host)[i]).last() == FILE_NAME@,
{
    lemma_names_are_plain();
    match absolute_home(platform, host) {
        Some(home) => {
            let below = joined_path(platform, home, ".config"@);
            lemma_join_lies_under(platform, home, ".config"@);
            lemma_file_below(platform, below);
            lemma_lies_under_transitive(platform, file_below(platform, below), below, home);
            lemma_join_lies_under(platform, home, FILE_NAME@);
            lemma_join_components(platform, home, FILE_NAME@);
            if let Some(xdg) = base_under_home(platform, host, "XDG_CONFIG_HOME"@) {
                lemma_firm_below(platform, xdg, home);
                lemma_file_below(platform, xdg);
                lemma_lies_under_transitive(platform, file_below(platform, xdg), xdg, home);
            }
            if let Some(appdata) = base_under_home(platform, host, "APPDATA"@) {
                lemma_firm_below(platform, appdata, home);
                lemma_file_below(platform, appdata);
                lemma_lies_under_transitive(platform, file_below(platform, appdata), appdata, home);
            }
        },
        None => {},
    }
}

/// Both places that every machine has are always tried, `.config` before the home directory itself,
/// and they are the only ones where the environment names no directory under home that does not
/// climb.
pub proof fn the_places_of_every_machine_are_tried(
    platform: Platform,
    host: Map<Seq<char>, Seq<char>>,
    home: Seq<char>,
)
    requires
        absolute_home(platform, host) == Some(home),
    ensures
        ({
            let paths = machine_paths_of(platform, host);
            let standard = file_below(platform, joined_path(platform, home, ".config"@));
            let at_home = joined_path(platform, home, FILE_NAME@);
            &&& exists|i: int, j: int|
                0 <= i < j < paths.len() && components_of(platform, #[trigger] paths[i])
                    == components_of(platform, standard) && #[trigger] paths[j] == at_home
            &&& base_under_home(platform, host, "XDG_CONFIG_HOME"@) is None && base_under_home(
                platform,
                host,
                "APPDATA"@,
            ) is None ==> paths == seq![standard, at_home]
        }),
{
    let paths = machine_paths_of(platform, host);
    let standard = file_below(platform, joined_path(platform, home, ".config"@));
    let named = files_below(platform, base_under_home(platform, host, "XDG_CONFIG_HOME"@));
    let both = if named.len() > 0 && components_of(platform, named[0]) == components_of(
        platform,
        standard,
    ) {
        named
    } else {
        named.push(standard)
    };
    let i = both.len() - 1;
    assert(components_of(platform, paths[i]) == components_of(platform, standard));
    assert(paths[i + 1] == joined_path(platform, home, FILE_NAME@));
    if named.len() == 0 && base_under_home(platform, host, "APPDATA"@) is None {
        assert(paths =~= seq![standard, joined_path(platform, home, FILE_NAME@)]);
    }
}

/// On Unix a path that starts at the root is all that the locations rest on: the law of the machine
/// files holds there whatever the environment says.
pub proof fn unix_machine_paths_lie_under_home(host: Map<Seq<char>, Seq<char>>, i: int)
    requires
        0 <= i < machine_paths_of(Platform::Unix, host).len(),
    ensures
        absolute_home(Platform::Unix, host) matches Some(home) && lies_under(
            Platform::Unix,
            machine_paths_of(Platform::Unix, host)[i],
            home,
        ),
        components_of(Platform::Unix, machine_paths_of(Platform::Unix, host)[i]).last()
            == FILE_NAME@,
{
    machine_paths_lie_under_home(Platform::Unix, host, i);
}

proof fn lemma_names_are_plain()
    ensures
        plain("agentmux"@),
        plain(FILE_NAME@),
        plain(".config"@),
{
    reveal_strlit("agentmux");
    reveal_strlit("agentmux.toml");
    reveal_strlit(".config");
    reveal_strlit(".");
    reveal_strlit("..");
    assert("agentmux"@.len() == 8 && "agentmux.toml"@.len() == 13 && ".config"@.len() == 7);
}

proof fn lemma_file_below(platform: Platform, base: Seq<char>)
    requires
        firm(platform, base),
    ensures
        lies_under(platform, file_below(platform, base), base),
        components_of(platform, file_below(platform, base)).last() == FILE_NAME@,
{
    lemma_names_are_plain();
    let dir = joined_path(platform, base, "agentmux"@);
    lemma_join_components(platform, base, "agentmux"@);
    lemma_join_components(platform, dir, FILE_NAME@);
    lemma_join_lies_under(platform, base, "agentmux"@);
    lemma_join_lies_under(platform, dir, FILE_NAME@);
    lemma_lies_under_transitive(platform, file_below(platform, base), dir, base);
}

/// The project-level files on a walk upwards, and whether the walk reached the root of a
/// repository.
pub open spec fn project_walk(
    platform: Platform,
    dirs: Seq<Seq<char>>,
    git: Seq<bool>,
    home: Option<Seq<char>>,
) -> (Seq<Seq<char>>, bool)
    decreases dirs.len(),
{
    if dirs.len() == 0 {
        (Seq::empty(), false)
    } else if home matches Some(h) && components_of(platform, h) == components_of(
        platform,
        dirs[0],
    ) {
        (Seq::empty(), false)
    } else if git[0] {
        (seq![joined_path(platform, dirs[0], FILE_NAME@)], true)
    } else {
        let above = project_walk(platform, dirs.drop_first(), git.drop_first(), home);
        (seq![joined_path(platform, dirs[0], FILE_NAME@)] + above.0, above.1)
    }
}

/// Project-level locations: every directory from `start` up to the root of the repository it is
/// in, or up to but excluding the home directory when it is in none.
pub open spec fn project_paths_of(
    platform: Platform,
    start: Seq<char>,
    home: Option<Seq<char>>,
    git: Seq<bool>,
) -> Seq<Seq<char>> {
    let walk = project_walk(platform, ancestors_of(platform, start), git, home);
    if walk.1 || (home matches Some(h) && lies_under(platform, start, h)) {
        walk.0
    } else {
        Seq::empty()
    }
}

impl Config {
    /// Project-level locations: every directory from `start` up to the root of the repository it
    /// is in, or up to but excluding the home directory when it is in none.
    ///
    /// Both paths are resolved ones.
    /// `git` says of `start` and each directory above it whether it holds `.git`; the nearest
    /// that does is the boundary a checked-out file means.
    /// A directory in no repository is walked only inside home, where every ancestor is the
    /// user's own; outside home there is no such assurance and nothing is read.
    /// The home directory itself is never a project location, so the file there keeps its
    /// machine-level meaning.
    pub fn project_paths(
        platform: Platform,
        start: &str,
        home: Option<&str>,
        git: &Vec<bool>,
    ) -> (r: Vec<String>)
        requires
            git@.len() == ancestors_of(platform, start@).len(),
        ensures
            texts(r@) == project_paths_of(platform, start@, str_of(home), git@),
    {
        let dirs = ancestors(platform, start);
        let ghost all = texts(dirs@);
        let ghost whole = project_walk(platform, all, git@, str_of(home));
        let mut paths: Vec<String> = Vec::new();
        let mut at_root = false;
        let mut i: usize = 0;
        assert(all.skip(0) =~= all);
        assert(git@.skip(0) =~= git@);
        assert(texts(paths@) + whole.0 =~= whole.0);
        loop
            invariant_except_break
                i <= dirs.len(),
                dirs.len() == git.len(),
                all == texts(dirs@),
                whole == project_walk(platform, all, git@, str_of(home)),
                !at_root,
                texts(paths@) + project_walk(
                    platform,
                    all.skip(i as int),
                    git@.skip(i as int),
                    str_of(home),
                ).0 == whole.0,
                project_walk(
                    platform,
                    all.skip(i as int),
                    git@.skip(i as int),
                    str_of(home),
                ).1 == whole.1,
            ensures
                texts(paths@) == whole.0,
                at_root == whole.1,
            decreases dirs.len() - i,
        {
            let ghost had = texts(paths@);
            assert(had + Seq::<Seq<char>>::empty() =~= had);
            if i == dirs.len() {
                break;
            }
            let dir = dirs[i].as_str();
            assert(all.skip(i as int)[0] == dir@);
            assert(git@.skip(i as int)[0] == git@[i as int]);
            assert(all.skip(i as int).drop_first() =~= all.skip(i + 1));
            assert(git@.skip(i as int).drop_first() =~= git@.skip(i + 1));
            let at_home = match home {
                Some(home) => same_path(platform, home, dir),
                None => false,
            };
            if at_home {
                break;
            }
            let file = join_path(platform, dir, FILE_NAME);
            proof {
                lemma_texts_push(paths@, file);
            }
            let ghost above = project_walk(
                platform,
                all.skip(i + 1),
                git@.skip(i + 1),
                str_of(home),
            ).0;
            paths.push(file);
            assert(had + seq![file@] =~= had.push(file@));
            assert(had + (seq![file@] + above) =~= had.push(file@) + above);
            if git[i] {
                at_root = true;
                break;
            }
            i = i + 1;
        }
        let inside = match home {
            Some(home) => starts_with(platform, start, home),
            None => false,
        };
        if at_root || inside {
            paths
        } else {
            let none: Vec<String> = Vec::new();
            assert(texts(none@) =~= Seq::empty());
            none
        }
    }
}

/// The home directory is never a project location: no file found on the walk is the one in it.
pub proof fn home_is_no_project(
    platform: Platform,
    dirs: Seq<Seq<char>>,
    git: Seq<bool>,
    home: Seq<char>,
    i: int,
)
    requires
        0 <= i < project_walk(platform, dirs, git, Some(home)).0.len(),
    ensures
        i < dirs.len(),
        project_walk(platform, dirs, git, Some(home)).0[i] == joined_path(
            platform,
            dirs[i],
            FILE_NAME@,
        ),
        components_of(platform, dirs[i]) != components_of(platform, home),
    decreases dirs.len(),
{
    if i > 0 {
        home_is_no_project(platform, dirs.drop_first(), git.drop_first(), home, i - 1);
    }
}

/// Whether a project file says more than which account to use.
pub open spec fn oversteps(project: ConfigModel) -> bool {
    project.accounts != Map::<Seq<char>, Map<Seq<char>, AccountModel>>::empty() || project.launch
        != no_launch() || project.models != Map::<Seq<char>, Map<Seq<char>, Seq<char>>>::empty()
        || project.efforts != Map::<Seq<char>, Map<Seq<char>, Seq<char>>>::empty()
}

/// Whether a project file's default for a vendor is another than the machine's.
pub open spec fn changes_default(
    machine: Map<Seq<char>, Option<Seq<char>>>,
    project: Map<Seq<char>, Option<Seq<char>>>,
    vendor: Seq<char>,
) -> bool {
    project.contains_key(vendor) && !(machine.contains_key(vendor) && machine[vendor]
        == project[vendor])
}

/// A machine configuration with a project file's choice of accounts.
///
/// Extended, not replaced: a repository pinning its Codex account must not silently drop a
/// machine-wide default for Anthropic's CLI.
/// A project entry that merely restates the machine's own default changes nothing, and is not
/// counted as the project's choice.
pub open spec fn with_choices(
    config: ConfigModel,
    path: Seq<char>,
    project: ConfigModel,
) -> ConfigModel {
    ConfigModel {
        defaults: config.defaults.union_prefer_right(project.defaults),
        project_defaults: Map::new(
            |vendor: Seq<char>|
                config.project_defaults.contains_key(vendor) || changes_default(
                    config.defaults,
                    project.defaults,
                    vendor,
                ),
            |vendor: Seq<char>| (),
        ),
        project_source: Some(path),
        unknown: config.unknown + project.unknown,
        ..config
    }
}

/// A file that was there, and what reading it gave.
pub struct Found {
    /// Where it was.
    pub path: String,
    /// What it held, or why it cannot be used.
    pub read: Result<Config, ConfigError>,
}

/// What loading comes to, or why it fails.
pub open spec fn loaded(
    platform: Platform,
    programs: ProgramsModel,
    host: Map<Seq<char>, Seq<char>>,
    machine: Option<Found>,
    project: Option<Found>,
) -> Result<ConfigModel, ConfigErrorModel> {
    let base = match explicit_of(host) {
        Some(path) if !absolute(platform, path) => Err(ConfigErrorModel::RelativeExplicit { path }),
        explicit => match machine {
            Some(found) => match found.read {
                Ok(config) => Ok(config@),
                Err(error) => Err(error@),
            },
            None => match explicit {
                Some(path) => Err(ConfigErrorModel::MissingExplicit { path }),
                None => Ok(no_config(programs)),
            },
        },
    };
    match base {
        Err(error) => Err(error),
        Ok(config) => match project {
            None => Ok(config),
            Some(found) => match found.read {
                Err(error) => Err(error@),
                Ok(chosen) => if oversteps(chosen@) {
                    Err(ConfigErrorModel::ProjectFileOversteps { path: found.path@ })
                } else {
                    Ok(with_choices(config, found.path@, chosen@))
                },
            },
        },
    }
}

/// What a result that may be an error says.
pub open spec fn outcome_of_load(r: Result<Config, ConfigError>) -> Result<
    ConfigModel,
    ConfigErrorModel,
> {
    match r {
        Ok(config) => Ok(config@),
        Err(error) => Err(error@),
    }
}

impl Config {
    fn with_project(self, path: &str, project: Config) -> (r: Self)
        ensures
            r@ == with_choices(self@, path@, project@),
    {
        let ghost before = self@;
        let ghost chosen = project@;
        let mut config = self;
        let ghost p = project.defaults.pairs();
        let mut entries = project.defaults.into_entries();
        let ghost mut done: int = 0;
        proof {
            assert(map_of(p.take(0)) =~= Map::empty());
            assert(config.defaults@ =~= before.defaults.union_prefer_right(map_of(p.take(0))));
            assert(config.project_defaults@ =~= choices(before, map_of(p.take(0))));
        }
        while entries.len() > 0
            invariant
                0 <= done <= p.len(),
                crate::ordered::ascending(p),
                entries@.len() == p.len() - done,
                forall|i: int|
                    0 <= i < entries@.len() ==> (#[trigger] entries@[i]).0@ == p[done + i].0
                        && entries@[i].1@ == p[done + i].1,
                config.defaults@ == before.defaults.union_prefer_right(map_of(p.take(done))),
                config.project_defaults@ == choices(before, map_of(p.take(done))),
                config@ == (ConfigModel {
                    defaults: config@.defaults,
                    project_defaults: config@.project_defaults,
                    ..before
                }),
            decreases entries.len(),
        {
            proof {
                lemma_one_more(p, done);
            }
            let (vendor, default) = entries.remove(0);
            let restates = match config.defaults.get(vendor.as_str()) {
                Some(current) => same_choice(&current.account, &default.account),
                None => false,
            };
            if !restates {
                config.project_defaults.insert(vendor.as_str(), ());
            }
            config.defaults.insert(vendor.as_str(), default);
            proof {
                done = done + 1;
                assert(config.defaults@ =~= before.defaults.union_prefer_right(
                    map_of(p.take(done)),
                ));
                assert(config.project_defaults@ =~= choices(before, map_of(p.take(done))));
            }
        }
        assert(p.take(done) =~= p);
        let mut unknown = project.unknown;
        let ghost machine_keys = config.unknown@;
        let ghost project_keys = unknown@;
        config.unknown.append(&mut unknown);
        config.project_source = Some(path.to_owned());
        assert(unknown_of(machine_keys + project_keys) =~= unknown_of(machine_keys) + unknown_of(
            project_keys,
        ));
        assert(config@ =~= with_choices(before, path@, chosen));
        config
    }

    /// Load what the machine offers, plus any project file's choice of which account to use.
    ///
    /// `machine` is the file at the explicit path where one is named, else the first of
    /// [`Config::machine_paths`] that is there; `project` is the first of
    /// [`Config::project_paths`] that is there and is not the machine file itself.
    ///
    /// Within each role the first file found is used whole; files are not merged, because a
    /// half-overridden account map is harder to reason about than one that is either in effect or
    /// not.
    /// The two roles hold disjoint keys, so using both is not a merge.
    pub fn load(
        platform: Platform,
        programs: &Programs,
        host_env: &TextMap<String>,
        machine: Option<Found>,
        project: Option<Found>,
    ) -> (r: Result<Config, ConfigError>)
        ensures
            outcome_of_load(r) == loaded(platform, programs@, host_env@, machine, project),
    {
        let explicit = Config::explicit_path(host_env);
        if let Some(path) = &explicit {
            if !is_absolute(platform, path.as_str()) {
                return Err(ConfigError::RelativeExplicit { path: path.clone() });
            }
        }
        let config = match machine {
            Some(found) => match found.read {
                Ok(config) => config,
                Err(error) => return Err(error),
            },
            None => match explicit {
                Some(path) => return Err(ConfigError::MissingExplicit { path }),
                None => Config::empty(programs.clone()),
            },
        };
        match project {
            None => Ok(config),
            Some(found) => match found.read {
                Err(error) => Err(error),
                Ok(chosen) => {
                    if !chosen.accounts.is_empty() || !chosen.launch.is_empty()
                        || !chosen.models.is_empty() || !chosen.efforts.is_empty() {
                        return Err(ConfigError::ProjectFileOversteps { path: found.path });
                    }
                    Ok(config.with_project(found.path.as_str(), chosen))
                },
            },
        }
    }
}

/// The vendors whose default is a project's choice, after some of its entries.
spec fn choices(config: ConfigModel, project: Map<Seq<char>, Option<Seq<char>>>) -> Map<
    Seq<char>,
    (),
> {
    Map::new(
        |vendor: Seq<char>|
            config.project_defaults.contains_key(vendor) || changes_default(
                config.defaults,
                project,
                vendor,
            ),
        |vendor: Seq<char>| (),
    )
}

fn same_choice(a: &Option<String>, b: &Option<String>) -> (r: bool)
    ensures
        r == (text_of(*a) == text_of(*b)),
{
    match (a, b) {
        (Some(a), Some(b)) => same(a.as_str(), b.as_str()),
        (None, None) => true,
        _ => false,
    }
}

/// A checkout chooses, and does nothing more: what a load with a project file gives differs from
/// the machine's own configuration only in which accounts are the default, who chose them, and the
/// keys that nobody reads.
pub proof fn a_checkout_only_chooses(
    platform: Platform,
    programs: ProgramsModel,
    host: Map<Seq<char>, Seq<char>>,
    machine: Option<Found>,
    project: Found,
)
    ensures
        loaded(platform, programs, host, machine, Some(project)) matches Ok(config) ==> {
            &&& loaded(platform, programs, host, machine, None) matches Ok(own)
            &&& config.accounts == own.accounts
            &&& config.models == own.models
            &&& config.efforts == own.efforts
            &&& config.launch == own.launch
            &&& config.source == own.source
        },
{
}

/// A checkout cannot define: a project file with an account, a launch environment or a model rule
/// of its own is refused.
pub proof fn a_checkout_cannot_define(
    platform: Platform,
    programs: ProgramsModel,
    host: Map<Seq<char>, Seq<char>>,
    machine: Option<Found>,
    project: Found,
)
    requires
        project.read matches Ok(chosen) && oversteps(chosen@),
    ensures
        loaded(platform, programs, host, machine, Some(project)) is Err,
{
}

} // verus!
