//! What a delegate is started with.

use vstd::prelude::*;

use crate::config::{
    account_at, canonical_name, chosen_by_checkout, default_alias, forwarded, layered, no_account,
    AccountModel, ConfigModel, Platform,
};
use crate::delegate::{
    account_dir_of, account_text, allowed_names, args_of, base_env_of, base_names,
    credential_names, delegate_summary, identity_of, invocation_of, isolation_of, isolation_text,
    lemma_forwarded_keys, lemma_forwarded_leaves, lemma_forwarded_value, lemma_unrequested,
    lemma_withheld_keys, parts_error, program_of, request_error, requests, sandbox_name,
    selection_of, token_fault, with_credentials, withheld, AccountAlias, Alphabet, CodexSandbox,
    DelegateErrorModel, DelegateModel, Effort, IdentityModel, Isolation, ModelId, ProgramsModel,
    Vendor, CLAUDE_READ_ONLY_TOOLS, DELEGATE_MARKER, EMPTY_MCP_CONFIG,
};
use crate::laws::config::{a_variable_can_be_named, names_a_variable};
use crate::laws::render::{lemma_deep, lemma_self};
use crate::laws::transcript::stands_somewhere;
use crate::ordered::walkable;

verus! {

/// Whether an argument vector holds a word with a value directly behind it.
pub open spec fn passes(args: Seq<Seq<char>>, word: Seq<char>, value: Seq<char>) -> bool {
    exists|i: int|
        0 <= i && i + 1 < args.len() && #[trigger] args[i] == word && args[i + 1] == value
}

/// Whether a text can be told from a flag.
pub open spec fn is_no_flag(text: Seq<char>) -> bool {
    text.len() > 0 && text[0] != '-'
}

/// Whether a delegate's parts belong together: a sandbox is Codex's alone, and neither a model nor
/// an effort begins as a flag does.
pub open spec fn makes_sense(d: DelegateModel) -> bool {
    &&& d.sandbox is Some == (d.vendor == Vendor::Codex)
    &&& is_no_flag(d.model)
    &&& d.effort matches Some(effort) ==> is_no_flag(effort)
}

/// A follow-up continues the session it is meant for: the CLI is told to resume, and told that
/// session and no other.
/// A first turn is never told to resume anything.
pub proof fn a_follow_up_names_its_session(
    d: DelegateModel,
    resume: Option<Seq<char>>,
    last_message_path: Seq<char>,
    isolation: Isolation,
)
    requires
        makes_sense(d),
        resume matches Some(session) ==> is_no_flag(session),
    ensures
        ({
            let args = args_of(d, resume, last_message_path, isolation);
            match (d.vendor, resume) {
                (Vendor::Claude, Some(session)) => {
                    &&& passes(args, "--resume"@, session)
                    &&& forall|i: int|
                        0 <= i < args.len() && #[trigger] args[i] == "--resume"@ ==> i + 1
                            < args.len() && args[i + 1] == session
                },
                (Vendor::Claude, None) => !args.contains("--resume"@),
                (Vendor::Codex, Some(session)) => {
                    &&& args.len() > 2
                    &&& args[0] == "exec"@
                    &&& args[1] == "resume"@
                    &&& args[2] == session
                },
                (Vendor::Codex, None) => {
                    &&& args.len() > 1
                    &&& args[0] == "exec"@
                    &&& args[1] != "resume"@
                    &&& d.model != "resume"@ && last_message_path != "resume"@ ==> !args.contains(
                        "resume"@,
                    )
                },
            }
        }),
{
    lemma_words_differ();
    let args = args_of(d, resume, last_message_path, isolation);
    match (d.vendor, resume) {
        (Vendor::Claude, Some(session)) => {
            assert(args[1] == "--resume"@);
            assert(args[2] == session);
        },
        (Vendor::Claude, None) => {},
        (Vendor::Codex, Some(session)) => {},
        (Vendor::Codex, None) => {
            reveal_strlit("model_reasoning_effort=\"");
            assert(args[1] == "--json"@);
        },
    }
}

/// Two sessions are never mistaken for one another, nor a follow-up for a first turn.
pub proof fn different_sessions_give_different_arguments(
    d: DelegateModel,
    first: Option<Seq<char>>,
    second: Option<Seq<char>>,
    last_message_path: Seq<char>,
    isolation: Isolation,
)
    requires
        makes_sense(d),
        first != second,
        first matches Some(session) ==> is_no_flag(session),
        second matches Some(session) ==> is_no_flag(session),
    ensures
        args_of(d, first, last_message_path, isolation) != args_of(
            d,
            second,
            last_message_path,
            isolation,
        ),
{
    lemma_words_differ();
    let a = args_of(d, first, last_message_path, isolation);
    let b = args_of(d, second, last_message_path, isolation);
    if first is Some && second is Some {
        assert(a[2] == first->Some_0);
        assert(b[2] == second->Some_0);
    } else {
        let plain: Seq<char> = if d.vendor == Vendor::Codex {
            "--json"@
        } else {
            "--model"@
        };
        let told: Seq<char> = if d.vendor == Vendor::Codex {
            "resume"@
        } else {
            "--resume"@
        };
        assert(a[1] == if first is Some {
            told
        } else {
            plain
        });
        assert(b[1] == if second is Some {
            told
        } else {
            plain
        });
        assert(plain != told);
    }
}

/// Each delegate is told its model and its effort, and no effort where none is named.
pub proof fn a_delegate_is_told_its_model_and_effort(
    d: DelegateModel,
    resume: Option<Seq<char>>,
    last_message_path: Seq<char>,
    isolation: Isolation,
)
    requires
        makes_sense(d),
    ensures
        ({
            let args = args_of(d, resume, last_message_path, isolation);
            &&& passes(args, "--model"@, d.model)
            &&& d.vendor == Vendor::Claude ==> (d.effort matches Some(effort) ==> passes(
                args,
                "--effort"@,
                effort,
            ))
            &&& d.vendor == Vendor::Codex ==> (d.effort matches Some(effort) ==> passes(
                args,
                "--config"@,
                "model_reasoning_effort=\""@ + effort + "\""@,
            ))
        }),
{
    let args = args_of(d, resume, last_message_path, isolation);
    let at = model_at(d.vendor, resume is Some);
    assert(args[at] == "--model"@ && args[at + 1] == d.model);
    if d.effort is Some {
        assert(args[at + 2] == (if d.vendor == Vendor::Claude {
            "--effort"@
        } else {
            "--config"@
        }));
        assert(args[at + 3] == (if d.vendor == Vendor::Claude {
            d.effort->Some_0
        } else {
            "model_reasoning_effort=\""@ + d.effort->Some_0 + "\""@
        }));
    }
}

/// Where the model's flag stands.
spec fn model_at(vendor: Vendor, resumed: bool) -> int {
    (if resumed {
        3int
    } else {
        1
    }) + (if vendor == Vendor::Codex {
        2int
    } else {
        0
    })
}

/// A second opinion edits nothing: whatever is inherited, Anthropic's CLI runs in plan mode with a
/// list of tools that holds none that writes a file, and reports every event of the turn.
pub proof fn a_claude_delegate_only_reads(
    d: DelegateModel,
    resume: Option<Seq<char>>,
    last_message_path: Seq<char>,
    isolation: Isolation,
)
    requires
        makes_sense(d),
        d.vendor == Vendor::Claude,
    ensures
        ({
            let args = args_of(d, resume, last_message_path, isolation);
            &&& args.contains("--print"@)
            &&& passes(args, "--permission-mode"@, "plan"@)
            &&& passes(args, "--tools"@, "Bash,Read,Grep,Glob,WebFetch,WebSearch"@)
            &&& passes(args, "--output-format"@, "stream-json"@)
            &&& args.contains("--verbose"@)
        }),
{
    let args = args_of(d, resume, last_message_path, isolation);
    let at = model_at(d.vendor, resume is Some) + 2 + (if d.effort is Some {
        2int
    } else {
        0
    });
    assert(args[0] == "--print"@);
    assert(args[at] == "--permission-mode"@ && args[at + 1] == "plan"@);
    assert(args[at + 2] == "--tools"@ && args[at + 3]
        == "Bash,Read,Grep,Glob,WebFetch,WebSearch"@);
    assert(args[at + 4] == "--output-format"@ && args[at + 5] == "stream-json"@);
    assert(args[at + 6] == "--verbose"@);
}

/// A Codex delegate is told how much it may touch on every turn: by the flag on a first one, and
/// on a follow-up, which refuses that flag, by a setting.
/// It streams its events, reads its prompt from the standard input, and writes its last message
/// where it was told.
pub proof fn a_codex_delegate_is_sandboxed(
    d: DelegateModel,
    resume: Option<Seq<char>>,
    last_message_path: Seq<char>,
    isolation: Isolation,
)
    requires
        makes_sense(d),
        d.vendor == Vendor::Codex,
        resume matches Some(session) ==> is_no_flag(session),
        is_no_flag(last_message_path),
    ensures
        ({
            let args = args_of(d, resume, last_message_path, isolation);
            &&& args.contains("--json"@)
            &&& args.contains("--skip-git-repo-check"@)
            &&& passes(args, "--output-last-message"@, last_message_path)
            &&& args.last() == "-"@
            &&& match (resume, d.sandbox->Some_0) {
                (None, CodexSandbox::ReadOnly) => passes(args, "--sandbox"@, "read-only"@),
                (None, CodexSandbox::WorkspaceWrite) => passes(
                    args,
                    "--sandbox"@,
                    "workspace-write"@,
                ),
                (Some(_), CodexSandbox::ReadOnly) => passes(
                    args,
                    "--config"@,
                    "sandbox_mode=\"read-only\""@,
                ) && !args.contains("--sandbox"@),
                (Some(_), CodexSandbox::WorkspaceWrite) => passes(
                    args,
                    "--config"@,
                    "sandbox_mode=\"workspace-write\""@,
                ) && !args.contains("--sandbox"@),
            }
        }),
{
    let args = args_of(d, resume, last_message_path, isolation);
    let at = model_at(d.vendor, resume is Some);
    assert(args[at - 2] == "--json"@);
    assert(args[at - 1] == "--skip-git-repo-check"@);
    let end = args.len() - 5;
    assert(args[end + 2] == "--output-last-message"@ && args[end + 3] == last_message_path);
    assert(args[end + 4] == "-"@);
    reveal_strlit("sandbox_mode=\"");
    reveal_strlit("\"");
    reveal_strlit("read-only");
    reveal_strlit("workspace-write");
    reveal_strlit("sandbox_mode=\"read-only\"");
    reveal_strlit("sandbox_mode=\"workspace-write\"");
    assert("sandbox_mode=\""@ + "read-only"@ + "\""@ =~= "sandbox_mode=\"read-only\""@);
    assert("sandbox_mode=\""@ + "workspace-write"@ + "\""@
        =~= "sandbox_mode=\"workspace-write\""@);
    if resume is None {
        assert(args[end] == "--sandbox"@);
    } else {
        assert(args[end] == "--config"@);
        reveal_strlit("--sandbox");
        reveal_strlit("exec");
        reveal_strlit("resume");
        reveal_strlit("--json");
        reveal_strlit("--skip-git-repo-check");
        reveal_strlit("--model");
        reveal_strlit("--config");
        reveal_strlit("model_reasoning_effort=\"");
        reveal_strlit("--ignore-user-config");
        reveal_strlit("features.hooks=false");
        reveal_strlit("--output-last-message");
        reveal_strlit("-");
        assert("--sandbox"@.len() == 9 && "--sandbox"@[0] == '-');
        if d.effort is Some {
            let told = "model_reasoning_effort=\""@ + d.effort->Some_0 + "\""@;
            assert(told[0] == 'm');
        }
    }
}

/// An isolated delegate loads none of the operator's settings, hooks or servers, and one that
/// inherits them is told nothing of the kind.
pub proof fn isolation_detaches_the_operators_settings(
    d: DelegateModel,
    resume: Option<Seq<char>>,
    last_message_path: Seq<char>,
)
    requires
        makes_sense(d),
        resume matches Some(session) ==> is_no_flag(session),
        is_no_flag(last_message_path),
    ensures
        ({
            let args = args_of(d, resume, last_message_path, Isolation::Isolated);
            match d.vendor {
                Vendor::Claude => {
                    &&& passes(args, "--setting-sources"@, Seq::<char>::empty())
                    &&& args.contains("--strict-mcp-config"@)
                    &&& passes(args, "--mcp-config"@, "{\"mcpServers\":{}}"@)
                },
                Vendor::Codex => {
                    &&& args.contains("--ignore-user-config"@)
                    &&& passes(args, "--config"@, "features.hooks=false"@)
                },
            }
        }),
        ({
            let args = args_of(d, resume, last_message_path, Isolation::Inherit);
            match d.vendor {
                Vendor::Claude => !args.contains("--setting-sources"@) && !args.contains(
                    "--strict-mcp-config"@,
                ) && !args.contains("--mcp-config"@),
                Vendor::Codex => !args.contains("--ignore-user-config"@),
            }
        }),
{
    let args = args_of(d, resume, last_message_path, Isolation::Isolated);
    match d.vendor {
        Vendor::Claude => {
            let at = args.len() - 5;
            assert(args[at] == "--setting-sources"@ && args[at + 1] == Seq::<char>::empty());
            assert(args[at + 2] == "--strict-mcp-config"@);
            assert(args[at + 3] == "--mcp-config"@ && args[at + 4] == "{\"mcpServers\":{}}"@);
        },
        Vendor::Codex => {
            let at = args.len() - 8;
            assert(args[at] == "--ignore-user-config"@);
            assert(args[at + 1] == "--config"@ && args[at + 2] == "features.hooks=false"@);
        },
    }
    reveal_strlit("--resume");
    reveal_strlit("--model");
    reveal_strlit("--effort");
    reveal_strlit("--print");
    reveal_strlit("--permission-mode");
    reveal_strlit("plan");
    reveal_strlit("--tools");
    reveal_strlit("Bash,Read,Grep,Glob,WebFetch,WebSearch");
    reveal_strlit("--output-format");
    reveal_strlit("stream-json");
    reveal_strlit("--verbose");
    reveal_strlit("--setting-sources");
    reveal_strlit("--strict-mcp-config");
    reveal_strlit("--mcp-config");
    reveal_strlit("exec");
    reveal_strlit("resume");
    reveal_strlit("--json");
    reveal_strlit("--skip-git-repo-check");
    reveal_strlit("--config");
    reveal_strlit("model_reasoning_effort=\"");
    reveal_strlit("sandbox_mode=\"");
    reveal_strlit("--ignore-user-config");
    reveal_strlit("--sandbox");
    reveal_strlit("read-only");
    reveal_strlit("workspace-write");
    reveal_strlit("--output-last-message");
    reveal_strlit("-");
    assert("--setting-sources"@.len() == 17 && "--setting-sources"@[2] == 's');
    assert("--permission-mode"@[2] == 'p');
    assert("--strict-mcp-config"@.len() == 19);
    assert("--mcp-config"@.len() == 12);
    assert("--ignore-user-config"@.len() == 20 && "--ignore-user-config"@[2] == 'i');
    if d.effort is Some && d.vendor == Vendor::Codex {
        assert(("model_reasoning_effort=\""@ + d.effort->Some_0 + "\""@)[0] == 'm');
    }
    if d.vendor == Vendor::Codex && resume is Some {
        assert(("sandbox_mode=\""@ + sandbox_name(d.sandbox->Some_0) + "\""@)[0]
            == 's');
    }
}

/// What is started is the vendor's own program, with the arguments of this very turn.
pub proof fn the_child_is_the_one_asked_for(
    d: DelegateModel,
    resume: Option<Seq<char>>,
    last_message_path: Seq<char>,
    extra_env: Map<Seq<char>, Seq<char>>,
    config: ConfigModel,
    host: Map<Seq<char>, Seq<char>>,
    platform: Platform,
    dir_exists: bool,
)
    ensures
        invocation_of(
            d,
            resume,
            last_message_path,
            extra_env,
            config,
            host,
            platform,
            dir_exists,
        ) matches Ok(child) ==> {
            &&& d.vendor == Vendor::Claude ==> child.program == config.programs.claude
            &&& d.vendor == Vendor::Codex ==> child.program == config.programs.codex
            &&& child.args == args_of(d, resume, last_message_path, isolation_of(d, config))
        },
{
}

/// A caller who says how isolated a delegate is has the last word.
/// One who does not leaves it to the account they named, or to the machine's default: it inherits
/// where that account says so, and a checkout's choice never loosens anything.
pub proof fn isolation_is_the_default(d: DelegateModel, config: ConfigModel)
    ensures
        d.isolation matches Some(isolation) ==> isolation_of(d, config) == isolation,
        d.isolation is None ==> (isolation_of(d, config) == Isolation::Inherit <==> exists|
            alias: Seq<char>,
        |
            {
                &&& d.account == Some(alias) || (d.account is None && !chosen_by_checkout(
                    config,
                    d.vendor,
                ) && default_alias(config, d.vendor) == Some(alias))
                &&& #[trigger] account_at(config, d.vendor, alias) matches Some(account)
                    && account.inherit_settings == Some(true)
            }),
        d.isolation is None && d.account is None && chosen_by_checkout(config, d.vendor)
            ==> isolation_of(d, config) == Isolation::Isolated,
{
    if d.isolation is None && isolation_of(d, config) == Isolation::Inherit {
        let alias = if d.account is Some {
            d.account->Some_0
        } else {
            default_alias(config, d.vendor)->Some_0
        };
        assert(account_at(config, d.vendor, alias) is Some);
    }
}

/// A credential that an account sets: what the variable it names holds, or what it writes down.
pub open spec fn owed(
    literal: Option<Seq<char>>,
    variable: Option<Seq<char>>,
    host: Map<Seq<char>, Seq<char>>,
) -> Option<Seq<char>> {
    if variable is Some {
        Some(host[variable->Some_0])
    } else {
        literal
    }
}

/// Whether an account's own launch layer leaves a variable alone.
pub open spec fn leaves_alone(account: AccountModel, k: Seq<char>) -> bool {
    !account.launch.env.contains_key(k) && !account.launch.env_passthrough.contains(k)
}

/// Whether an environment holds a credential under a variable, and holds nothing there where there
/// is none.
pub open spec fn holds(
    env: Map<Seq<char>, Seq<char>>,
    k: Seq<char>,
    value: Option<Seq<char>>,
) -> bool {
    &&& env.contains_key(k) == value is Some
    &&& value is Some ==> env[k] == value->Some_0
}

/// An account's credentials arrive, each under the variable that its vendor's CLI reads: the key,
/// the token, the endpoint and the directory.
/// One that the account does not set is not taken from anywhere else.
pub proof fn an_accounts_credentials_arrive(
    vendor: Vendor,
    requested: Option<Seq<char>>,
    config: ConfigModel,
    host: Map<Seq<char>, Seq<char>>,
    platform: Platform,
    dir_exists: bool,
    identity: IdentityModel,
    account: AccountModel,
)
    requires
        identity_of(vendor, requested, config, host, platform, dir_exists) == Ok::<
            _,
            DelegateErrorModel,
        >(identity),
        identity.account == Some(account),
    ensures
        account.api_key_env matches Some(name) ==> host.contains_key(name),
        account.auth_token_env matches Some(name) ==> host.contains_key(name),
        ({
            let key = owed(account.api_key, account.api_key_env, host);
            let token = owed(account.auth_token, account.auth_token_env, host);
            match vendor {
                Vendor::Claude => {
                    &&& leaves_alone(account, "ANTHROPIC_API_KEY"@) ==> holds(
                        identity.env,
                        "ANTHROPIC_API_KEY"@,
                        key,
                    )
                    &&& leaves_alone(account, "ANTHROPIC_AUTH_TOKEN"@) ==> holds(
                        identity.env,
                        "ANTHROPIC_AUTH_TOKEN"@,
                        token,
                    )
                    &&& leaves_alone(account, "ANTHROPIC_BASE_URL"@) ==> holds(
                        identity.env,
                        "ANTHROPIC_BASE_URL"@,
                        account.base_url,
                    )
                    &&& leaves_alone(account, "CLAUDE_CONFIG_DIR"@) && account.config_dir is Some
                        ==> holds(
                        identity.env,
                        "CLAUDE_CONFIG_DIR"@,
                        account_dir_of(account, host, platform),
                    )
                },
                Vendor::Codex => {
                    &&& token is None
                    &&& leaves_alone(account, "OPENAI_API_KEY"@) ==> holds(
                        identity.env,
                        "OPENAI_API_KEY"@,
                        key,
                    )
                    &&& leaves_alone(account, "OPENAI_BASE_URL"@) ==> holds(
                        identity.env,
                        "OPENAI_BASE_URL"@,
                        account.base_url,
                    )
                    &&& leaves_alone(account, "CODEX_HOME"@) ==> holds(
                        identity.env,
                        "CODEX_HOME"@,
                        account_dir_of(account, host, platform),
                    )
                },
            }
        }),
        account.config_dir is Some ==> dir_exists,
{
    lemma_variables_differ();
    let start = layered(base_env_of(platform, host), config.launch, host);
    let names = credential_names(vendor);
    let alias = selection_of(vendor, requested, config)->Ok_0->Some_0.0;
    let own = with_credentials(
        config.programs,
        withheld(start, names),
        vendor,
        alias,
        account,
        host,
        platform,
        dir_exists,
    )->Ok_0;
    assert(identity.env == layered(own, account.launch, host));
    match vendor {
        Vendor::Claude => {
            assert(names[0] == "ANTHROPIC_API_KEY"@);
            assert(names[1] == "ANTHROPIC_AUTH_TOKEN"@);
            assert(names[2] == "ANTHROPIC_BASE_URL"@);
            lemma_arrives(start, names, own, account, host, "ANTHROPIC_API_KEY"@);
            lemma_arrives(start, names, own, account, host, "ANTHROPIC_AUTH_TOKEN"@);
            lemma_arrives(start, names, own, account, host, "ANTHROPIC_BASE_URL"@);
            lemma_arrives(start, names, own, account, host, "CLAUDE_CONFIG_DIR"@);
        },
        Vendor::Codex => {
            assert(names[0] == "OPENAI_API_KEY"@);
            assert(names[1] == "OPENAI_BASE_URL"@);
            assert(names[2] == "CODEX_HOME"@);
            lemma_arrives(start, names, own, account, host, "OPENAI_API_KEY"@);
            lemma_arrives(start, names, own, account, host, "OPENAI_BASE_URL"@);
            lemma_arrives(start, names, own, account, host, "CODEX_HOME"@);
        },
    }
}

/// What an account's launch layer leaves alone is as it was before the layer.
proof fn lemma_arrives(
    start: Map<Seq<char>, Seq<char>>,
    names: Seq<Seq<char>>,
    own: Map<Seq<char>, Seq<char>>,
    account: AccountModel,
    host: Map<Seq<char>, Seq<char>>,
    k: Seq<char>,
)
    ensures
        names.contains(k) ==> !withheld(start, names).contains_key(k),
        leaves_alone(account, k) ==> {
            let env = layered(own, account.launch, host);
            &&& env.contains_key(k) == own.contains_key(k)
            &&& own.contains_key(k) ==> env[k] == own[k]
        },
{
    lemma_withheld_keys(start, names, k);
    if leaves_alone(account, k) {
        lemma_forwarded_keys(own, account.launch.env_passthrough, host, k);
        if own.contains_key(k) {
            lemma_forwarded_leaves(own, account.launch.env_passthrough, host, k);
        }
    }
}

/// The variables of the two CLIs are different variables.
proof fn lemma_variables_differ()
    ensures
        "ANTHROPIC_API_KEY"@ != "ANTHROPIC_AUTH_TOKEN"@,
        "ANTHROPIC_API_KEY"@ != "ANTHROPIC_BASE_URL"@,
        "ANTHROPIC_API_KEY"@ != "CLAUDE_CONFIG_DIR"@,
        "ANTHROPIC_AUTH_TOKEN"@ != "ANTHROPIC_BASE_URL"@,
        "ANTHROPIC_AUTH_TOKEN"@ != "CLAUDE_CONFIG_DIR"@,
        "ANTHROPIC_BASE_URL"@ != "CLAUDE_CONFIG_DIR"@,
        "OPENAI_API_KEY"@ != "OPENAI_BASE_URL"@,
        "OPENAI_API_KEY"@ != "CODEX_HOME"@,
        "OPENAI_API_KEY"@ != "ANTHROPIC_AUTH_TOKEN"@,
        "OPENAI_BASE_URL"@ != "CODEX_HOME"@,
        "OPENAI_BASE_URL"@ != "ANTHROPIC_AUTH_TOKEN"@,
        "CODEX_HOME"@ != "ANTHROPIC_AUTH_TOKEN"@,
{
    reveal_strlit("ANTHROPIC_API_KEY");
    reveal_strlit("ANTHROPIC_AUTH_TOKEN");
    reveal_strlit("ANTHROPIC_BASE_URL");
    reveal_strlit("CLAUDE_CONFIG_DIR");
    reveal_strlit("OPENAI_API_KEY");
    reveal_strlit("OPENAI_BASE_URL");
    reveal_strlit("CODEX_HOME");
    assert("ANTHROPIC_API_KEY"@.len() == 17);
    assert("ANTHROPIC_AUTH_TOKEN"@.len() == 20);
    assert("ANTHROPIC_BASE_URL"@.len() == 18);
    assert("CLAUDE_CONFIG_DIR"@.len() == 17);
    assert("OPENAI_API_KEY"@.len() == 14);
    assert("OPENAI_BASE_URL"@.len() == 15);
    assert("CODEX_HOME"@.len() == 10);
    assert("ANTHROPIC_API_KEY"@[0] == 'A');
    assert("CLAUDE_CONFIG_DIR"@[0] == 'C');
}

/// What an identity holds the child holds too, unless this very call asks for something else.
pub proof fn an_identity_reaches_the_child(
    d: DelegateModel,
    resume: Option<Seq<char>>,
    last_message_path: Seq<char>,
    extra_env: Map<Seq<char>, Seq<char>>,
    config: ConfigModel,
    host: Map<Seq<char>, Seq<char>>,
    platform: Platform,
    dir_exists: bool,
    k: Seq<char>,
)
    requires
        walkable(extra_env),
        !requests(platform, extra_env, k),
        k != DELEGATE_MARKER@,
    ensures
        invocation_of(
            d,
            resume,
            last_message_path,
            extra_env,
            config,
            host,
            platform,
            dir_exists,
        ) matches Ok(child) ==> {
            &&& identity_of(
                d.vendor,
                d.account,
                config,
                host,
                platform,
                dir_exists,
            ) matches Ok(identity)
            &&& child.env.contains_key(k) == identity.env.contains_key(k)
            &&& identity.env.contains_key(k) ==> child.env[k] == identity.env[k]
        },
{
    if let Ok(identity) = identity_of(d.vendor, d.account, config, host, platform, dir_exists) {
        lemma_unrequested(platform, identity.env, extra_env, k);
    }
}

/// The account that a caller names is the one that pays; with none named it is the configured
/// default, and with no default it is nobody but the host.
/// An alias that nothing is configured under, and an account that says nothing, start nothing.
pub proof fn the_account_named_is_the_one_that_pays(
    vendor: Vendor,
    requested: Option<Seq<char>>,
    config: ConfigModel,
    host: Map<Seq<char>, Seq<char>>,
    platform: Platform,
    dir_exists: bool,
)
    ensures
        ({
            let named = if requested is Some {
                requested
            } else {
                default_alias(config, vendor)
            };
            match identity_of(vendor, requested, config, host, platform, dir_exists) {
                Ok(identity) => {
                    &&& named is None ==> identity.account is None
                    &&& named matches Some(alias) ==> {
                        &&& identity.account is Some
                        &&& identity.account == account_at(config, vendor, alias)
                        &&& identity.account != Some(no_account())
                    }
                },
                Err(DelegateErrorModel::UnknownAccount { vendor: of, alias, .. }) => {
                    &&& of == vendor
                    &&& named == Some(alias)
                    &&& account_at(config, vendor, alias) is None
                },
                Err(DelegateErrorModel::AccountDirMissing { vendor: of, alias, path }) => {
                    &&& of == vendor
                    &&& named == Some(alias)
                    &&& account_at(config, vendor, alias) matches Some(account) && Some(path)
                        == account_dir_of(account, host, platform)
                    &&& !dir_exists
                },
                Err(_) => named is Some,
            }
        }),
        requested matches Some(alias) ==> account_at(config, vendor, alias) is None
            ==> identity_of(
            vendor,
            requested,
            config,
            host,
            platform,
            dir_exists,
        ) matches Err(DelegateErrorModel::UnknownAccount { .. }),
{
}

/// An account whose parts are all there starts: its directory exists, the variables it reads are
/// set, and it carries no token that its CLI cannot read.
pub proof fn a_complete_account_resolves(
    vendor: Vendor,
    alias: Seq<char>,
    config: ConfigModel,
    host: Map<Seq<char>, Seq<char>>,
    platform: Platform,
    dir_exists: bool,
    account: AccountModel,
)
    requires
        account_at(config, vendor, alias) == Some(account),
        account != no_account(),
        account.config_dir is Some ==> dir_exists,
        account.api_key_env matches Some(name) ==> host.contains_key(name),
        account.auth_token_env matches Some(name) ==> host.contains_key(name),
        vendor == Vendor::Codex ==> account.auth_token is None && account.auth_token_env is None,
    ensures
        identity_of(vendor, Some(alias), config, host, platform, dir_exists) is Ok,
{
}

/// What every child needs to reach the network and to find its home is carried over from the host,
/// and the child is told that nobody is at a terminal.
pub proof fn the_hosts_basics_are_carried(
    platform: Platform,
    host: Map<Seq<char>, Seq<char>>,
    k: Seq<char>,
)
    requires
        platform == Platform::Unix,
    ensures
        host.contains_key(k) && basics().contains(k) ==> base_env_of(platform, host).contains_key(k)
            && base_env_of(platform, host)[k] == host[k],
        base_env_of(platform, host).contains_key(k) ==> (host.contains_key(k) && basics().contains(
            k,
        )) || k == "TERM"@ || k == "NO_COLOR"@ || k == "CI"@,
        base_env_of(platform, host).contains_key("TERM"@) && base_env_of(platform, host)["TERM"@]
            == "dumb"@,
        base_env_of(platform, host).contains_key("NO_COLOR"@) && base_env_of(
            platform,
            host,
        )["NO_COLOR"@] == "1"@,
        base_env_of(platform, host).contains_key("CI"@) && base_env_of(platform, host)["CI"@]
            == "1"@,
{
    let names = base_names(platform).map_values(
        |name: Seq<char>| canonical_name(platform, name),
    );
    assert(names =~= basics());
    reveal_strlit("TERM");
    reveal_strlit("NO_COLOR");
    reveal_strlit("CI");
    assert("TERM"@.len() == 4 && "NO_COLOR"@.len() == 8 && "CI"@.len() == 2);
    lemma_basics_are_not_marks();
    lemma_forwarded_present(names, host, k);
    if host.contains_key(k) && basics().contains(k) {
        lemma_forwarded_value(Map::empty(), names, host, k);
    }
}

/// What the host hands on to every child.
pub open spec fn basics() -> Seq<Seq<char>> {
    seq![
        "PATH"@,
        "HOME"@,
        "USER"@,
        "LOGNAME"@,
        "SHELL"@,
        "LANG"@,
        "LC_ALL"@,
        "LC_CTYPE"@,
        "TZ"@,
        "TMPDIR"@,
        "HTTP_PROXY"@,
        "HTTPS_PROXY"@,
        "NO_PROXY"@,
        "http_proxy"@,
        "https_proxy"@,
        "no_proxy"@,
        "SSL_CERT_FILE"@,
        "SSL_CERT_DIR"@,
        "NODE_EXTRA_CA_CERTS"@,
    ]
}

/// Forwarding into nothing gives what the host has.
proof fn lemma_forwarded_present(
    names: Seq<Seq<char>>,
    host: Map<Seq<char>, Seq<char>>,
    k: Seq<char>,
)
    ensures
        forwarded(Map::empty(), names, host).contains_key(k) ==> names.contains(k)
            && host.contains_key(k),
    decreases names.len(),
{
    if names.len() > 0 {
        lemma_forwarded_present(names.drop_last(), host, k);
        if names.drop_last().contains(k) {
            let i = choose|i: int| 0 <= i < names.drop_last().len() && names.drop_last()[i] == k;
            assert(names[i] == k);
        }
        assert(names[names.len() - 1] == names.last());
    }
}

/// None of what the host hands on is one of the marks of a missing terminal.
proof fn lemma_basics_are_not_marks()
    ensures
        !basics().contains("TERM"@),
        !basics().contains("NO_COLOR"@),
        !basics().contains("CI"@),
{
    reveal_strlit("TERM");
    reveal_strlit("NO_COLOR");
    reveal_strlit("CI");
    reveal_strlit("PATH");
    reveal_strlit("HOME");
    reveal_strlit("USER");
    reveal_strlit("LOGNAME");
    reveal_strlit("SHELL");
    reveal_strlit("LANG");
    reveal_strlit("LC_ALL");
    reveal_strlit("LC_CTYPE");
    reveal_strlit("TZ");
    reveal_strlit("TMPDIR");
    reveal_strlit("HTTP_PROXY");
    reveal_strlit("HTTPS_PROXY");
    reveal_strlit("NO_PROXY");
    reveal_strlit("http_proxy");
    reveal_strlit("https_proxy");
    reveal_strlit("no_proxy");
    reveal_strlit("SSL_CERT_FILE");
    reveal_strlit("SSL_CERT_DIR");
    reveal_strlit("NODE_EXTRA_CA_CERTS");
    assert("PATH"@.len() == 4);
    assert("HOME"@.len() == 4);
    assert("USER"@.len() == 4);
    assert("LOGNAME"@.len() == 7);
    assert("SHELL"@.len() == 5);
    assert("LANG"@.len() == 4);
    assert("LC_ALL"@.len() == 6);
    assert("LC_CTYPE"@.len() == 8);
    assert("TZ"@.len() == 2);
    assert("TMPDIR"@.len() == 6);
    assert("HTTP_PROXY"@.len() == 10);
    assert("HTTPS_PROXY"@.len() == 11);
    assert("NO_PROXY"@.len() == 8);
    assert("http_proxy"@.len() == 10);
    assert("https_proxy"@.len() == 11);
    assert("no_proxy"@.len() == 8);
    assert("SSL_CERT_FILE"@.len() == 13);
    assert("SSL_CERT_DIR"@.len() == 12);
    assert("NODE_EXTRA_CA_CERTS"@.len() == 19);
    assert("TERM"@.len() == 4);
    assert("NO_COLOR"@.len() == 8);
    assert("CI"@.len() == 2);
    assert("TERM"@[0] == 'T' && "PATH"@[0] == 'P' && "HOME"@[0] == 'H' && "USER"@[0] == 'U'
        && "LANG"@[0] == 'L');
    assert("NO_COLOR"@[3] == 'C' && "LC_CTYPE"@[3] == 'C' && "NO_COLOR"@[0] == 'N'
        && "LC_CTYPE"@[0] == 'L' && "NO_PROXY"@[3] == 'P' && "no_proxy"@[0] == 'n');
    assert("CI"@[0] == 'C' && "TZ"@[0] == 'T');
}

/// The words that argument vectors are made of are different words.
proof fn lemma_words_differ()
    ensures
        "--resume"@ != "--model"@,
        "--resume"@ != "--effort"@,
        "--resume"@ != "--print"@,
        "--resume"@ != "--permission-mode"@,
        "--resume"@ != "plan"@,
        "--resume"@ != "--tools"@,
        "--resume"@ != CLAUDE_READ_ONLY_TOOLS@,
        "--resume"@ != "--output-format"@,
        "--resume"@ != "stream-json"@,
        "--resume"@ != "--verbose"@,
        "--resume"@ != "--setting-sources"@,
        "--resume"@ != Seq::<char>::empty(),
        "--resume"@ != "--strict-mcp-config"@,
        "--resume"@ != "--mcp-config"@,
        "--resume"@ != EMPTY_MCP_CONFIG@,
        "--resume"@[0] == '-',
        "resume"@ != "exec"@,
        "resume"@ != "--json"@,
        "resume"@ != "--skip-git-repo-check"@,
        "resume"@ != "--model"@,
        "resume"@ != "--config"@,
        "resume"@ != "--ignore-user-config"@,
        "resume"@ != "features.hooks=false"@,
        "resume"@ != "--sandbox"@,
        "resume"@ != "read-only"@,
        "resume"@ != "workspace-write"@,
        "resume"@ != "--output-last-message"@,
        "resume"@ != "-"@,
        "resume"@.len() == 6,
{
    reveal_strlit("--resume");
    reveal_strlit("--model");
    reveal_strlit("--effort");
    reveal_strlit("--print");
    reveal_strlit("--permission-mode");
    reveal_strlit("plan");
    reveal_strlit("--tools");
    reveal_strlit("Bash,Read,Grep,Glob,WebFetch,WebSearch");
    reveal_strlit("--output-format");
    reveal_strlit("stream-json");
    reveal_strlit("--verbose");
    reveal_strlit("--setting-sources");
    reveal_strlit("--strict-mcp-config");
    reveal_strlit("--mcp-config");
    reveal_strlit("{\"mcpServers\":{}}");
    reveal_strlit("resume");
    reveal_strlit("exec");
    reveal_strlit("--json");
    reveal_strlit("--skip-git-repo-check");
    reveal_strlit("--config");
    reveal_strlit("--ignore-user-config");
    reveal_strlit("features.hooks=false");
    reveal_strlit("--sandbox");
    reveal_strlit("read-only");
    reveal_strlit("workspace-write");
    reveal_strlit("--output-last-message");
    reveal_strlit("-");
    assert("--resume"@.len() == 8 && Seq::<char>::empty().len() == 0);
    assert("resume"@.len() == 6 && "read-only"@.len() == 9);
    assert("--resume"@[2] == 'r');
    assert("--model"@[2] == 'm');
    assert("--effort"@[2] == 'e');
    assert("--resume"@[0] == '-');
    assert("resume"@[0] == 'r');
    assert("--json"@[0] == '-');
}

/// A delegate can be built exactly where each of its parts can be passed on, and only Codex has a
/// sandbox.
pub proof fn a_delegate_is_built_from_sound_parts(
    vendor: Vendor,
    model: Seq<char>,
    effort: Option<Seq<char>>,
    account: Option<Seq<char>>,
    sandbox: Option<CodexSandbox>,
)
    ensures
        parts_error(vendor, model, effort, account, sandbox) is None <==> {
            &&& token_fault(model, ModelId::MAX_LEN as nat, Alphabet::Model) is None
            &&& effort matches Some(e) ==> token_fault(e, Effort::MAX_LEN as nat, Alphabet::Effort)
                is None
            &&& account matches Some(a) ==> token_fault(
                a,
                AccountAlias::MAX_LEN as nat,
                Alphabet::Alias,
            ) is None
            &&& sandbox is Some ==> vendor == Vendor::Codex
        },
{
}

/// A variable that a call asks for is refused exactly where it cannot be named, its value cannot be
/// carried, or nobody allows it.
pub proof fn a_request_is_refused_only_for_a_reason(
    platform: Platform,
    name: Seq<char>,
    value: Seq<char>,
    allowed: Seq<Seq<char>>,
)
    ensures
        request_error(platform, name, value, allowed) is None <==> {
            &&& names_a_variable(name)
            &&& forall|i: int| 0 <= i < value.len() ==> #[trigger] value[i] != '\0'
            &&& exists|i: int|
                0 <= i < allowed.len() && #[trigger] allowed[i] == canonical_name(platform, name)
        },
{
    a_variable_can_be_named(name);
    if !value.contains('\0') {
        assert forall|i: int| 0 <= i < value.len() implies #[trigger] value[i] != '\0' by {}
    }
}

/// What a call may ask for is what the machine allows, and what the account allows too where the
/// caller or the machine chose it; a checkout's choice allows nothing.
pub proof fn only_the_operator_allows_names(
    config: ConfigModel,
    identity: IdentityModel,
    name: Seq<char>,
)
    ensures
        allowed_names(config, identity).contains(name) <==> config.launch.request_env.contains(name)
            || (!identity.chosen_by_project && identity.account is Some
            && identity.account->Some_0.launch.request_env.contains(name)),
{
    let own = config.launch.request_env;
    let all = allowed_names(config, identity);
    if own.contains(name) {
        let i = choose|i: int| 0 <= i < own.len() && own[i] == name;
        assert(all[i] == name);
    }
    if !identity.chosen_by_project && identity.account is Some
        && identity.account->Some_0.launch.request_env.contains(name) {
        let more = identity.account->Some_0.launch.request_env;
        let i = choose|i: int| 0 <= i < more.len() && more[i] == name;
        assert(all[own.len() + i] == name);
    }
    if all.contains(name) {
        let i = choose|i: int| 0 <= i < all.len() && all[i] == name;
        if i < own.len() {
            assert(own[i] == name);
        } else {
            assert(identity.account->Some_0.launch.request_env[i - own.len()] == name);
        }
    }
}

/// The line that names a delegate names its program, its model, its effort and its account, its
/// sandbox where it has one, and that it inherits settings where it does.
pub proof fn a_summary_names_the_delegate(programs: ProgramsModel, d: DelegateModel)
    ensures
        ({
            let line = delegate_summary(programs, d);
            &&& stands_somewhere(line, program_of(programs, d.vendor))
            &&& stands_somewhere(line, d.model)
            &&& d.effort matches Some(effort) ==> stands_somewhere(line, " effort="@ + effort)
            &&& d.account matches Some(alias) ==> stands_somewhere(line, " account="@ + alias)
            &&& d.sandbox matches Some(sandbox) ==> stands_somewhere(
                line,
                " sandbox="@ + sandbox_name(sandbox),
            )
            &&& d.isolation == Some(Isolation::Inherit) ==> stands_somewhere(
                line,
                " settings=inherited"@,
            )
        }),
{
    let line = delegate_summary(programs, d);
    let program = program_of(programs, d.vendor);
    let effort = " effort="@ + account_text(d.effort);
    let sandbox: Seq<char> = match d.sandbox {
        Some(sandbox) => " sandbox="@ + sandbox_name(sandbox),
        None => Seq::empty(),
    };
    let account = " account="@ + account_text(d.account);
    let settings = isolation_text(d.isolation);
    let a = program + " "@;
    let b = a + d.model;
    let c = b + effort;
    let e = c + sandbox;
    let f = e + account;
    assert(line =~= f + settings);
    lemma_self(program);
    lemma_self(d.model);
    lemma_self(effort);
    lemma_self(sandbox);
    lemma_self(account);
    lemma_self(settings);
    lemma_deep(program, " "@, program);
    lemma_deep(a, d.model, program);
    lemma_deep(a, d.model, d.model);
    lemma_deep(b, effort, program);
    lemma_deep(b, effort, d.model);
    lemma_deep(b, effort, effort);
    lemma_deep(c, sandbox, program);
    lemma_deep(c, sandbox, d.model);
    lemma_deep(c, sandbox, effort);
    lemma_deep(c, sandbox, sandbox);
    lemma_deep(e, account, program);
    lemma_deep(e, account, d.model);
    lemma_deep(e, account, effort);
    lemma_deep(e, account, sandbox);
    lemma_deep(e, account, account);
    lemma_deep(f, settings, program);
    lemma_deep(f, settings, d.model);
    lemma_deep(f, settings, effort);
    lemma_deep(f, settings, sandbox);
    lemma_deep(f, settings, account);
    lemma_deep(f, settings, settings);
}

/// An account counts as the checkout's choice exactly where it is the default that a project file
/// chose.
pub proof fn a_checkouts_choice_is_told_apart(
    vendor: Vendor,
    requested: Option<Seq<char>>,
    config: ConfigModel,
    host: Map<Seq<char>, Seq<char>>,
    platform: Platform,
    dir_exists: bool,
)
    ensures
        identity_of(vendor, requested, config, host, platform, dir_exists) matches Ok(identity) ==> {
            let named = if requested is Some {
                requested
            } else {
                default_alias(config, vendor)
            };
            identity.chosen_by_project <==> named is Some && chosen_by_checkout(config, vendor)
                && named == default_alias(config, vendor)
        },
{
}

} // verus!
