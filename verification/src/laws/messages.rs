//! What a refusal tells the caller who has to act on it.

use vstd::prelude::*;

use crate::config::{ConfigModel, Platform};
use crate::delegate::{
    configured_text, delegate_error_text, identity_of, needed_dir, program_of, selection_text,
    DelegateErrorModel, Isolation, ProgramsModel, Vendor,
};
use crate::laws::render::{lemma_deep, lemma_joined, lemma_self, lemma_through};
use crate::laws::transcript::{stands_at, stands_somewhere};
use crate::mcp::params::{asked_isolation, Fault};
use crate::mcp::tools::{
    denial_text, fault_of, fixed_instructions, instructions_of, quoted_names, roster_text,
    AFTER_ROSTER,
};
use crate::run::{not_resumable_text, run_error_text, NotResumableModel, RunError};
use crate::text::{decimal, joined};

verus! {

/// A follow-up that is refused says which consultation it was for.
pub proof fn a_refused_follow_up_names_its_consultation(reason: NotResumableModel)
    ensures
        match reason {
            NotResumableModel::StillRunning { run_id } => stands_at(
                not_resumable_text(reason),
                "consultation "@ + run_id + " is still running"@,
                0,
            ),
            NotResumableModel::NoSession { run_id } => stands_at(
                not_resumable_text(reason),
                "consultation "@ + run_id + " has no session to reopen"@,
                0,
            ),
            NotResumableModel::NothingSaid { run_id, state } => stands_at(
                not_resumable_text(reason),
                "consultation "@ + run_id + " ended ("@ + state + ")"@,
                0,
            ),
            NotResumableModel::Cancelled { run_id } => stands_at(
                not_resumable_text(reason),
                "consultation "@ + run_id + " was cancelled"@,
                0,
            ),
        },
{
    let whole = not_resumable_text(reason);
    match reason {
        NotResumableModel::StillRunning { run_id } => {
            let part = "consultation "@ + run_id + " is still running"@;
            reveal_strlit(" is still running");
            reveal_strlit(
                " is still running, so it has nothing to continue yet. Wait for it with `result` and its `wait_seconds`, then ask the follow-up.",
            );
            assert(whole.subrange(0, part.len() as int) =~= part);
        },
        NotResumableModel::NoSession { run_id } => {
            let part = "consultation "@ + run_id + " has no session to reopen"@;
            reveal_strlit(" has no session to reopen");
            reveal_strlit(
                " has no session to reopen: the delegate never announced one, which usually means it failed before it started. Read its transcript for why, then start a new consultation.",
            );
            assert(whole.subrange(0, part.len() as int) =~= part);
        },
        NotResumableModel::NothingSaid { run_id, state } => {
            let part = "consultation "@ + run_id + " ended ("@ + state + ")"@;
            reveal_strlit(")");
            reveal_strlit(
                ") without the delegate saying anything, so there is no conversation to continue. Read its transcript for why, then start a fresh consultation.",
            );
            assert(whole.subrange(0, part.len() as int) =~= part);
        },
        NotResumableModel::Cancelled { run_id } => {
            let part = "consultation "@ + run_id + " was cancelled"@;
            reveal_strlit(" was cancelled");
            reveal_strlit(
                " was cancelled, so its delegate was stopped part-way through a turn. Everything collected before the cancellation is still readable with `result`, but continuing that turn would resume a delegate mid-thought. Start a new consultation.",
            );
            assert(whole.subrange(0, part.len() as int) =~= part);
        },
    }
}

/// An alias that is not configured is named back, beside every alias that is, and beside the file
/// that chose it where the caller did not.
pub proof fn an_unknown_account_is_told_with_the_known_ones(
    programs: ProgramsModel,
    vendor: Vendor,
    alias: Seq<char>,
    configured: Seq<Seq<char>>,
    config_path: Option<Seq<char>>,
    selected_by: Option<Seq<char>>,
)
    ensures
        ({
            let error = DelegateErrorModel::UnknownAccount {
                vendor,
                alias,
                configured,
                config_path,
                selected_by,
            };
            let whole = delegate_error_text(programs, error);
            &&& stands_somewhere(whole, alias)
            &&& forall|i: int|
                0 <= i < configured.len() ==> stands_somewhere(whole, #[trigger] configured[i])
            &&& config_path matches Some(path) ==> stands_somewhere(whole, path)
            &&& selected_by matches Some(path) ==> stands_somewhere(whole, path)
        }),
{
    let error = DelegateErrorModel::UnknownAccount {
        vendor,
        alias,
        configured,
        config_path,
        selected_by,
    };
    let whole = delegate_error_text(programs, error);
    let a = "no "@ + program_of(programs, vendor) + " account named `"@;
    let b = a + alias + "` is configured"@;
    let chosen = selection_text(selected_by);
    let known = configured_text(configured, config_path);
    assert(whole == b + chosen + ". "@ + known);
    lemma_self(alias);
    lemma_deep(a, alias, alias);
    lemma_deep(a + alias, "` is configured"@, alias);
    lemma_deep(b, chosen, alias);
    lemma_deep(b + chosen, ". "@, alias);
    lemma_deep(b + chosen + ". "@, known, alias);
    if let Some(path) = selected_by {
        lemma_self(path);
        lemma_deep(", and "@, path, path);
        lemma_deep(", and "@ + path, " selects it as the default"@, path);
        lemma_deep(b, chosen, path);
        lemma_deep(b + chosen, ". "@, path);
        lemma_deep(b + chosen + ". "@, known, path);
    }
    lemma_self(known);
    lemma_deep(b + chosen + ". "@, known, known);
    if let Some(path) = config_path {
        lemma_self(path);
        if configured.len() == 0 {
            lemma_deep(path, " defines none for it."@, path);
        } else {
            lemma_deep(path, " defines: "@, path);
            lemma_deep(path + " defines: "@, joined(configured, ", "@), path);
            lemma_deep(path + " defines: "@ + joined(configured, ", "@), "."@, path);
        }
        lemma_through(whole, known, path);
    }
    assert forall|i: int| 0 <= i < configured.len() implies stands_somewhere(
        whole,
        #[trigger] configured[i],
    ) by {
        let list = joined(configured, ", "@);
        lemma_joined(configured, i);
        let lead: Seq<char> = match config_path {
            Some(path) => path + " defines: "@,
            None => "Configured: "@,
        };
        lemma_deep(lead, list, configured[i]);
        lemma_deep(lead + list, "."@, configured[i]);
        lemma_through(whole, known, configured[i]);
    }
}

/// An operation that fails on a consultation names it, and one that fails on a file or on the system
/// passes on what was met.
pub proof fn a_failed_operation_says_what_it_met(programs: ProgramsModel, error: RunError)
    ensures
        match error {
            RunError::NotFound(run_id) => stands_somewhere(
                run_error_text(programs, error),
                run_id@,
            ),
            RunError::Corrupt { run_id, source } => stands_somewhere(
                run_error_text(programs, error),
                run_id@,
            ) && stands_somewhere(run_error_text(programs, error), source@),
            RunError::CorruptRecord { path, source } => stands_somewhere(
                run_error_text(programs, error),
                path@,
            ) && stands_somewhere(run_error_text(programs, error), source@),
            RunError::Io { context, source } => stands_somewhere(
                run_error_text(programs, error),
                context@,
            ) && stands_somewhere(run_error_text(programs, error), source@),
            RunError::TurnAlreadyClaimed { run_id, index } => stands_somewhere(
                run_error_text(programs, error),
                run_id@,
            ) && stands_somewhere(
                run_error_text(programs, error),
                " already has a turn "@ + decimal(index as nat),
            ),
            RunError::StillRunning { run_id } => stands_somewhere(
                run_error_text(programs, error),
                run_id@,
            ),
            RunError::VendorDenied { vendor } => stands_somewhere(
                run_error_text(programs, error),
                "`--deny "@ + program_of(programs, vendor) + "`"@,
            ),
            _ => true,
        },
{
    match error {
        RunError::NotFound(run_id) => {
            lemma_self(run_id@);
            lemma_deep("no consultation with id "@, run_id@, run_id@);
            lemma_deep(
                "no consultation with id "@ + run_id@,
                "; call `list` to see recent ids"@,
                run_id@,
            );
        },
        RunError::Corrupt { run_id, source } => {
            let a = "consultation "@ + run_id@;
            let b = a + " has unreadable metadata: "@;
            lemma_self(run_id@);
            lemma_self(source@);
            lemma_deep("consultation "@, run_id@, run_id@);
            lemma_deep(a, " has unreadable metadata: "@, run_id@);
            lemma_deep(b, source@, run_id@);
            lemma_deep(b, source@, source@);
        },
        RunError::CorruptRecord { path, source } => {
            let a = "the record at "@ + path@;
            let b = a + " cannot be parsed: "@;
            lemma_self(path@);
            lemma_self(source@);
            lemma_deep("the record at "@, path@, path@);
            lemma_deep(a, " cannot be parsed: "@, path@);
            lemma_deep(b, source@, path@);
            lemma_deep(b, source@, source@);
        },
        RunError::Io { context, source } => {
            lemma_self(context@);
            lemma_self(source@);
            lemma_deep(context@, ": "@, context@);
            lemma_deep(context@ + ": "@, source@, context@);
            lemma_deep(context@ + ": "@, source@, source@);
        },
        RunError::TurnAlreadyClaimed { run_id, index } => {
            let a = "consultation "@ + run_id@;
            let words = " already has a turn "@ + decimal(index as nat);
            let tail = ", started by another caller. Only one follow-up can be outstanding at a time; read the consultation again with `result`."@;
            let whole = run_error_text(programs, error);
            assert(whole =~= a + words + tail);
            lemma_self(run_id@);
            lemma_self(words);
            lemma_deep("consultation "@, run_id@, run_id@);
            lemma_deep(a, words, run_id@);
            lemma_deep(a, words, words);
            lemma_deep(a + words, tail, run_id@);
            lemma_deep(a + words, tail, words);
        },
        RunError::StillRunning { run_id } => {
            let a = "consultation "@ + run_id@;
            lemma_self(run_id@);
            lemma_deep("consultation "@, run_id@, run_id@);
            lemma_deep(
                a,
                " is still running. Wait for it with `result`, or `cancel` it first."@,
                run_id@,
            );
        },
        RunError::VendorDenied { vendor } => {
            lemma_denied(programs, vendor);
        },
        _ => {},
    }
}

proof fn lemma_denied(programs: ProgramsModel, vendor: Vendor)
    ensures
        stands_somewhere(
            run_error_text(programs, RunError::VendorDenied { vendor }),
            "`--deny "@ + program_of(programs, vendor) + "`"@,
        ),
{
    let name = program_of(programs, vendor);
    let words = "`--deny "@ + name + "`"@;
    let a = "this agentmux server does not launch `"@ + name;
    let b = "` delegates: it was started with "@;
    let c = " because the harness it serves is itself `"@;
    let d = "` and spawns same-vendor subagents natively. Consult the other vendor here, and use your own harness's subagents for `"@;
    reveal_strlit("` delegates: it was started with `--deny ");
    reveal_strlit("` delegates: it was started with ");
    reveal_strlit("`--deny ");
    reveal_strlit("` because the harness it serves is itself `");
    reveal_strlit(" because the harness it serves is itself `");
    reveal_strlit("`");
    assert("` delegates: it was started with `--deny "@ =~= b + "`--deny "@);
    assert("` because the harness it serves is itself `"@ =~= "`"@ + c);
    let whole = run_error_text(programs, RunError::VendorDenied { vendor });
    let rest = c + name + d + name + "`."@;
    assert(whole =~= a + b + words + rest);
    lemma_self(words);
    lemma_deep(a + b, words, words);
    lemma_deep(a + b + words, rest, words);
}

/// A caller is blamed for what they asked for, and the machine for what it could not do.
pub proof fn the_machine_is_blamed_for_its_own(error: RunError)
    ensures
        fault_of(error) == Fault::Machine <==> error is Launch || error is Corrupt || error
            is CorruptRecord || error is Io || error is NoStateDir,
{
}

/// A vendor that is denied is named as denied in the instructions that a caller is given, and the
/// accounts of the machine are in them too.
pub proof fn the_instructions_name_the_denied(
    programs: ProgramsModel,
    config: Option<ConfigModel>,
    denied: Seq<Vendor>,
)
    ensures
        denied.len() > 0 ==> stands_somewhere(
            instructions_of(programs, config, denied),
            "This server launches no "@ + joined(quoted_names(programs, denied), " and "@),
        ),
        config matches Some(config) ==> stands_somewhere(
            instructions_of(programs, Some(config), denied),
            roster_text(config),
        ),
        forall|i: int|
            0 <= i < denied.len() ==> #[trigger] quoted_names(programs, denied)[i] == "`"@
                + program_of(programs, denied[i]) + "`"@,
        quoted_names(programs, denied).len() == denied.len(),
{
    let whole = instructions_of(programs, config, denied);
    let about = fixed_instructions(programs);
    let denial = denial_text(programs, denied);
    let fixed = about + denial;
    if denied.len() > 0 {
        let words = "This server launches no "@ + joined(quoted_names(programs, denied), " and "@);
        reveal_strlit("\n\nThis server launches no ");
        reveal_strlit("This server launches no ");
        assert(denial.subrange(2, 2 + words.len() as int) =~= words);
        assert(stands_at(denial, words, 2));
        lemma_deep(about, denial, words);
        if let Some(config) = config {
            lemma_deep(fixed, "\n\n"@, words);
            lemma_deep(fixed + "\n\n"@, roster_text(config), words);
            lemma_deep(fixed + "\n\n"@ + roster_text(config), AFTER_ROSTER@, words);
        }
    }
    if let Some(config) = config {
        let roster = roster_text(config);
        lemma_self(roster);
        lemma_deep(fixed + "\n\n"@, roster, roster);
        lemma_deep(fixed + "\n\n"@ + roster, AFTER_ROSTER@, roster);
    }
}

/// A call that says whether settings are inherited is taken at its word, and one that does not
/// leaves it to the account.
pub proof fn a_call_is_taken_at_its_word(inherit: Option<bool>)
    ensures
        asked_isolation(inherit) == Some(Isolation::Inherit) <==> inherit == Some(true),
        asked_isolation(inherit) == Some(Isolation::Isolated) <==> inherit == Some(false),
{
}

/// Only the directory of the account that pays has to be there: where none is needed, it makes no
/// difference whether one is found.
pub proof fn only_a_needed_directory_matters(
    vendor: Vendor,
    requested: Option<Seq<char>>,
    config: ConfigModel,
    host: Map<Seq<char>, Seq<char>>,
    platform: Platform,
)
    ensures
        needed_dir(vendor, requested, config, host, platform) is None ==> identity_of(
            vendor,
            requested,
            config,
            host,
            platform,
            true,
        ) == identity_of(vendor, requested, config, host, platform, false),
        needed_dir(vendor, requested, config, host, platform) matches Some(dir) ==> (identity_of(
            vendor,
            requested,
            config,
            host,
            platform,
            false,
        ) matches Err(DelegateErrorModel::AccountDirMissing { path, .. }) && path == dir),
{
}

} // verus!
