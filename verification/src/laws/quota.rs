//! Who is asked what is left, and what counts as an answer.

use vstd::prelude::*;

use crate::config::{
    account_at, accounts_of, home_of, keys_of, AccountModel, ConfigModel, Platform,
};
use crate::delegate::{program_of, token_fault, AccountAlias, Alphabet, ProgramsModel, Vendor};
use crate::json::json_value;
use crate::laws::render::{lemma_deep, lemma_self};
use crate::laws::transcript::{stands_at, stands_somewhere};
use crate::ordered::{
    ascending, in_order, lemma_entry, lemma_precedes_irreflexive, lemma_precedes_total,
    lemma_precedes_transitive, map_of, precedes, walkable,
};
use crate::path::{expanded, joined_path, DirEntry};
use crate::quota::{
    codex_home_of, exchange_reason, figures_in, is_record_of, last_reading, last_record,
    named_targets, names_where, refresh_reason, stale_at, target_of, targets_of, usage_call,
    verdict, window_from_parts, Exchange, RefreshChild, TargetModel,
};
use crate::stream::lines_of;
use crate::time::{Moment, FIRST_SECOND, LAST_SECOND};

verus! {

/// Whether a text can be an alias.
pub open spec fn can_be_named(alias: Seq<char>) -> bool {
    token_fault(alias, AccountAlias::MAX_LEN as nat, Alphabet::Alias) is None
}

/// Whether the machine defines no account of a vendor.
pub open spec fn has_no_account(config: ConfigModel, vendor: Vendor) -> bool {
    forall|alias: Seq<char>| (#[trigger] account_at(config, vendor, alias)) is None
}

/// Every account of a vendor that can be named is asked, once, in the order in which the aliases are
/// listed, with its own description beside it, and nobody else is.
/// Only where the machine defines no account at all is the CLI's own login asked.
pub proof fn every_account_is_asked(vendor: Vendor, config: ConfigModel)
    requires
        walkable(accounts_of(config, vendor)),
    ensures
        forall|alias: Seq<char>|
            (#[trigger] account_at(config, vendor, alias)) is Some && can_be_named(alias)
                ==> targets_of(vendor, config).contains(
                (Some(alias), account_at(config, vendor, alias)->Some_0.description),
            ),
        forall|i: int|
            0 <= i < targets_of(vendor, config).len() ==> {
                match (#[trigger] targets_of(vendor, config)[i]).0 {
                    Some(alias) => account_at(config, vendor, alias) matches Some(account)
                        && account.description == targets_of(vendor, config)[i].1,
                    None => targets_of(vendor, config).len() == 1
                        && targets_of(vendor, config)[i].1 is None && has_no_account(
                        config,
                        vendor,
                    ),
                }
            },
        forall|i: int, j: int|
            0 <= i < j < targets_of(vendor, config).len() ==> {
                &&& (#[trigger] targets_of(vendor, config)[i]).0 is Some
                &&& (#[trigger] targets_of(vendor, config)[j]).0 is Some
                &&& precedes(
                    targets_of(vendor, config)[i].0->Some_0,
                    targets_of(vendor, config)[j].0->Some_0,
                )
            },
        has_no_account(config, vendor) ==> targets_of(vendor, config).len() == 1,
{
    let accounts = accounts_of(config, vendor);
    let p = in_order(accounts);
    let found = targets_of(vendor, config);
    assert forall|alias: Seq<char>| (#[trigger] account_at(config, vendor, alias)) is Some
        == accounts.contains_key(alias) && (accounts.contains_key(alias) ==> account_at(
        config,
        vendor,
        alias,
    )->Some_0 == accounts[alias]) by {}
    if accounts == Map::<Seq<char>, AccountModel>::empty() {
        assert(found.len() == 1);
    } else {
        lemma_named(p);
        if has_no_account(config, vendor) {
            assert forall|alias: Seq<char>| !accounts.contains_key(alias) by {
                assert(account_at(config, vendor, alias) is None);
            }
            assert(accounts =~= Map::empty());
        }
        assert forall|alias: Seq<char>|
            (#[trigger] account_at(config, vendor, alias)) is Some && can_be_named(
                alias,
            ) implies found.contains(
            (Some(alias), account_at(config, vendor, alias)->Some_0.description),
        ) by {
            assert(map_of(p).contains_key(alias));
            let i = choose|i: int| 0 <= i < p.len() && (#[trigger] p[i]).0 == alias;
            lemma_entry(p, i);
            assert(p[i] == (alias, accounts[alias]));
        }
        assert forall|i: int| 0 <= i < found.len() implies {
            &&& (#[trigger] found[i]).0 is Some
            &&& account_at(config, vendor, found[i].0->Some_0) matches Some(account)
                && account.description == found[i].1
        } by {
            let n = choose|n: int|
                0 <= n < p.len() && (Some((#[trigger] p[n]).0), p[n].1.description) == found[i];
            lemma_entry(p, n);
        }
    }
}

/// Where every alias can be named, the accounts asked are exactly those listed, one for one.
pub proof fn the_accounts_asked_are_those_listed(vendor: Vendor, config: ConfigModel)
    requires
        walkable(accounts_of(config, vendor)),
        accounts_of(config, vendor) != Map::<Seq<char>, AccountModel>::empty(),
        forall|alias: Seq<char>|
            #[trigger] accounts_of(config, vendor).contains_key(alias) ==> can_be_named(alias),
    ensures
        ({
            let listed = keys_of(in_order(accounts_of(config, vendor)));
            let found = targets_of(vendor, config);
            &&& found.len() == listed.len()
            &&& forall|i: int|
                0 <= i < listed.len() ==> (#[trigger] found[i]).0 == Some(listed[i]) && found[i].1
                    == accounts_of(config, vendor)[listed[i]].description
        }),
{
    let p = in_order(accounts_of(config, vendor));
    assert forall|i: int| 0 <= i < p.len() implies can_be_named((#[trigger] p[i]).0)
        && accounts_of(config, vendor)[p[i].0] == p[i].1 by {
        lemma_entry(p, i);
        assert(accounts_of(config, vendor).contains_key(p[i].0));
    }
    lemma_all_named(p);
}

proof fn lemma_all_named(p: Seq<(Seq<char>, AccountModel)>)
    requires
        forall|i: int| 0 <= i < p.len() ==> can_be_named((#[trigger] p[i]).0),
    ensures
        named_targets(p).len() == p.len(),
        forall|i: int|
            0 <= i < p.len() ==> #[trigger] named_targets(p)[i] == (
                Some(p[i].0),
                p[i].1.description,
            ),
    decreases p.len(),
{
    if p.len() > 0 {
        let init = p.drop_last();
        assert forall|i: int| 0 <= i < init.len() implies can_be_named((#[trigger] init[i]).0) by {
            assert(init[i] == p[i]);
        }
        lemma_all_named(init);
        assert(can_be_named(p[p.len() - 1].0));
    }
}

proof fn lemma_named(p: Seq<(Seq<char>, AccountModel)>)
    requires
        ascending(p),
    ensures
        forall|n: int|
            0 <= n < p.len() && can_be_named((#[trigger] p[n]).0) ==> named_targets(p).contains(
                (Some(p[n].0), p[n].1.description),
            ),
        forall|i: int|
            0 <= i < named_targets(p).len() ==> exists|n: int|
                0 <= n < p.len() && (Some((#[trigger] p[n]).0), p[n].1.description)
                    == #[trigger] named_targets(p)[i],
        forall|i: int, j: int|
            0 <= i < j < named_targets(p).len() ==> {
                &&& (#[trigger] named_targets(p)[i]).0 is Some
                &&& (#[trigger] named_targets(p)[j]).0 is Some
                &&& precedes(named_targets(p)[i].0->Some_0, named_targets(p)[j].0->Some_0)
            },
    decreases p.len(),
{
    if p.len() > 0 {
        let init = p.drop_last();
        let last = p.len() - 1;
        lemma_named(init);
        let before = named_targets(init);
        let all = named_targets(p);
        assert forall|n: int| 0 <= n < p.len() && can_be_named(
            (#[trigger] p[n]).0,
        ) implies all.contains((Some(p[n].0), p[n].1.description)) by {
            if n < last {
                assert(init[n] == p[n]);
                let t = (Some(p[n].0), p[n].1.description);
                let i = choose|i: int| 0 <= i < before.len() && before[i] == t;
                assert(all[i] == t);
            } else {
                assert(all[all.len() - 1] == (Some(p[n].0), p[n].1.description));
            }
        }
        assert forall|i: int| 0 <= i < all.len() implies exists|n: int|
            0 <= n < p.len() && (Some((#[trigger] p[n]).0), p[n].1.description)
                == #[trigger] all[i] by {
            if i < before.len() {
                assert(all[i] == before[i]);
                let n = choose|n: int|
                    0 <= n < init.len() && (Some((#[trigger] init[n]).0), init[n].1.description)
                        == before[i];
                assert(p[n] == init[n]);
            } else {
                assert(all[i] == (Some(p[last].0), p[last].1.description));
            }
        }
        assert forall|i: int, j: int| 0 <= i < j < all.len() implies {
            &&& (#[trigger] all[i]).0 is Some
            &&& (#[trigger] all[j]).0 is Some
            &&& precedes(all[i].0->Some_0, all[j].0->Some_0)
        } by {
            assert(all[i] == before[i]);
            if j < before.len() {
                assert(all[j] == before[j]);
            } else {
                let n = choose|n: int|
                    0 <= n < init.len() && (Some((#[trigger] init[n]).0), init[n].1.description)
                        == before[i];
                assert(p[n] == init[n]);
                assert(precedes(p[n].0, p[last].0));
            }
        }
    }
}

/// What is asked of an account follows from what its CLI would find: one that finds a key, a token
/// or an endpoint has no window, and any other is asked where its login is kept.
pub proof fn a_credential_has_no_window(vendor: Vendor, env: Map<Seq<char>, Seq<char>>)
    ensures
        vendor == Vendor::Claude ==> (target_of(vendor, env) == TargetModel::Credential <==> {
            ||| env.contains_key("ANTHROPIC_API_KEY"@)
            ||| env.contains_key("ANTHROPIC_AUTH_TOKEN"@)
            ||| env.contains_key("ANTHROPIC_BASE_URL"@)
        }),
        vendor == Vendor::Codex ==> (target_of(vendor, env) == TargetModel::Credential <==> {
            ||| env.contains_key("OPENAI_API_KEY"@)
            ||| env.contains_key("OPENAI_BASE_URL"@)
        }),
        target_of(vendor, env) matches TargetModel::Window { config_dir } ==> {
            let kept = match vendor {
                Vendor::Claude => "CLAUDE_CONFIG_DIR"@,
                Vendor::Codex => "CODEX_HOME"@,
            };
            &&& config_dir is Some == env.contains_key(kept)
            &&& config_dir is Some ==> config_dir->Some_0 == env[kept]
        },
{
}

/// Figures that are old stay old, and figures that were fetched in the last five minutes are not.
pub proof fn age_makes_figures_stale(fetched_at_ms: Option<i64>, at: Moment, later: Moment)
    requires
        at.at() <= later.at(),
    ensures
        stale_at(fetched_at_ms, at) ==> stale_at(fetched_at_ms, later),
        fetched_at_ms is None ==> stale_at(fetched_at_ms, at),
        fetched_at_ms matches Some(ms) ==> FIRST_SECOND <= ms as int / 1000 <= LAST_SECOND ==> (
        stale_at(fetched_at_ms, at) <==> at.at() > ms * 1_000_000 + 5 * 60 * 1_000_000_000),
{
}

/// Only the answer to the question that was asked counts, a refusal is never taken for figures, and
/// the figures are handed on as they came.
pub proof fn only_the_answer_counts(
    id: Option<i64>,
    refused: bool,
    refusal: Option<Seq<char>>,
    result: Option<Seq<char>>,
)
    ensures
        id != Some(2i64) <==> verdict(id, refused, refusal, result) is None,
        verdict(id, refused, refusal, result) matches Some(Ok(figures)) ==> !refused && result
            == Some(figures),
        id == Some(2i64) && !refused && result is Some ==> verdict(
            id,
            refused,
            refusal,
            result,
        ) == Some(Ok::<Seq<char>, Seq<char>>(result->Some_0)),
{
}

/// Whether a reading holds anything.
pub open spec fn holds_figures(reading: Option<Seq<char>>) -> bool {
    reading is Some && reading->Some_0 != "null"@
}

/// The newest figures of a record are the ones that are read.
pub proof fn the_newest_figures_are_read(found: Seq<Option<Seq<char>>>)
    ensures
        match last_reading(found) {
            Some(text) => exists|i: int|
                {
                    &&& 0 <= i < found.len()
                    &&& holds_figures(#[trigger] found[i])
                    &&& found[i] == Some(text)
                    &&& forall|j: int| i < j < found.len() ==> !holds_figures(#[trigger] found[j])
                },
            None => forall|j: int| 0 <= j < found.len() ==> !holds_figures(#[trigger] found[j]),
        },
    decreases found.len(),
{
    if found.len() > 0 {
        let last = found.len() - 1;
        let init = found.drop_last();
        if holds_figures(found[last]) {
        } else {
            the_newest_figures_are_read(init);
            match last_reading(init) {
                Some(text) => {
                    let i = choose|i: int|
                        {
                            &&& 0 <= i < init.len()
                            &&& holds_figures(#[trigger] init[i])
                            &&& init[i] == Some(text)
                            &&& forall|j: int|
                                i < j < init.len() ==> !holds_figures(#[trigger] init[j])
                        };
                    assert(holds_figures(found[i]));
                    assert forall|j: int| i < j < found.len() implies !holds_figures(
                        #[trigger] found[j],
                    ) by {
                        if j < last {
                            assert(init[j] == found[j]);
                        }
                    }
                },
                None => {
                    assert forall|j: int| 0 <= j < found.len() implies !holds_figures(
                        #[trigger] found[j],
                    ) by {
                        if j < last {
                            assert(init[j] == found[j]);
                        }
                    }
                },
            }
        }
    }
}

/// Of the files of a directory that are records of a thread the newest is taken, by its name; a
/// record that is there is found.
pub proof fn the_newest_record_is_found(names: Seq<Seq<char>>, thread_id: Seq<char>)
    ensures
        match last_record(names, thread_id) {
            Some(best) => {
                &&& names.contains(best)
                &&& is_record_of(best, thread_id)
                &&& forall|i: int|
                    0 <= i < names.len() && is_record_of(#[trigger] names[i], thread_id)
                        ==> !precedes(best, names[i])
            },
            None => forall|i: int|
                0 <= i < names.len() ==> !is_record_of(#[trigger] names[i], thread_id),
        },
    decreases names.len(),
{
    if names.len() > 0 {
        let last = names.len() - 1;
        let init = names.drop_last();
        let name = names.last();
        the_newest_record_is_found(init, thread_id);
        assert(names[last] == name);
        lemma_precedes_irreflexive(name);
        match last_record(init, thread_id) {
            Some(best) => {
                let n = choose|n: int| 0 <= n < init.len() && init[n] == best;
                assert(names[n] == best);
                assert forall|i: int|
                    0 <= i < names.len() && is_record_of(
                        #[trigger] names[i],
                        thread_id,
                    ) implies !precedes(last_record(names, thread_id)->Some_0, names[i]) by {
                    if i < last {
                        assert(init[i] == names[i]);
                        if is_record_of(name, thread_id) && !precedes(name, best) && precedes(
                            name,
                            names[i],
                        ) {
                            lemma_precedes_total(name, best);
                            if name != best {
                                lemma_precedes_transitive(best, name, names[i]);
                            }
                        }
                    } else if precedes(best, name) && precedes(name, best) {
                        lemma_precedes_transitive(best, name, best);
                        lemma_precedes_irreflexive(best);
                    }
                }
            },
            None => {
                assert forall|i: int|
                    0 <= i < names.len() && is_record_of(
                        #[trigger] names[i],
                        thread_id,
                    ) implies i == last by {
                    if i < last {
                        assert(init[i] == names[i]);
                    }
                }
            },
        }
    }
}

/// A directory's entries are told apart by what they are, each once and in order.
pub proof fn entries_are_told_apart(entries: Seq<DirEntry>, dirs: bool)
    ensures
        names_where(entries, dirs) == entries.filter(|e: DirEntry| e.is_dir == dirs).map_values(
            |e: DirEntry| e.name@,
        ),
    decreases entries.len(),
{
    reveal(Seq::filter);
    let kind = |e: DirEntry| e.is_dir == dirs;
    let name = |e: DirEntry| e.name@;
    if entries.len() > 0 {
        entries_are_told_apart(entries.drop_last(), dirs);
        assert(names_where(entries, dirs) =~= entries.filter(kind).map_values(name));
    } else {
        assert(names_where(entries, dirs) =~= entries.filter(kind).map_values(name));
    }
}

/// A usage window is told with the moment it reopens at and the name it was given, where that moment
/// has a calendar date.
pub proof fn a_window_keeps_its_moment_and_name(resets_at: Option<i64>, name: Option<Seq<char>>)
    ensures
        match window_from_parts(resets_at, name) {
            Some(limit) => {
                &&& resets_at == Some(limit.resets_at.seconds)
                &&& limit.resets_at.nanos == 0
                &&& limit.window == name
            },
            None => resets_at matches Some(seconds) ==> !(FIRST_SECOND <= seconds <= LAST_SECOND),
        },
{
}

/// Every line of a session record is looked at for figures, and only where they stand.
pub proof fn every_line_is_looked_at(document: Seq<char>)
    ensures
        figures_in(document).len() == lines_of(document).len(),
        forall|i: int|
            0 <= i < lines_of(document).len() ==> #[trigger] figures_in(document)[i] == json_value(
                lines_of(document)[i],
                "/payload/rate_limits"@,
            ),
{
}

/// The records of a thread are looked for where the account that ran keeps them, and otherwise where
/// the CLI does.
pub proof fn records_are_looked_for_where_they_are(
    alias: Seq<char>,
    config: ConfigModel,
    host: Map<Seq<char>, Seq<char>>,
)
    ensures
        account_at(config, Vendor::Codex, alias) matches Some(account) ==> (
        account.config_dir matches Some(dir) ==> codex_home_of(
            Some(alias),
            config,
            host,
            Platform::Unix,
        ) == Some(expanded(Platform::Unix, dir, home_of(host)))),
        host.contains_key("HOME"@) ==> codex_home_of(None, config, host, Platform::Unix) == Some(
            joined_path(Platform::Unix, host["HOME"@], ".codex"@),
        ),
        home_of(host) is None ==> codex_home_of(None, config, host, Platform::Unix) is None,
{
}

/// Why there are no figures is told in the words of whoever failed.
pub proof fn a_failed_exchange_is_told_in_its_words(exchange: Exchange)
    ensures
        match exchange {
            Exchange::NotStarted { reason } => stands_somewhere(
                exchange_reason(exchange),
                reason@,
            ),
            Exchange::Unreadable { reason } => stands_somewhere(
                exchange_reason(exchange),
                reason@,
            ),
            Exchange::Answered(Err(reason)) => exchange_reason(exchange) == reason@,
            Exchange::Answered(Ok(_)) => true,
            _ => stands_at(exchange_reason(exchange), "codex app-server "@, 0),
        },
{
    let whole = exchange_reason(exchange);
    match exchange {
        Exchange::NotStarted { reason } => {
            lemma_self(reason@);
            lemma_deep("cannot run `codex app-server`: "@, reason@, reason@);
        },
        Exchange::Unreadable { reason } => {
            lemma_self(reason@);
            lemma_deep("reading codex app-server: "@, reason@, reason@);
        },
        _ => {
            let part = "codex app-server "@;
            reveal_strlit("codex app-server ");
            reveal_strlit("codex app-server did not offer stdio");
            reveal_strlit("codex app-server closed its input");
            reveal_strlit(
                "codex app-server ended without answering. That account may not be logged in.",
            );
            reveal_strlit("codex app-server did not answer within ");
            if !(exchange is Answered) {
                assert(whole.subrange(0, part.len() as int) =~= part);
            }
        },
    }
}

/// A file is the record of a thread exactly where its name starts as a record's does and ends with
/// that thread's id, whole.
pub proof fn a_record_bears_its_threads_id(name: Seq<char>, thread_id: Seq<char>)
    ensures
        ({
            let tail = "-"@ + thread_id + ".jsonl"@;
            is_record_of(name, thread_id) <==> stands_at(name, "rollout-"@, 0) && stands_at(
                name,
                tail,
                name.len() - tail.len(),
            )
        }),
{
    let tail = "-"@ + thread_id + ".jsonl"@;
    let head = "rollout-"@;
    if is_record_of(name, thread_id) {
        assert(name.subrange(0, head.len() as int) =~= head);
        assert(name.subrange(name.len() - tail.len(), name.len() as int) =~= tail);
    }
    if stands_at(name, head, 0) && stands_at(name, tail, name.len() - tail.len()) {
        assert(head.is_prefix_of(name));
        assert(tail.is_suffix_of(name));
    }
}

/// A refresh that failed says why in the words it was given, and names the command that was run.
pub proof fn a_failed_refresh_says_why(programs: ProgramsModel, child: RefreshChild)
    ensures
        ({
            let said = refresh_reason(programs, child);
            &&& child matches RefreshChild::NotStarted { reason } ==> stands_somewhere(
                said,
                reason@,
            )
            &&& child matches RefreshChild::Finished { status, .. } ==> stands_somewhere(
                said,
                status@,
            )
            &&& child matches RefreshChild::NotObserved { reason } ==> stands_somewhere(
                said,
                reason@,
            )
            &&& !(child is Late) ==> stands_somewhere(
                said,
                "`"@ + program_of(programs, Vendor::Claude) + " --print /usage`"@,
            )
        }),
{
    let call = usage_call(programs);
    lemma_self(call);
    match child {
        RefreshChild::NotStarted { reason } => {
            lemma_self(reason@);
            lemma_deep("cannot run "@ + call + ": "@, reason@, reason@);
            lemma_deep("cannot run "@, call, call);
            lemma_deep("cannot run "@ + call, ": "@, call);
            lemma_deep("cannot run "@ + call + ": "@, reason@, call);
        },
        RefreshChild::Finished { status, .. } => {
            lemma_self(status@);
            lemma_deep(call + " exited with "@, status@, status@);
            lemma_deep(call, " exited with "@, call);
            lemma_deep(call + " exited with "@, status@, call);
        },
        RefreshChild::NotObserved { reason } => {
            lemma_self(reason@);
            lemma_deep("cannot wait for "@ + call + ": "@, reason@, reason@);
            lemma_deep("cannot wait for "@, call, call);
            lemma_deep("cannot wait for "@ + call, ": "@, call);
            lemma_deep("cannot wait for "@ + call + ": "@, reason@, call);
        },
        RefreshChild::Late => {},
    }
}

} // verus!
