//! What a consultation runs as, where it lives and how long it is kept.

use vstd::prelude::*;

use crate::config::{account_at, default_alias, efforts_of, rewrites_of, ConfigModel, Platform};
use crate::delegate::{
    allows, args_of, invocation_of, is_ascii_alphanumeric, isolation_of, token_fault, AccountAlias,
    Alphabet, DelegateModel, Effort, Isolation, ModelId, Vendor,
};
use crate::launch::Liveness;
use crate::laws::text::{a_number_reads_back, value};
use crate::ordered::{lemma_precedes_irreflexive, lemma_precedes_transitive};
use crate::path::{joined_path, DirEntry};
use crate::run::lifecycle::{deletable, ids_in, past_retention, still_there, turn_invocation};
use crate::run::status::{
    any_reopened, clock_end, newer, newest_first, newest_limit, newest_model, newest_of,
    reopening_of,
};
use crate::run::{
    digits, four_digits, fresh_id, id_char, minted_id, pinned, turn_path, valid_id, vendors_in,
    ChildRecord, HookReopening, Meta, Retention, STAMP_PATTERN,
};
use crate::text::decimal;
use crate::time::{patterned_text, Moment};
use crate::transcript::{reopened, MessageSource, OutcomeModel, TurnModel};

verus! {

/// A token can be handed to a child as a word of its own: it is not empty, not a flag, and holds
/// nothing that a shell or a path could take for anything else.
/// A plain word of letters and digits is always one.
pub proof fn a_token_is_a_plain_word(text: Seq<char>, max_len: nat, alphabet: Alphabet)
    ensures
        token_fault(text, max_len, alphabet) is None ==> {
            &&& 0 < text.len() <= max_len
            &&& text[0] != '-'
            &&& forall|i: int|
                0 <= i < text.len() ==> {
                    &&& ' ' < #[trigger] text[i] <= '~'
                    &&& text[i] != '"' && text[i] != '\'' && text[i] != '\\' && text[i] != '$'
                        && text[i] != '`' && text[i] != '=' && text[i] != ';' && text[i] != '*'
                    &&& alphabet != Alphabet::Model ==> text[i] != '/' && text[i] != ':'
                }
        },
        0 < text.len() <= max_len && (forall|i: int|
            0 <= i < text.len() ==> is_ascii_alphanumeric(#[trigger] text[i])) ==> token_fault(
            text,
            max_len,
            alphabet,
        ) is None,
        text.len() == 0 || text.len() > max_len ==> token_fault(text, max_len, alphabet) is Some,
{
    if token_fault(text, max_len, alphabet) is None {
        assert forall|i: int| 0 <= i < text.len() implies allows(
            alphabet,
            #[trigger] text[i],
        ) by {}
    }
}

/// What a caller says stands: a configuration fills in what was left open and never overrides an
/// effort, an account or an isolation that was named, and the vendor and the sandbox are never
/// touched.
pub proof fn pinning_never_overrides_the_caller(d: DelegateModel, config: ConfigModel)
    ensures
        ({
            let run = pinned(d, config);
            &&& run.vendor == d.vendor
            &&& run.sandbox == d.sandbox
            &&& d.effort is Some ==> run.effort == d.effort
            &&& d.account is Some ==> run.account == d.account
            &&& d.isolation is Some ==> run.isolation == d.isolation
            &&& run.isolation == Some(isolation_of(d, config))
        }),
{
}

/// What was left open is filled in from the configuration: the effort that it names for the model
/// that runs, and the default account where it is defined.
/// A model is exchanged only by a rule for it.
pub proof fn pinning_fills_in_the_defaults(d: DelegateModel, config: ConfigModel)
    ensures
        ({
            let run = pinned(d, config);
            &&& run.model != d.model ==> rewrites_of(config, d.vendor).contains_key(d.model)
                && rewrites_of(config, d.vendor)[d.model] == run.model
            &&& rewrites_of(config, d.vendor).contains_key(d.model) && token_fault(
                rewrites_of(config, d.vendor)[d.model],
                ModelId::MAX_LEN as nat,
                Alphabet::Model,
            ) is None ==> run.model == rewrites_of(config, d.vendor)[d.model]
            &&& d.effort is None ==> match run.effort {
                Some(effort) => efforts_of(config, d.vendor).contains_key(run.model)
                    && efforts_of(config, d.vendor)[run.model] == effort,
                None => efforts_of(config, d.vendor).contains_key(run.model) ==> token_fault(
                    efforts_of(config, d.vendor)[run.model],
                    Effort::MAX_LEN as nat,
                    Alphabet::Effort,
                ) is Some,
            }
            &&& d.account is None ==> match run.account {
                Some(alias) => default_alias(config, d.vendor) == Some(alias) && account_at(
                    config,
                    d.vendor,
                    alias,
                ) is Some,
                None => default_alias(config, d.vendor) matches Some(alias) ==> account_at(
                    config,
                    d.vendor,
                    alias,
                ) is None || token_fault(
                    alias,
                    AccountAlias::MAX_LEN as nat,
                    Alphabet::Alias,
                ) is Some,
            }
        }),
{
}

/// The child of a turn is started as the consultation's record says: as its delegate, in the
/// session that is to be continued, with the environment it was begun with, told where the store
/// is, and told to write its last message among the files of that very turn.
pub proof fn a_turn_runs_as_it_was_recorded(
    root: Seq<char>,
    meta: Meta,
    index: u32,
    resume: Option<Seq<char>>,
    config: ConfigModel,
    host: Map<Seq<char>, Seq<char>>,
    platform: Platform,
    dir_exists: bool,
)
    ensures
        turn_invocation(
            root,
            meta,
            index,
            resume,
            config,
            host,
            platform,
            dir_exists,
        ) matches Ok(child) ==> {
            let path = joined_path(
                platform,
                turn_path(platform, root, meta.run_id@, index),
                "last-message.md"@,
            );
            &&& child.args == args_of(meta.delegate@, resume, path, isolation_of(meta.delegate@, config))
            &&& child.env.contains_key("AGENTMUX_STATE_DIR"@)
            &&& child.env["AGENTMUX_STATE_DIR"@] == root
            &&& invocation_of(
                meta.delegate@,
                resume,
                path,
                meta.env@,
                config,
                host,
                platform,
                dir_exists,
            ) matches Ok(alone) && child.program == alone.program && child.env.remove(
                "AGENTMUX_STATE_DIR"@,
            ) == alone.env.remove("AGENTMUX_STATE_DIR"@)
        },
{
    let path = joined_path(
        platform,
        turn_path(platform, root, meta.run_id@, index),
        "last-message.md"@,
    );
    if let Ok(alone) = invocation_of(
        meta.delegate@,
        resume,
        path,
        meta.env@,
        config,
        host,
        platform,
        dir_exists,
    ) {
        assert(alone.env.insert("AGENTMUX_STATE_DIR"@, root).remove("AGENTMUX_STATE_DIR"@)
            =~= alone.env.remove("AGENTMUX_STATE_DIR"@));
    }
}

/// Every directory that is named like a run is one, in the order they are listed, and nothing else
/// is.
pub proof fn every_run_is_listed(entries: Seq<DirEntry>)
    ensures
        ids_in(entries) == entries.filter(
            |e: DirEntry| e.is_dir && valid_id(e.name@),
        ).map_values(|e: DirEntry| e.name@),
    decreases entries.len(),
{
    reveal(Seq::filter);
    if entries.len() > 0 {
        every_run_is_listed(entries.drop_last());
    }
    assert(ids_in(entries) =~= entries.filter(
        |e: DirEntry| e.is_dir && valid_id(e.name@),
    ).map_values(|e: DirEntry| e.name@));
}

/// An id can be the name of a directory and of nothing above or below it: it holds no separator, no
/// dot and no control character.
pub proof fn an_id_is_one_step(id: Seq<char>)
    requires
        valid_id(id),
    ensures
        0 < id.len() <= 64,
        forall|i: int|
            0 <= i < id.len() ==> {
                &&& #[trigger] id[i] != '/'
                &&& id[i] != '\\'
                &&& id[i] != '.'
                &&& id[i] != ':'
                &&& ' ' < id[i] <= '~'
            },
{
}

/// A consultation is kept while it is young: it is past its time exactly when it was not kept for
/// good and a day has gone by since it began and since anything was last written.
pub proof fn a_day_of_quiet_ends_it(
    retention: Retention,
    created_at: Moment,
    last_write: Option<Moment>,
    at: Moment,
)
    ensures
        past_retention(retention, created_at, last_write, at) <==> {
            &&& retention == Retention::Ttl
            &&& at.at() >= created_at.at() + 24 * 60 * 60 * 1_000_000_000
            &&& last_write matches Some(written) ==> at.at() >= written.at() + 24 * 60 * 60
                * 1_000_000_000
        },
{
}

/// Whether a recorded child may still be running.
pub open spec fn may_be_running(child: ChildRecord) -> bool {
    !child.settled && !child.reaped && child.liveness == Liveness::Alive
}

/// A run with a turn under way or a child alive is never deleted, and any other may be.
pub proof fn only_what_is_over_is_deleted(
    newest: Option<OutcomeModel>,
    children: Seq<ChildRecord>,
)
    ensures
        deletable(newest, children) <==> newest != Some(OutcomeModel::Running) && forall|i: int|
            0 <= i < children.len() ==> !may_be_running(#[trigger] children[i]),
{
    if exists|i: int| 0 <= i < children.len() && may_be_running(#[trigger] children[i]) {
        let i = choose|i: int| 0 <= i < children.len() && may_be_running(#[trigger] children[i]);
        assert(still_there(children[i]));
    }
    if !deletable(newest, children) && newest != Some(OutcomeModel::Running) {
        let i = choose|i: int|
            0 <= i < children.len() && still_there(#[trigger] children[i]);
        assert(may_be_running(children[i]));
    }
}

/// No two turns share a directory: a turn's number reads back from the name of its directory.
pub proof fn a_turns_directory_is_its_own(a: nat, b: nat)
    ensures
        four_digits(a).len() >= 4,
        value(four_digits(a)) == a,
        a != b ==> four_digits(a) != four_digits(b),
{
    lemma_four(a);
    lemma_four(b);
}

proof fn lemma_four(n: nat)
    ensures
        four_digits(n).len() >= 4,
        value(four_digits(n)) == n,
{
    a_number_reads_back(n);
    reveal_strlit("0");
    reveal_strlit("00");
    reveal_strlit("000");
    let plain = decimal(n);
    if plain.len() == 1 {
        lemma_zeros("000"@, plain);
    } else if plain.len() == 2 {
        lemma_zeros("00"@, plain);
    } else if plain.len() == 3 {
        lemma_zeros("0"@, plain);
    }
}

/// Zeros in front of a number change nothing.
proof fn lemma_zeros(zeros: Seq<char>, digits: Seq<char>)
    requires
        forall|i: int| 0 <= i < zeros.len() ==> #[trigger] zeros[i] == '0',
    ensures
        value(zeros + digits) == value(digits),
    decreases zeros.len() + digits.len(),
{
    if digits.len() > 0 {
        assert((zeros + digits).drop_last() =~= zeros + digits.drop_last());
        lemma_zeros(zeros, digits.drop_last());
    } else if zeros.len() > 0 {
        assert(zeros + digits =~= zeros);
        let less = zeros.drop_last();
        assert forall|i: int| 0 <= i < less.len() implies #[trigger] less[i] == '0' by {
            assert(less[i] == zeros[i]);
        }
        lemma_zeros(less, digits);
        assert(less + digits =~= less);
        assert(zeros[zeros.len() - 1] == '0');
        assert(digits =~= Seq::empty());
    } else {
        assert(zeros + digits =~= digits);
    }
}

/// The later a consultation began, the earlier it is listed, and no two are each listed before the
/// other.
pub proof fn the_later_one_is_listed_first(a: Meta, b: Meta)
    ensures
        a.created_at.at() > b.created_at.at() ==> newer(a, b),
        newer(a, b) ==> !newer(b, a),
        newer(a, b) ==> a.created_at.at() >= b.created_at.at(),
{
    if newer(a, b) && newer(b, a) {
        lemma_precedes_transitive(a.run_id@, b.run_id@, a.run_id@);
        lemma_precedes_irreflexive(a.run_id@);
    }
}

/// What is told of a consultation's window and model is what its newest turn says that says
/// anything of it.
pub proof fn the_newest_word_counts(turns: Seq<TurnModel>)
    ensures
        match newest_limit(turns) {
            Some(limit) => exists|i: int|
                {
                    &&& 0 <= i < turns.len()
                    &&& (#[trigger] turns[i]).rate_limit == Some(limit)
                    &&& forall|j: int|
                        i < j < turns.len() ==> (#[trigger] turns[j]).rate_limit is None
                },
            None => forall|j: int|
                0 <= j < turns.len() ==> (#[trigger] turns[j]).rate_limit is None,
        },
        match newest_model(turns) {
            Some(model) => exists|i: int|
                {
                    &&& 0 <= i < turns.len()
                    &&& (#[trigger] turns[i]).resolved_model == Some(model)
                    &&& forall|j: int|
                        i < j < turns.len() ==> (#[trigger] turns[j]).resolved_model is None
                },
            None => forall|j: int|
                0 <= j < turns.len() ==> (#[trigger] turns[j]).resolved_model is None,
        },
    decreases turns.len(),
{
    if turns.len() > 0 {
        let last = turns.len() - 1;
        let init = turns.drop_last();
        the_newest_word_counts(init);
        assert forall|j: int| 0 <= j < last implies #[trigger] turns[j] == init[j] by {}
        assert(turns[last] == turns.last());
        if turns[last].rate_limit is None && newest_limit(init) is Some {
            let limit = newest_limit(init)->Some_0;
            let i = choose|i: int|
                {
                    &&& 0 <= i < init.len()
                    &&& (#[trigger] init[i]).rate_limit == Some(limit)
                    &&& forall|j: int|
                        i < j < init.len() ==> (#[trigger] init[j]).rate_limit is None
                };
            assert(turns[i].rate_limit == Some(limit));
        }
        if turns[last].resolved_model is None && newest_model(init) is Some {
            let model = newest_model(init)->Some_0;
            let i = choose|i: int|
                {
                    &&& 0 <= i < init.len()
                    &&& (#[trigger] init[i]).resolved_model == Some(model)
                    &&& forall|j: int|
                        i < j < init.len() ==> (#[trigger] init[j]).resolved_model is None
                };
            assert(turns[i].resolved_model == Some(model));
        }
    }
}

/// The vendors that are denied are told exactly, each once.
pub proof fn the_denied_vendors_are_told(denied: Set<Vendor>, vendor: Vendor)
    ensures
        vendors_in(denied).contains(vendor) == denied.contains(vendor),
        vendors_in(denied).no_duplicates(),
{
    let list = vendors_in(denied);
    if denied.contains(Vendor::Claude) {
        assert(list[0] == Vendor::Claude);
    }
    if denied.contains(Vendor::Codex) {
        assert(list[list.len() - 1] == Vendor::Codex);
    }
}

/// An id that is minted can be a consultation's, and two with different digits in front are
/// different.
pub proof fn a_minted_id_is_an_id(at: Moment, tail: Seq<char>, other: Seq<char>)
    requires
        digits(tail),
        digits(other),
    ensures
        valid_id(fresh_id(at, tail)),
        tail.take(8) != other.take(8) ==> fresh_id(at, tail) != fresh_id(at, other),
{
    let stamp = patterned_text(at.seconds, at.nanos, STAMP_PATTERN@);
    let a = fresh_id(at, tail);
    let b = fresh_id(at, other);
    assert forall|i: int| 0 <= i < tail.len() implies id_char(#[trigger] tail[i]) by {}
    reveal_strlit("-");
    assert(minted_id(stamp, tail).skip(stamp.len() as int + 1) =~= tail.take(8));
    assert(minted_id(stamp, other).skip(stamp.len() as int + 1) =~= other.take(8));
    assert(minted_id(stamp, tail).len() == minted_id(stamp, other).len());
    if a == b && tail.take(8) != other.take(8) {
        lemma_same_validity(stamp, tail, other);
    }
}

/// Whether a stamp makes an id does not depend on the digits.
proof fn lemma_same_validity(stamp: Seq<char>, tail: Seq<char>, other: Seq<char>)
    requires
        digits(tail),
        digits(other),
    ensures
        valid_id(minted_id(stamp, tail)) == valid_id(minted_id(stamp, other)),
{
    let a = minted_id(stamp, tail);
    let b = minted_id(stamp, other);
    reveal_strlit("-");
    let n = stamp.len() as int + 1;
    assert forall|i: int| 0 <= i < a.len() implies id_char(#[trigger] a[i]) == id_char(b[i]) by {
        if i >= n {
            assert(a[i] == tail[i - n]);
            assert(b[i] == other[i - n]);
        }
    }
    if valid_id(a) {
        assert forall|i: int| 0 <= i < b.len() implies id_char(#[trigger] b[i]) by {
            assert(id_char(a[i]));
        }
    }
    if valid_id(b) {
        assert forall|i: int| 0 <= i < a.len() implies id_char(#[trigger] a[i]) by {
            assert(id_char(b[i]));
        }
    }
}

/// A consultation's clock runs while it does and stops with its last write once it is over.
pub proof fn the_clock_stops_with_the_last_write(over: bool, last: Option<Moment>, at: Moment)
    ensures
        !over ==> clock_end(over, last, at) == at,
        last is None ==> clock_end(over, last, at) == at,
        over && last is Some ==> clock_end(over, last, at) == last->Some_0,
{
}

/// A reopened turn is expected only where settings were inherited.
pub proof fn a_reopening_is_expected_only_where_settings_are(
    turns: Seq<TurnModel>,
    isolation: Option<Isolation>,
)
    ensures
        ({
            let told = reopening_of(any_reopened(turns), isolation);
            let happened = exists|i: int, j: int|
                0 <= i < turns.len() && 0 <= j < turns[i].messages.len() && (
                #[trigger] turns[i].messages[j]).source == MessageSource::HookInjection;
            &&& told is Some <==> happened
            &&& told == Some(HookReopening::Expected) <==> happened && isolation == Some(
                Isolation::Inherit,
            )
        }),
{
    if any_reopened(turns) {
        let i = choose|i: int| 0 <= i < turns.len() && reopened((#[trigger] turns[i]).messages);
        let j = choose|j: int|
            0 <= j < turns[i].messages.len() && (#[trigger] turns[i].messages[j]).source
                == MessageSource::HookInjection;
        assert(turns[i].messages[j].source == MessageSource::HookInjection);
    }
    if exists|i: int, j: int|
        0 <= i < turns.len() && 0 <= j < turns[i].messages.len() && (
        #[trigger] turns[i].messages[j]).source == MessageSource::HookInjection {
        let (i, j) = choose|i: int, j: int|
            0 <= i < turns.len() && 0 <= j < turns[i].messages.len() && (
            #[trigger] turns[i].messages[j]).source == MessageSource::HookInjection;
        assert(reopened(turns[i].messages));
    }
}

/// A list of recent consultations holds as many as were asked for and there are, each of them one
/// there is, the newest first.
pub proof fn the_recent_ones_are_listed(listed: Seq<Meta>, metas: Seq<Meta>, limit: nat)
    requires
        newest_of(listed, metas, limit as int),
    ensures
        listed.len() == if limit < metas.len() {
            limit
        } else {
            metas.len()
        },
        forall|i: int| 0 <= i < listed.len() ==> metas.contains(#[trigger] listed[i]),
        forall|i: int, j: int|
            0 <= i < j < listed.len() ==> (#[trigger] listed[i]).created_at.at() >= (
            #[trigger] listed[j]).created_at.at(),
{
    broadcast use vstd::seq_lib::group_to_multiset_ensures;

    let all = choose|all: Seq<Meta>|
        {
            &&& #[trigger] newest_first(all)
            &&& all.to_multiset() == metas.to_multiset()
            &&& listed == all.take(
                if limit < all.len() {
                    limit as int
                } else {
                    all.len() as int
                },
            )
        };
    assert(all.len() == all.to_multiset().len());
    assert(metas.len() == metas.to_multiset().len());
    assert forall|i: int| 0 <= i < listed.len() implies metas.contains(#[trigger] listed[i]) by {
        assert(all.contains(all[i]));
        assert(all.to_multiset().count(all[i]) > 0);
    }
    assert forall|i: int, j: int| 0 <= i < j < listed.len() implies (
    #[trigger] listed[i]).created_at.at() >= (#[trigger] listed[j]).created_at.at() by {
        assert(!newer(all[j], all[i]));
    }
}

} // verus!
