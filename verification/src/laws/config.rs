//! What a configuration says and which ones are accepted.

use vstd::prelude::*;

use crate::config::{
    account_error, accounts_error, all_efforts_error, canonical_config, canonical_launch,
    canonical_name, chosen_by_checkout, config_error, default_alias, default_error,
    defaults_error, distrust, dotted, effort_error, efforts_error, env_name_fault,
    exact_names_stay, explicit_of, first_error, is_control, launch_error, launch_names,
    lemma_no_error, loaded, models_error, name_error, no_account, no_config, oversteps,
    position_of, project_paths_of, project_walk, rewrite, rewrite_error, rules_error, says_nothing, unknown_from,
    vendor_error, with_choices, AccountModel, ConfigErrorModel, ConfigModel, FileFacts, Found,
    KeyEntry, LaunchModel, Platform,
};
use crate::delegate::{
    program_of, token_fault, AccountAlias, Alphabet, Effort, ModelId, ProgramsModel, Vendor,
};
use crate::ordered::{in_order, lemma_entry, map_of, walkable};
use crate::path::{absolute, ancestors_of, components_of, joined_path, lies_under};

verus! {

/// Whether a text can name an environment variable: it is not empty, and holds neither an equals
/// sign nor a control character.
pub open spec fn names_a_variable(name: Seq<char>) -> bool {
    name.len() > 0 && forall|i: int|
        0 <= i < name.len() ==> #[trigger] name[i] != '=' && !is_control(name[i])
}

/// What can name a variable is accepted as one, and nothing else is.
pub proof fn a_variable_can_be_named(name: Seq<char>)
    ensures
        env_name_fault(name) is None <==> names_a_variable(name),
        forall|i: int| 0 <= i < name.len() && #[trigger] name[i] == '\0' ==> env_name_fault(name) is Some,
        forall|i: int| 0 <= i < name.len() && #[trigger] name[i] == '\n' ==> env_name_fault(name) is Some,
{
    if env_name_fault(name) is None {
        assert forall|i: int| 0 <= i < name.len() implies #[trigger] name[i] != '='
            && !is_control(name[i]) by {
            if name[i] == '=' {
                assert(name.contains('='));
            }
        }
    }
    assert(is_control('\0'));
    assert(is_control('\n'));
}

/// Whether every name that a launch layer uses can name a variable.
pub open spec fn launch_is_fine(launch: LaunchModel) -> bool {
    &&& forall|name: Seq<char>| #[trigger] launch.env.contains_key(name) ==> names_a_variable(name)
    &&& forall|i: int|
        0 <= i < launch.env_passthrough.len() ==> names_a_variable(
            #[trigger] launch.env_passthrough[i],
        )
    &&& forall|i: int|
        0 <= i < launch.request_env.len() ==> names_a_variable(#[trigger] launch.request_env[i])
}

/// Whether an account can be used under its alias.
pub open spec fn account_is_fine(alias: Seq<char>, account: AccountModel) -> bool {
    &&& token_fault(alias, AccountAlias::MAX_LEN as nat, Alphabet::Alias) is None
    &&& account != no_account()
    &&& launch_is_fine(account.launch)
    &&& account.api_key_env matches Some(name) ==> names_a_variable(name)
    &&& account.auth_token_env matches Some(name) ==> names_a_variable(name)
}

/// Whether a text can be a model.
pub open spec fn can_be_a_model(name: Seq<char>) -> bool {
    token_fault(name, ModelId::MAX_LEN as nat, Alphabet::Model) is None
}

/// Whether a rule exchanges one model for another, and is no step of a chain.
pub open spec fn rule_is_fine(rules: Map<Seq<char>, Seq<char>>, from: Seq<char>) -> bool {
    let to = rules[from];
    &&& can_be_a_model(from)
    &&& can_be_a_model(to)
    &&& from != to ==> !(rules.contains_key(to) && rules[to] != to)
}

/// Whether everything a configuration says can be acted on.
pub open spec fn all_is_fine(config: ConfigModel) -> bool {
    &&& forall|vendor: Seq<char>, alias: Seq<char>|
        config.accounts.contains_key(vendor) && #[trigger] config.accounts[vendor].contains_key(
            alias,
        ) ==> account_is_fine(alias, config.accounts[vendor][alias])
    &&& forall|vendor: Seq<char>, from: Seq<char>|
        config.models.contains_key(vendor) && #[trigger] config.models[vendor].contains_key(from)
            ==> rule_is_fine(config.models[vendor], from)
    &&& forall|vendor: Seq<char>, model: Seq<char>|
        config.efforts.contains_key(vendor) && #[trigger] config.efforts[vendor].contains_key(model)
            ==> can_be_a_model(model) && token_fault(
            config.efforts[vendor][model],
            Effort::MAX_LEN as nat,
            Alphabet::Effort,
        ) is None
    &&& forall|vendor: Seq<char>|
        #[trigger] config.defaults.contains_key(vendor) ==> (config.defaults[vendor] matches Some(
            alias,
        ) ==> token_fault(alias, AccountAlias::MAX_LEN as nat, Alphabet::Alias) is None)
    &&& launch_is_fine(config.launch)
}

/// Whether all maps of a configuration are finite, as those of every file are.
pub open spec fn is_written(config: ConfigModel) -> bool {
    &&& walkable(config.accounts)
    &&& walkable(config.models)
    &&& walkable(config.efforts)
    &&& walkable(config.defaults)
    &&& walkable(config.launch.env)
    &&& forall|v: Seq<char>| #[trigger]
        config.accounts.contains_key(v) ==> walkable(config.accounts[v])
    &&& forall|v: Seq<char>, a: Seq<char>|
        config.accounts.contains_key(v) && #[trigger] config.accounts[v].contains_key(a)
            ==> walkable(config.accounts[v][a].launch.env)
    &&& forall|v: Seq<char>| #[trigger]
        config.models.contains_key(v) ==> walkable(config.models[v])
    &&& forall|v: Seq<char>| #[trigger]
        config.efforts.contains_key(v) ==> walkable(config.efforts[v])
}

/// There is a first error exactly where there is an error.
proof fn lemma_error_iff<E>(errors: Seq<Option<E>>)
    ensures
        first_error(errors) is None <==> forall|i: int|
            0 <= i < errors.len() ==> (#[trigger] errors[i]) is None,
    decreases errors.len(),
{
    if errors.len() > 0 {
        let rest = errors.drop_first();
        lemma_error_iff(rest);
        if first_error(errors) is None {
            assert forall|i: int| 0 <= i < errors.len() implies (#[trigger] errors[i]) is None by {
                lemma_no_error(errors, i);
            }
        }
        if forall|i: int| 0 <= i < errors.len() ==> (#[trigger] errors[i]) is None {
            assert forall|i: int| 0 <= i < rest.len() implies (#[trigger] rest[i]) is None by {
                assert(errors[i + 1] is None);
            }
            assert(errors[0] is None);
        }
    }
}

/// Going through a map finds an error exactly where some entry has one.
proof fn lemma_map_error<W>(
    map: Map<Seq<char>, W>,
    check: spec_fn((Seq<char>, W)) -> Option<ConfigErrorModel>,
)
    requires
        walkable(map),
    ensures
        first_error(in_order(map).map_values(check)) is None <==> forall|k: Seq<char>|
            #[trigger] map.contains_key(k) ==> check((k, map[k])) is None,
{
    let p = in_order(map);
    let errors = p.map_values(check);
    lemma_error_iff(errors);
    if first_error(errors) is None {
        assert forall|k: Seq<char>| #[trigger] map.contains_key(k) implies check((k, map[k]))
            is None by {
            assert(map_of(p).contains_key(k));
            let i = choose|i: int| 0 <= i < p.len() && (#[trigger] p[i]).0 == k;
            lemma_entry(p, i);
            assert(errors[i] is None);
            assert(p[i] == (k, map[k]));
        }
    }
    if forall|k: Seq<char>| #[trigger] map.contains_key(k) ==> check((k, map[k])) is None {
        assert forall|i: int| 0 <= i < errors.len() implies (#[trigger] errors[i]) is None by {
            lemma_entry(p, i);
            assert(map.contains_key(p[i].0));
            assert(p[i] == (p[i].0, map[p[i].0]));
        }
    }
}

proof fn lemma_launch(launch: LaunchModel, path: Seq<char>)
    requires
        walkable(launch.env),
    ensures
        launch_error(launch, path) is None <==> launch_is_fine(launch),
{
    let names = launch_names(launch);
    let errors = names.map_values(|name: Seq<char>| name_error(path, name));
    lemma_error_iff(errors);
    assert forall|name: Seq<char>| name_error(path, name) is None <==> #[trigger] names_a_variable(
        name,
    ) by {
        a_variable_can_be_named(name);
    }
    let p = in_order(launch.env);
    let n = p.len() as int;
    let m = launch.env_passthrough.len() as int;
    if launch_error(launch, path) is None {
        assert forall|name: Seq<char>| #[trigger]
            launch.env.contains_key(name) implies names_a_variable(name) by {
            assert(map_of(p).contains_key(name));
            let i = choose|i: int| 0 <= i < p.len() && (#[trigger] p[i]).0 == name;
            assert(errors[i] is None);
            assert(names[i] == name);
        }
        assert forall|i: int| 0 <= i < m implies names_a_variable(
            #[trigger] launch.env_passthrough[i],
        ) by {
            assert(errors[n + i] is None);
            assert(names[n + i] == launch.env_passthrough[i]);
        }
        assert forall|i: int| 0 <= i < launch.request_env.len() implies names_a_variable(
            #[trigger] launch.request_env[i],
        ) by {
            assert(errors[n + m + i] is None);
            assert(names[n + m + i] == launch.request_env[i]);
        }
    }
    if launch_is_fine(launch) {
        assert forall|i: int| 0 <= i < errors.len() implies (#[trigger] errors[i]) is None by {
            if i < n {
                lemma_entry(p, i);
                assert(launch.env.contains_key(p[i].0));
                assert(names[i] == p[i].0);
            } else if i < n + m {
                assert(names[i] == launch.env_passthrough[i - n]);
            } else {
                assert(names[i] == launch.request_env[i - n - m]);
            }
            assert(names_a_variable(names[i]));
        }
    }
}

proof fn lemma_account(
    path: Seq<char>,
    vendor: Seq<char>,
    alias: Seq<char>,
    account: AccountModel,
)
    requires
        walkable(account.launch.env),
    ensures
        account_error(path, vendor, alias, account) is None <==> account_is_fine(alias, account),
{
    lemma_launch(account.launch, path);
    if account.api_key_env is Some {
        a_variable_can_be_named(account.api_key_env->Some_0);
    }
    if account.auth_token_env is Some {
        a_variable_can_be_named(account.auth_token_env->Some_0);
    }
}

proof fn lemma_accounts(config: ConfigModel, path: Seq<char>)
    requires
        is_written(config),
    ensures
        accounts_error(config, path) is None <==> forall|vendor: Seq<char>, alias: Seq<char>|
            config.accounts.contains_key(vendor) && #[trigger] config.accounts[vendor].contains_key(
                alias,
            ) ==> account_is_fine(alias, config.accounts[vendor][alias]),
{
    let check = |e: (Seq<char>, Map<Seq<char>, AccountModel>)| vendor_error(path, e.0, e.1);
    lemma_map_error(config.accounts, check);
    assert forall|vendor: Seq<char>| #[trigger]
        config.accounts.contains_key(vendor) implies (vendor_error(
        path,
        vendor,
        config.accounts[vendor],
    ) is None <==> forall|alias: Seq<char>|
        #[trigger] config.accounts[vendor].contains_key(alias) ==> account_is_fine(
            alias,
            config.accounts[vendor][alias],
        )) by {
        let accounts = config.accounts[vendor];
        let inner = |e: (Seq<char>, AccountModel)| account_error(path, vendor, e.0, e.1);
        lemma_map_error(accounts, inner);
        assert forall|alias: Seq<char>| #[trigger] accounts.contains_key(alias) implies (inner(
            (alias, accounts[alias]),
        ) is None <==> account_is_fine(alias, accounts[alias])) by {
            assert(walkable(config.accounts[vendor][alias].launch.env));
            lemma_account(path, vendor, alias, accounts[alias]);
        }
    }
}

proof fn lemma_models(config: ConfigModel, path: Seq<char>)
    requires
        is_written(config),
    ensures
        models_error(config, path) is None <==> forall|vendor: Seq<char>, from: Seq<char>|
            config.models.contains_key(vendor) && #[trigger] config.models[vendor].contains_key(from)
                ==> rule_is_fine(config.models[vendor], from),
{
    let check = |e: (Seq<char>, Map<Seq<char>, Seq<char>>)| rules_error(path, e.1);
    lemma_map_error(config.models, check);
    assert forall|vendor: Seq<char>| #[trigger] config.models.contains_key(vendor) implies (
    rules_error(path, config.models[vendor]) is None <==> forall|from: Seq<char>|
        #[trigger] config.models[vendor].contains_key(from) ==> rule_is_fine(
            config.models[vendor],
            from,
        )) by {
        let rules = config.models[vendor];
        let inner = |e: (Seq<char>, Seq<char>)| rewrite_error(path, rules, e.0, e.1);
        lemma_map_error(rules, inner);
        assert forall|from: Seq<char>| #[trigger] rules.contains_key(from) implies (inner(
            (from, rules[from]),
        ) is None <==> rule_is_fine(rules, from)) by {}
    }
}

proof fn lemma_efforts(config: ConfigModel, path: Seq<char>)
    requires
        is_written(config),
    ensures
        all_efforts_error(config, path) is None <==> forall|vendor: Seq<char>, model: Seq<char>|
            config.efforts.contains_key(vendor) && #[trigger] config.efforts[vendor].contains_key(
                model,
            ) ==> can_be_a_model(model) && token_fault(
                config.efforts[vendor][model],
                Effort::MAX_LEN as nat,
                Alphabet::Effort,
            ) is None,
{
    let check = |e: (Seq<char>, Map<Seq<char>, Seq<char>>)| efforts_error(path, e.1);
    lemma_map_error(config.efforts, check);
    assert forall|vendor: Seq<char>| #[trigger] config.efforts.contains_key(vendor) implies (
    efforts_error(path, config.efforts[vendor]) is None <==> forall|model: Seq<char>|
        #[trigger] config.efforts[vendor].contains_key(model) ==> can_be_a_model(model)
            && token_fault(
            config.efforts[vendor][model],
            Effort::MAX_LEN as nat,
            Alphabet::Effort,
        ) is None) by {
        let efforts = config.efforts[vendor];
        let inner = |e: (Seq<char>, Seq<char>)| effort_error(path, e.0, e.1);
        lemma_map_error(efforts, inner);
        assert forall|model: Seq<char>| #[trigger] efforts.contains_key(model) implies (inner(
            (model, efforts[model]),
        ) is None <==> can_be_a_model(model) && token_fault(
            efforts[model],
            Effort::MAX_LEN as nat,
            Alphabet::Effort,
        ) is None) by {}
    }
}

/// A configuration is accepted exactly where everything in it can be acted on: every account can be
/// named and says something, every variable can be set, every model and effort can be passed on,
/// and no rule chains.
pub proof fn what_can_be_acted_on_is_accepted(config: ConfigModel, path: Seq<char>)
    requires
        is_written(config),
    ensures
        config_error(config, path) is None <==> all_is_fine(config),
{
    lemma_accounts(config, path);
    lemma_models(config, path);
    lemma_efforts(config, path);
    lemma_launch(config.launch, path);
    let check = |e: (Seq<char>, Option<Seq<char>>)| default_error(path, e.1);
    lemma_map_error(config.defaults, check);
    assert(defaults_error(config, path) is None <==> forall|vendor: Seq<char>|
        #[trigger] config.defaults.contains_key(vendor) ==> (config.defaults[vendor] matches Some(
            alias,
        ) ==> token_fault(alias, AccountAlias::MAX_LEN as nat, Alphabet::Alias) is None)) by {
        assert forall|vendor: Seq<char>| #[trigger] config.defaults.contains_key(vendor) implies (
        check((vendor, config.defaults[vendor])) is None <==> (config.defaults[vendor] matches Some(
            alias,
        ) ==> token_fault(alias, AccountAlias::MAX_LEN as nat, Alphabet::Alias) is None)) by {}
    }
}

/// What is loaded is the machine's own file, with a project's choice of accounts over it: where the
/// project names a default that is used, where it names none the machine's stays, and everything
/// else is the machine's.
pub proof fn a_load_is_the_machines_file(
    platform: Platform,
    programs: ProgramsModel,
    host: Map<Seq<char>, Seq<char>>,
    machine: Option<Found>,
    project: Option<Found>,
    vendor: Seq<char>,
)
    ensures
        loaded(platform, programs, host, machine, project) matches Ok(config) ==> {
            let own = match machine {
                Some(found) => found.read->Ok_0@,
                None => no_config(programs),
            };
            &&& machine matches Some(found) ==> found.read is Ok
            &&& config.accounts == own.accounts
            &&& config.models == own.models
            &&& config.efforts == own.efforts
            &&& config.launch == own.launch
            &&& config.programs == own.programs
            &&& project is None ==> config == own
            &&& project matches Some(found) ==> {
                &&& found.read is Ok
                &&& ({
                    let chosen = found.read->Ok_0@;
                    &&& chosen.defaults.contains_key(vendor) ==> config.defaults.contains_key(
                        vendor,
                    ) && config.defaults[vendor] == chosen.defaults[vendor]
                    &&& !chosen.defaults.contains_key(vendor) ==> (config.defaults.contains_key(
                        vendor,
                    ) == own.defaults.contains_key(vendor) && (own.defaults.contains_key(vendor)
                        ==> config.defaults[vendor] == own.defaults[vendor]))
                    &&& config.project_source == Some(found.path@)
                    &&& config.unknown == own.unknown + chosen.unknown
                    &&& !own.project_defaults.contains_key(vendor) ==> (
                    config.project_defaults.contains_key(vendor) <==> {
                        &&& chosen.defaults.contains_key(vendor)
                        &&& !own.defaults.contains_key(vendor) || own.defaults[vendor]
                            != chosen.defaults[vendor]
                    })
                })
            }
        },
{
}

/// A load fails where something that was asked for cannot be had, and only there: a file named in
/// the environment that is not absolute or not there, a file that cannot be used, or a project file
/// that says more than which account to use.
pub proof fn a_load_fails_only_for_a_reason(
    platform: Platform,
    programs: ProgramsModel,
    host: Map<Seq<char>, Seq<char>>,
    machine: Option<Found>,
    project: Option<Found>,
)
    ensures
        ({
            let named = host.contains_key("AGENTMUX_CONFIG"@)
                && host["AGENTMUX_CONFIG"@].len() > 0;
            let unusable = (named && !absolute(platform, host["AGENTMUX_CONFIG"@])) || (named
                && machine is None) || (machine matches Some(found) && found.read is Err) || (
            project matches Some(found) && (found.read is Err || oversteps(found.read->Ok_0@)));
            loaded(platform, programs, host, machine, project) is Err <==> unusable
        }),
{
}

/// The default of a vendor is the one set under its own name, and it counts as the checkout's only
/// where a project file changed it.
pub proof fn a_vendors_default_is_its_own(config: ConfigModel, vendor: Vendor)
    ensures
        ({
            let name = match vendor {
                Vendor::Claude => config.programs.claude,
                Vendor::Codex => config.programs.codex,
            };
            &&& default_alias(config, vendor) is Some <==> config.defaults.contains_key(name)
                && config.defaults[name] is Some
            &&& default_alias(config, vendor) matches Some(alias) ==> config.defaults[name] == Some(
                alias,
            )
            &&& chosen_by_checkout(config, vendor) <==> config.project_defaults.contains_key(name)
                && config.project_source is Some
        }),
{
}

/// Where names are read exactly, a configuration is used as it is written.
pub proof fn exact_names_are_used_as_written(launch: LaunchModel)
    requires
        walkable(launch.env),
    ensures
        canonical_launch(Platform::Unix, launch) == launch,
{
    exact_names_stay(in_order(launch.env));
    assert(canonical_launch(Platform::Unix, launch).env_passthrough =~= launch.env_passthrough);
    assert(canonical_launch(Platform::Unix, launch).request_env =~= launch.request_env);
}

/// Spelling names for the platform changes no value of an account: its keys, directory, endpoint
/// and description stay as they are.
pub proof fn spelling_changes_no_value(
    platform: Platform,
    config: ConfigModel,
    vendor: Seq<char>,
    alias: Seq<char>,
)
    requires
        config.accounts.contains_key(vendor),
        config.accounts[vendor].contains_key(alias),
    ensures
        ({
            let was = config.accounts[vendor][alias];
            let spelled = canonical_config(platform, config);
            let now = spelled.accounts[vendor][alias];
            &&& spelled.accounts.contains_key(vendor)
            &&& spelled.accounts[vendor].contains_key(alias)
            &&& now.config_dir == was.config_dir
            &&& now.api_key == was.api_key
            &&& now.auth_token == was.auth_token
            &&& now.base_url == was.base_url
            &&& now.inherit_settings == was.inherit_settings
            &&& now.description == was.description
            &&& now.api_key_env is Some == was.api_key_env is Some
            &&& was.api_key_env matches Some(name) ==> now.api_key_env == Some(
                canonical_name(platform, name),
            )
            &&& now.auth_token_env is Some == was.auth_token_env is Some
            &&& was.auth_token_env matches Some(name) ==> now.auth_token_env == Some(
                canonical_name(platform, name),
            )
            &&& spelled.defaults == config.defaults
            &&& spelled.models == config.models
            &&& spelled.efforts == config.efforts
        }),
{
}

/// A file that anybody else could have written is not trusted: not one of another owner, and not one
/// that its group or everybody may write.
pub proof fn a_writable_file_is_not_trusted(facts: FileFacts)
    ensures
        distrust(facts) is None <==> {
            &&& facts.is_file
            &&& facts.owner == facts.user
            &&& facts.mode & 0o020u32 == 0
            &&& facts.mode & 0o002u32 == 0
        },
{
    let mode = facts.mode;
    assert(mode & 0o022u32 == 0 <==> mode & 0o020u32 == 0 && mode & 0o002u32 == 0)
        by (bit_vector);
}

/// Whether a list of entries holds a key.
pub open spec fn holds_key(entries: Seq<KeyEntry>, key: Seq<char>) -> bool {
    exists|i: int| 0 <= i < entries.len() && (#[trigger] entries[i]).key@ == key
}

proof fn lemma_position(entries: Seq<KeyEntry>, key: Seq<char>)
    ensures
        0 <= position_of(entries, key) <= entries.len(),
        position_of(entries, key) < entries.len() <==> holds_key(entries, key),
    decreases entries.len(),
{
    if entries.len() > 0 && entries[0].key@ != key {
        let rest = entries.drop_first();
        lemma_position(rest, key);
        if holds_key(entries, key) {
            let i = choose|i: int| 0 <= i < entries.len() && (#[trigger] entries[i]).key@ == key;
            assert(rest[i - 1].key@ == key);
        }
        if holds_key(rest, key) {
            let i = choose|i: int| 0 <= i < rest.len() && (#[trigger] rest[i]).key@ == key;
            assert(entries[i + 1].key@ == key);
        }
    } else if entries.len() > 0 {
        assert(entries[0].key@ == key);
    }
}

/// A key that nothing reads is told of, under its full place, unless there is nothing under it.
pub proof fn a_key_nobody_reads_is_told(
    written: Seq<KeyEntry>,
    understood: Seq<KeyEntry>,
    prefix: Seq<char>,
    from: int,
    i: int,
)
    requires
        0 <= from <= i < written.len(),
        !holds_key(understood, written[i].key@),
        !says_nothing(written[i].value),
    ensures
        unknown_from(written, understood, prefix, from).contains(
            if prefix.len() == 0 {
                written[i].key@
            } else {
                prefix + "."@ + written[i].key@
            },
        ),
    decreases i - from,
{
    let place = dotted(prefix, written[i].key@);
    let all = unknown_from(written, understood, prefix, from);
    let rest = unknown_from(written, understood, prefix, from + 1);
    lemma_position(understood, written[from].key@);
    if from < i {
        a_key_nobody_reads_is_told(written, understood, prefix, from + 1, i);
        let n = choose|n: int| 0 <= n < rest.len() && rest[n] == place;
        let before = all.len() - rest.len();
        assert(all[before + n] == place);
    } else {
        assert(all[0] == place);
    }
}

/// A file all of whose keys are read, none of them a table, is told nothing of.
pub proof fn keys_that_are_read_are_not_told(
    written: Seq<KeyEntry>,
    understood: Seq<KeyEntry>,
    prefix: Seq<char>,
    from: int,
)
    requires
        0 <= from <= written.len(),
        forall|i: int|
            0 <= i < written.len() ==> holds_key(understood, (#[trigger] written[i]).key@)
                && !(written[i].value is Table),
    ensures
        unknown_from(written, understood, prefix, from) == Seq::<Seq<char>>::empty(),
    decreases written.len() - from,
{
    if from < written.len() {
        lemma_position(understood, written[from].key@);
        keys_that_are_read_are_not_told(written, understood, prefix, from + 1);
        assert(unknown_from(written, understood, prefix, from) =~= Seq::empty());
    } else {
        assert(unknown_from(written, understood, prefix, from) =~= Seq::empty());
    }
}

/// The files of a project are looked for directory by directory upwards, as far as the root of its
/// repository and never in the home directory or above it.
pub proof fn a_project_is_searched_upwards(
    platform: Platform,
    dirs: Seq<Seq<char>>,
    git: Seq<bool>,
    home: Option<Seq<char>>,
)
    requires
        git.len() == dirs.len(),
    ensures
        ({
            let (paths, rooted) = project_walk(platform, dirs, git, home);
            &&& paths.len() <= dirs.len()
            &&& forall|i: int|
                0 <= i < paths.len() ==> #[trigger] paths[i] == joined_path(
                    platform,
                    dirs[i],
                    "agentmux.toml"@,
                )
            &&& forall|i: int| 0 <= i < paths.len() - 1 ==> !(#[trigger] git[i])
            &&& rooted <==> paths.len() > 0 && git[paths.len() - 1]
            &&& !rooted && paths.len() < dirs.len() ==> home is Some && components_of(
                platform,
                home->Some_0,
            ) == components_of(platform, dirs[paths.len() as int])
        }),
    decreases dirs.len(),
{
    if dirs.len() > 0 && !(home matches Some(h) && components_of(platform, h) == components_of(
        platform,
        dirs[0],
    )) && !git[0] {
        let rest = dirs.drop_first();
        let marks = git.drop_first();
        a_project_is_searched_upwards(platform, rest, marks, home);
        let (paths, rooted) = project_walk(platform, dirs, git, home);
        let above = project_walk(platform, rest, marks, home).0;
        assert forall|i: int| 0 <= i < paths.len() implies #[trigger] paths[i] == joined_path(
            platform,
            dirs[i],
            "agentmux.toml"@,
        ) by {
            if i > 0 {
                assert(paths[i] == above[i - 1]);
                assert(rest[i - 1] == dirs[i]);
            }
        }
        assert forall|i: int| 0 <= i < paths.len() - 1 implies !(#[trigger] git[i]) by {
            if i > 0 {
                assert(marks[i - 1] == git[i]);
            }
        }
        if above.len() > 0 {
            assert(marks[above.len() - 1] == git[paths.len() - 1]);
        }
        if above.len() < rest.len() {
            assert(rest[above.len() as int] == dirs[paths.len() as int]);
        }
    }
}

/// A project outside of any repository is looked at only below the home directory; inside one,
/// every directory up to its root is.
pub proof fn a_project_is_the_users_own(
    platform: Platform,
    start: Seq<char>,
    home: Option<Seq<char>>,
    git: Seq<bool>,
)
    ensures
        ({
            let (paths, rooted) = project_walk(
                platform,
                ancestors_of(platform, start),
                git,
                home,
            );
            let at_home = home is Some && lies_under(platform, start, home->Some_0);
            &&& rooted || at_home ==> project_paths_of(platform, start, home, git) == paths
            &&& !rooted && !at_home ==> project_paths_of(platform, start, home, git) == Seq::<
                Seq<char>,
            >::empty()
        }),
{
}

} // verus!
