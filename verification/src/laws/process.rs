//! What is believed of a child process, and what a command line asks for.

use vstd::prelude::*;

use crate::cli::{
    equals_at, flagged_isolation, parsed_env, sandbox_asked, vendors_named, SandboxArg, VendorArg,
};
use crate::config::Platform;
use crate::delegate::{CodexSandbox, Isolation, Vendor};
use crate::launch::{
    identity_liveness, led_by, next_in_chain, GroupLookup, Launched, Liveness, ProcessLookup,
};

verus! {

/// A child is alive only where a process that has not exited bears its mark: its start time, or,
/// where none is on record, its process group.
/// Where the system cannot be asked nothing is claimed, and a process that bears another mark is
/// not the child.
pub proof fn only_the_child_itself_is_alive(launched: Launched, found: ProcessLookup)
    ensures
        found is Unsupported ==> identity_liveness(launched, found) == Liveness::Unknown,
        found is Absent ==> identity_liveness(launched, found) == Liveness::Gone,
        found matches ProcessLookup::Present { exited, start_time, group } ==> {
            &&& exited ==> identity_liveness(launched, found) == Liveness::Gone
            &&& !exited && launched.started is Some ==> identity_liveness(launched, found) == if Some(
                start_time,
            ) == launched.started {
                Liveness::Alive
            } else {
                Liveness::Gone
            }
            &&& !exited && launched.started is None ==> {
                &&& group is Failed ==> identity_liveness(launched, found) == Liveness::Gone
                &&& group is Unrepresentable ==> identity_liveness(launched, found)
                    == Liveness::Unknown
                &&& group matches GroupLookup::Group(of) ==> identity_liveness(launched, found)
                    == if launched.process_group is None || launched.process_group->Some_0 as int
                    == of as int {
                    Liveness::Alive
                } else {
                    Liveness::Gone
                }
            }
        },
{
}

/// A walk up the process tree goes to every parent that is a process of its own and that it has not
/// met, as long as it is not too deep, and stops at the platform's own.
pub proof fn the_walk_goes_to_every_parent(chain: Seq<u32>, pid: u32, parent: u32)
    ensures
        parent <= 1 ==> next_in_chain(chain, pid, Some(parent)) is None,
        next_in_chain(chain, pid, None) is None,
        next_in_chain(chain, pid, Some(parent)) is Some ==> next_in_chain(chain, pid, Some(parent))
            == Some(parent),
        chain.len() < 32 && parent > 1 && parent != pid && !chain.contains(parent)
            ==> next_in_chain(chain, pid, Some(parent)) == Some(parent),
        chain.contains(parent) ==> next_in_chain(chain, pid, Some(parent)) is None,
{
}

/// Whether a text holds no equals sign.
pub open spec fn is_plain(text: Seq<char>) -> bool {
    forall|i: int| 0 <= i < text.len() ==> #[trigger] text[i] != '='
}

proof fn lemma_first_equals(name: Seq<char>, rest: Seq<char>)
    requires
        is_plain(name),
    ensures
        equals_at(name) == name.len(),
        equals_at(name.push('=') + rest) == name.len(),
    decreases name.len(),
{
    let whole = name.push('=') + rest;
    if name.len() > 0 {
        assert(name[0] != '=');
        assert(whole[0] == name[0]);
        let less = name.drop_first();
        assert forall|i: int| 0 <= i < less.len() implies #[trigger] less[i] != '=' by {
            assert(less[i] == name[i + 1]);
        }
        assert(whole.drop_first() =~= less.push('=') + rest);
        lemma_first_equals(less, rest);
    } else {
        assert(whole[0] == '=');
    }
}

/// A variable given on the command line is set to everything behind its first equals sign, over
/// whatever was given for it before; without an equals sign or without a name nothing is set.
pub proof fn a_variable_is_set_as_it_is_given(
    pairs: Seq<Seq<char>>,
    name: Seq<char>,
    value: Seq<char>,
)
    requires
        is_plain(name),
        parsed_env(pairs) is Ok,
    ensures
        parsed_env(pairs.push(name)) is Err,
        name.len() == 0 ==> parsed_env(pairs.push(name.push('=') + value)) is Err,
        name.len() > 0 ==> parsed_env(pairs.push(name.push('=') + value)) == Ok::<_, Seq<char>>(
            parsed_env(pairs)->Ok_0.insert(name, value),
        ),
{
    lemma_first_equals(name, value);
    let pair = name.push('=') + value;
    assert(pairs.push(name).drop_last() =~= pairs);
    assert(pairs.push(pair).drop_last() =~= pairs);
    assert(pair.take(name.len() as int) =~= name);
    assert(pair.skip(name.len() as int + 1) =~= value);
}

/// What a command line asks for is what is done: a flag for inherited settings, a flag for none, or
/// neither, and each vendor under its own name.
pub proof fn flags_mean_what_they_say(args: Seq<VendorArg>, i: int)
    ensures
        flagged_isolation(true, false) == Some(Isolation::Inherit),
        flagged_isolation(false, true) == Some(Isolation::Isolated),
        flagged_isolation(false, false) is None,
        vendors_named(args).len() == args.len(),
        0 <= i < args.len() ==> (vendors_named(args)[i] == Vendor::Claude <==> args[i]
            == VendorArg::Claude),
{
}

/// A child leads a process group of its own where there are such groups, so that what it starts
/// can be told to stop with it, and it is known by its pid and its start time as they were read.
pub proof fn a_child_leads_its_own_group(platform: Platform, pid: u32, started: Option<u64>)
    ensures
        ({
            let child = led_by(platform, pid, started);
            &&& child.pid == pid
            &&& child.started == started
            &&& platform == Platform::Unix ==> child.process_group == Some(pid)
            &&& platform == Platform::Windows ==> child.process_group is None
        }),
{
}

/// A sandbox is asked for only where one is named, and two that are named apart are asked for
/// apart.
pub proof fn the_sandbox_named_is_asked_for(a: Option<SandboxArg>, b: Option<SandboxArg>)
    ensures
        sandbox_asked(a) is Some == a is Some,
        sandbox_asked(a) == Some(CodexSandbox::ReadOnly) <==> a == Some(SandboxArg::ReadOnly),
        sandbox_asked(a) == sandbox_asked(b) ==> a == b,
{
}

} // verus!
