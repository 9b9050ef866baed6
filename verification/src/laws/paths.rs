//! Where paths lead on Unix.

use vstd::prelude::*;

use crate::config::Platform;
use crate::path::{
    absolute, ancestors_of, expanded, joined_path, last_separator, lemma_parent_is_shorter,
    parent_of, separates, without_leading, without_trailing, Style,
};

verus! {

/// A path is absolute exactly where it starts with the root.
pub proof fn an_absolute_path_starts_at_the_root(path: Seq<char>)
    ensures
        absolute(Platform::Unix, path) <==> path.len() > 0 && path[0] == '/',
{
    assert(path.skip(0) =~= path);
}

/// A path below another is the two with one separator between them, and one that starts at the root
/// stands alone.
pub proof fn a_path_below_another(base: Seq<char>, part: Seq<char>)
    ensures
        part.len() > 0 && part[0] == '/' ==> joined_path(Platform::Unix, base, part) == part,
        base.len() == 0 ==> joined_path(Platform::Unix, base, part) == part,
        base.len() > 0 && base[base.len() - 1] != '/' && !(part.len() > 0 && part[0] == '/')
            ==> joined_path(Platform::Unix, base, part) == base.push('/') + part,
        base.len() > 0 && base[base.len() - 1] == '/' && !(part.len() > 0 && part[0] == '/')
            ==> joined_path(Platform::Unix, base, part) == base + part,
{
    an_absolute_path_starts_at_the_root(part);
    reveal_strlit("/");
    assert("/"@ =~= seq!['/']);
    assert(base + "/"@ =~= base.push('/'));
}

/// A directory that starts with a tilde is below the home directory, and any other is as it is
/// written.
pub proof fn a_tilde_is_home(home: Seq<char>, step: Seq<char>)
    requires
        home.len() > 0,
        home[home.len() - 1] != '/',
        step.len() > 0,
        forall|i: int| 0 <= i < step.len() ==> #[trigger] step[i] != '/',
        step[0] != '.',
        step[step.len() - 1] != '.',
    ensures
        expanded(Platform::Unix, seq!['~', '/'] + step, Some(home)) == home.push('/') + step,
        expanded(Platform::Unix, seq!['~', '/'] + step, None) == seq!['~', '/'] + step,
        expanded(Platform::Unix, step, Some(home)) == step || step[0] == '~',
{
    let path = seq!['~', '/'] + step;
    let rest = path.drop_first();
    assert(rest =~= seq!['/'] + step);
    assert(rest.drop_first() =~= step);
    reveal_strlit(".");
    assert("."@.len() == 1 && "."@[0] == '.');
    assert(separates(Style::Unix, rest[0]));
    assert(step[0] != '/');
    assert(step[step.len() - 1] != '/');
    assert(without_leading(Style::Unix, step) == step);
    assert(without_leading(Style::Unix, rest) == step);
    assert(without_trailing(Style::Unix, step) == step);
    a_path_below_another(home, step);
}

/// The directories above a path are met one by one: each is the parent of the one before it, the
/// first is the path itself, and the last has none.
pub proof fn every_directory_above_is_met(platform: Platform, path: Seq<char>)
    ensures
        ({
            let all = ancestors_of(platform, path);
            &&& all.len() > 0
            &&& all[0] == path
            &&& forall|i: int|
                0 <= i < all.len() - 1 ==> parent_of(platform, #[trigger] all[i]) == Some(all[i + 1])
            &&& parent_of(platform, all[all.len() - 1]) is None
        }),
    decreases path.len(),
{
    lemma_parent_is_shorter(platform, path);
    let all = ancestors_of(platform, path);
    if let Some(parent) = parent_of(platform, path) {
        every_directory_above_is_met(platform, parent);
        let rest = ancestors_of(platform, parent);
        assert(all =~= seq![path] + rest);
        assert forall|i: int| 0 <= i < all.len() - 1 implies parent_of(platform, #[trigger] all[i])
            == Some(all[i + 1]) by {
            if i > 0 {
                assert(all[i] == rest[i - 1]);
                assert(all[i + 1] == rest[i]);
            }
        }
        assert(all[all.len() - 1] == rest[rest.len() - 1]);
    }
}

/// The parent of a path is what stands before its last separator, and what stands at the root lies
/// in the root.
pub proof fn a_parent_is_one_step_up(dir: Seq<char>, step: Seq<char>)
    requires
        step.len() > 0,
        forall|i: int| 0 <= i < step.len() ==> #[trigger] step[i] != '/',
        dir.len() > 1,
        dir[0] == '/',
    ensures
        parent_of(Platform::Unix, dir.push('/') + step) == Some(dir),
        parent_of(Platform::Unix, seq!['/'] + step) == Some(seq!['/']),
        parent_of(Platform::Unix, seq!['/']) is None,
{
    let path = dir.push('/') + step;
    let text = path.drop_first();
    assert(path.skip(0) =~= path);
    assert(text =~= dir.drop_first().push('/') + step);
    lemma_last(dir.drop_first().push('/'), step);
    let short = seq!['/'] + step;
    assert(short.skip(0) =~= short);
    assert(short.drop_first() =~= step);
    assert(Seq::<char>::empty() + step =~= step);
    lemma_none(step);
    let root = seq!['/'];
    assert(root.skip(0) =~= root);
    assert(path.take(dir.len() as int) =~= dir);
    assert(short.take(1) =~= seq!['/']);
}

proof fn lemma_none(step: Seq<char>)
    requires
        forall|i: int| 0 <= i < step.len() ==> #[trigger] step[i] != '/',
    ensures
        last_separator(Style::Unix, step) == -1,
    decreases step.len(),
{
    if step.len() > 0 {
        assert(step[step.len() - 1] != '/');
        let init = step.drop_last();
        assert forall|i: int| 0 <= i < init.len() implies #[trigger] init[i] != '/' by {
            assert(init[i] == step[i]);
        }
        lemma_none(init);
    }
}

proof fn lemma_last(front: Seq<char>, step: Seq<char>)
    requires
        front.len() > 0,
        front[front.len() - 1] == '/',
        forall|i: int| 0 <= i < step.len() ==> #[trigger] step[i] != '/',
    ensures
        last_separator(Style::Unix, front + step) == front.len() - 1,
    decreases step.len(),
{
    let whole = front + step;
    if step.len() > 0 {
        assert(step[step.len() - 1] != '/');
        let init = step.drop_last();
        assert forall|i: int| 0 <= i < init.len() implies #[trigger] init[i] != '/' by {
            assert(init[i] == step[i]);
        }
        assert(whole.drop_last() =~= front + init);
        lemma_last(front, init);
    } else {
        assert(whole =~= front);
    }
}

} // verus!
