//! Maps from text to values, kept in the order of their keys.
//!
//! Keys are ordered character by character, which is also the order of their UTF-8 bytes, so a
//! listing of a map always comes out the same way.

use vstd::prelude::*;

use crate::text::{chars_of, same};

verus! {

/// Whether `a` comes before `b` in the order of keys.
pub open spec fn precedes(a: Seq<char>, b: Seq<char>) -> bool
    decreases a.len(),
{
    if b.len() == 0 {
        false
    } else if a.len() == 0 {
        true
    } else if a[0] != b[0] {
        (a[0] as int) < (b[0] as int)
    } else {
        precedes(a.drop_first(), b.drop_first())
    }
}

/// No key comes before itself.
pub proof fn lemma_precedes_irreflexive(a: Seq<char>)
    ensures
        !precedes(a, a),
    decreases a.len(),
{
    if a.len() > 0 {
        lemma_precedes_irreflexive(a.drop_first());
    }
}

/// The order of keys is transitive.
pub proof fn lemma_precedes_transitive(a: Seq<char>, b: Seq<char>, c: Seq<char>)
    requires
        precedes(a, b),
        precedes(b, c),
    ensures
        precedes(a, c),
    decreases a.len(),
{
    if a.len() > 0 && b.len() > 0 && c.len() > 0 && a[0] == b[0] && b[0] == c[0] {
        lemma_precedes_transitive(a.drop_first(), b.drop_first(), c.drop_first());
    }
}

/// Of two different keys one comes before the other.
pub proof fn lemma_precedes_total(a: Seq<char>, b: Seq<char>)
    ensures
        a == b || precedes(a, b) || precedes(b, a),
    decreases a.len(),
{
    if a.len() > 0 && b.len() > 0 && a[0] == b[0] {
        lemma_precedes_total(a.drop_first(), b.drop_first());
        if a.drop_first() == b.drop_first() {
            assert(a =~= seq![a[0]] + a.drop_first());
            assert(b =~= seq![b[0]] + b.drop_first());
        }
    } else if a.len() == 0 && b.len() == 0 {
        assert(a =~= b);
    }
}

/// Whether a list of entries is in the order of its keys, with no key twice.
pub open spec fn ascending<W>(p: Seq<(Seq<char>, W)>) -> bool {
    forall|i: int, j: int|
        0 <= i < j < p.len() ==> precedes((#[trigger] p[i]).0, (#[trigger] p[j]).0)
}

/// Whether `k` is the key of an entry.
pub open spec fn has_key<W>(p: Seq<(Seq<char>, W)>, k: Seq<char>) -> bool {
    exists|i: int| 0 <= i < p.len() && (#[trigger] p[i]).0 == k
}

/// The map that a list of entries spells out.
pub open spec fn map_of<W>(p: Seq<(Seq<char>, W)>) -> Map<Seq<char>, W> {
    Map::new(
        |k: Seq<char>| has_key(p, k),
        |k: Seq<char>| p[choose|i: int| 0 <= i < p.len() && (#[trigger] p[i]).0 == k].1,
    )
}

/// An entry of an ordered list is what the map holds under its key.
pub proof fn lemma_entry<W>(p: Seq<(Seq<char>, W)>, i: int)
    requires
        ascending(p),
        0 <= i < p.len(),
    ensures
        map_of(p).contains_key(p[i].0),
        map_of(p)[p[i].0] == p[i].1,
{
    let k = p[i].0;
    let j = choose|j: int| 0 <= j < p.len() && (#[trigger] p[j]).0 == k;
    lemma_precedes_irreflexive(k);
    assert(has_key(p, k));
    assert(i == j);
}

/// The entries of a map in the order of their keys.
pub open spec fn in_order<W>(m: Map<Seq<char>, W>) -> Seq<(Seq<char>, W)> {
    choose|p: Seq<(Seq<char>, W)>| ascending(p) && #[trigger] map_of(p) == m
}

/// Two ordered lists that spell out the same map are the same list.
pub proof fn lemma_one_order<W>(p: Seq<(Seq<char>, W)>, q: Seq<(Seq<char>, W)>)
    requires
        ascending(p),
        ascending(q),
        map_of(p) == map_of(q),
    ensures
        p == q,
    decreases p.len(),
{
    if p.len() == 0 {
        if q.len() > 0 {
            lemma_entry(q, 0);
            assert(has_key(p, q[0].0));
        }
        assert(p =~= q);
    } else {
        lemma_entry(p, p.len() - 1);
        let k = p.last().0;
        assert(has_key(q, k));
        assert(q.len() > 0);
        lemma_entry(q, q.len() - 1);
        let l = q.last().0;
        assert(has_key(p, l));
        let i = choose|i: int| 0 <= i < q.len() && (#[trigger] q[i]).0 == k;
        let j = choose|j: int| 0 <= j < p.len() && (#[trigger] p[j]).0 == l;
        if k != l {
            assert(precedes(q[i].0, q[q.len() - 1].0));
            assert(precedes(p[j].0, p[p.len() - 1].0));
            lemma_precedes_transitive(k, l, k);
            lemma_precedes_irreflexive(k);
        }
        assert(p.last() == q.last());
        let p1 = p.drop_last();
        let q1 = q.drop_last();
        lemma_without_last(p);
        lemma_without_last(q);
        lemma_one_order(p1, q1);
        assert(p =~= p1.push(p.last()));
        assert(q =~= q1.push(q.last()));
    }
}

/// Without its last entry an ordered list spells out the map without that key.
pub proof fn lemma_without_last<W>(p: Seq<(Seq<char>, W)>)
    requires
        ascending(p),
        p.len() > 0,
    ensures
        ascending(p.drop_last()),
        map_of(p.drop_last()) == map_of(p).remove(p.last().0),
{
    let q = p.drop_last();
    assert forall|k: Seq<char>| map_of(p).remove(p.last().0).contains_key(k) implies #[trigger] map_of(
        q,
    ).contains_key(k) by {
        let i = choose|i: int| 0 <= i < p.len() && (#[trigger] p[i]).0 == k;
        assert(q[i].0 == k);
    }
    assert forall|k: Seq<char>| #[trigger] map_of(q).contains_key(k) implies map_of(p).remove(
        p.last().0,
    ).contains_key(k) && map_of(q)[k] == map_of(p).remove(p.last().0)[k] by {
        let i = choose|i: int| 0 <= i < q.len() && (#[trigger] q[i]).0 == k;
        assert(p[i] == q[i]);
        lemma_entry(p, i);
        lemma_entry(q, i);
        lemma_precedes_irreflexive(k);
        assert(precedes(p[i].0, p[p.len() - 1].0));
    }
    assert(map_of(q) =~= map_of(p).remove(p.last().0));
}

/// An ordered list is the one order of the map it spells out.
pub proof fn lemma_in_order<W>(p: Seq<(Seq<char>, W)>)
    requires
        ascending(p),
    ensures
        in_order(map_of(p)) == p,
{
    let q = in_order(map_of(p));
    assert(ascending(p) && map_of(p) == map_of(p));
    assert(ascending(q) && map_of(q) == map_of(p));
    lemma_one_order(p, q);
}

/// One more entry of an ordered list puts that entry into the map.
pub proof fn lemma_one_more<W>(p: Seq<(Seq<char>, W)>, i: int)
    requires
        ascending(p),
        0 <= i < p.len(),
    ensures
        ascending(p.take(i)),
        ascending(p.take(i + 1)),
        !map_of(p.take(i)).contains_key(p[i].0),
        map_of(p.take(i + 1)) == map_of(p.take(i)).insert(p[i].0, p[i].1),
{
    let less = p.take(i);
    let more = p.take(i + 1);
    assert(more.drop_last() =~= less);
    lemma_without_last(more);
    lemma_entry(more, i);
    assert(map_of(more) =~= map_of(more).remove(p[i].0).insert(p[i].0, p[i].1));
}

/// Putting an entry where it belongs spells out the map with that entry added.
pub proof fn lemma_inserted<W>(p: Seq<(Seq<char>, W)>, at: int, k: Seq<char>, w: W)
    requires
        ascending(p),
        0 <= at <= p.len(),
        forall|i: int| 0 <= i < at ==> precedes((#[trigger] p[i]).0, k),
        forall|i: int| at <= i < p.len() ==> precedes(k, (#[trigger] p[i]).0),
    ensures
        ascending(p.insert(at, (k, w))),
        map_of(p.insert(at, (k, w))) == map_of(p).insert(k, w),
{
    let q = p.insert(at, (k, w));
    assert(ascending(q));
    lemma_entry(q, at);
    assert forall|x: Seq<char>| map_of(p).insert(k, w).contains_key(x) implies #[trigger] map_of(
        q,
    ).contains_key(x) by {
        if x == k {
            assert(q[at].0 == k);
        } else {
            let i = choose|i: int| 0 <= i < p.len() && (#[trigger] p[i]).0 == x;
            assert(q[if i < at { i } else { i + 1 }].0 == x);
        }
    }
    assert forall|x: Seq<char>| #[trigger] map_of(q).contains_key(x) implies map_of(p).insert(
        k,
        w,
    ).contains_key(x) && map_of(q)[x] == map_of(p).insert(k, w)[x] by {
        let i = choose|i: int| 0 <= i < q.len() && (#[trigger] q[i]).0 == x;
        lemma_entry(q, i);
        if i != at {
            let j = if i < at { i } else { i - 1 };
            assert(p[j] == q[i]);
            lemma_entry(p, j);
            lemma_precedes_irreflexive(k);
        }
    }
    assert(map_of(q) =~= map_of(p).insert(k, w));
}

/// Replacing the value of an entry spells out the map with that value replaced.
pub proof fn lemma_updated<W>(p: Seq<(Seq<char>, W)>, at: int, w: W)
    requires
        ascending(p),
        0 <= at < p.len(),
    ensures
        ascending(p.update(at, (p[at].0, w))),
        map_of(p.update(at, (p[at].0, w))) == map_of(p).insert(p[at].0, w),
{
    let k = p[at].0;
    let q = p.update(at, (k, w));
    assert forall|i: int, j: int| 0 <= i < j < q.len() implies precedes(
        (#[trigger] q[i]).0,
        (#[trigger] q[j]).0,
    ) by {
        assert(q[i].0 == p[i].0 && q[j].0 == p[j].0);
    }
    lemma_entry(q, at);
    lemma_entry(p, at);
    assert forall|x: Seq<char>| map_of(p).insert(k, w).contains_key(x) implies #[trigger] map_of(
        q,
    ).contains_key(x) by {
        let i = choose|i: int| 0 <= i < p.len() && (#[trigger] p[i]).0 == x;
        assert(q[i].0 == x);
    }
    assert forall|x: Seq<char>| #[trigger] map_of(q).contains_key(x) implies map_of(p).insert(
        k,
        w,
    ).contains_key(x) && map_of(q)[x] == map_of(p).insert(k, w)[x] by {
        let i = choose|i: int| 0 <= i < q.len() && (#[trigger] q[i]).0 == x;
        lemma_entry(q, i);
        lemma_entry(p, i);
        if i != at {
            lemma_precedes_irreflexive(k);
            if i < at {
                assert(precedes(p[i].0, p[at].0));
            } else {
                assert(precedes(p[at].0, p[i].0));
            }
        }
    }
    assert(map_of(q) =~= map_of(p).insert(k, w));
}

/// Taking an entry out spells out the map without its key.
pub proof fn lemma_removed<W>(p: Seq<(Seq<char>, W)>, at: int)
    requires
        ascending(p),
        0 <= at < p.len(),
    ensures
        ascending(p.remove(at)),
        map_of(p.remove(at)) == map_of(p).remove(p[at].0),
{
    let k = p[at].0;
    let q = p.remove(at);
    assert forall|i: int| 0 <= i < q.len() implies #[trigger] q[i] == p[if i < at {
        i
    } else {
        i + 1
    }] by {}
    assert(ascending(q));
    assert forall|x: Seq<char>| map_of(p).remove(k).contains_key(x) implies #[trigger] map_of(
        q,
    ).contains_key(x) by {
        let i = choose|i: int| 0 <= i < p.len() && (#[trigger] p[i]).0 == x;
        assert(q[if i < at { i } else { i - 1 }].0 == x);
    }
    assert forall|x: Seq<char>| #[trigger] map_of(q).contains_key(x) implies map_of(p).remove(
        k,
    ).contains_key(x) && map_of(q)[x] == map_of(p).remove(k)[x] by {
        let i = choose|i: int| 0 <= i < q.len() && (#[trigger] q[i]).0 == x;
        let j = if i < at { i } else { i + 1 };
        assert(q[i] == p[j]);
        lemma_entry(q, i);
        lemma_entry(p, j);
        lemma_precedes_irreflexive(k);
        if j < at {
            assert(precedes(p[j].0, p[at].0));
        } else {
            assert(precedes(p[at].0, p[j].0));
        }
    }
    assert(map_of(q) =~= map_of(p).remove(k));
}

/// Whether a map can be walked in the order of its keys, as every finite map can.
pub open spec fn walkable<W>(m: Map<Seq<char>, W>) -> bool {
    &&& ascending(in_order(m))
    &&& map_of(in_order(m)) == m
}

/// The map with nothing in it is walked in no steps.
pub proof fn lemma_walk_empty<W>()
    ensures
        walkable(Map::<Seq<char>, W>::empty()),
        in_order(Map::<Seq<char>, W>::empty()) == Seq::<(Seq<char>, W)>::empty(),
{
    let p = Seq::<(Seq<char>, W)>::empty();
    assert(map_of(p) =~= Map::empty());
    lemma_in_order(p);
}

proof fn lemma_place<W>(p: Seq<(Seq<char>, W)>, k: Seq<char>) -> (at: int)
    requires
        ascending(p),
        !has_key(p, k),
    ensures
        0 <= at <= p.len(),
        forall|i: int| 0 <= i < at ==> precedes((#[trigger] p[i]).0, k),
        forall|i: int| at <= i < p.len() ==> precedes(k, (#[trigger] p[i]).0),
    decreases p.len(),
{
    if p.len() == 0 {
        0
    } else {
        let last = p[p.len() - 1];
        lemma_precedes_total(last.0, k);
        assert(last.0 != k);
        if precedes(last.0, k) {
            assert forall|i: int| 0 <= i < p.len() implies precedes((#[trigger] p[i]).0, k) by {
                if i < p.len() - 1 {
                    lemma_precedes_transitive(p[i].0, last.0, k);
                }
            }
            p.len() as int
        } else {
            let q = p.drop_last();
            assert forall|i: int| 0 <= i < q.len() implies (#[trigger] q[i]).0 != k by {
                assert(q[i] == p[i]);
            }
            let at = lemma_place(q, k);
            assert forall|i: int| 0 <= i < at implies precedes((#[trigger] p[i]).0, k) by {
                assert(q[i] == p[i]);
            }
            assert forall|i: int| at <= i < p.len() implies precedes(k, (#[trigger] p[i]).0) by {
                if i < q.len() {
                    assert(q[i] == p[i]);
                }
            }
            at
        }
    }
}

/// Where an entry stands in the walk of a map after it was put in.
pub proof fn lemma_walk_insert<W>(m: Map<Seq<char>, W>, k: Seq<char>, w: W) -> (at: int)
    requires
        walkable(m),
    ensures
        walkable(m.insert(k, w)),
        m.contains_key(k) ==> {
            &&& 0 <= at < in_order(m).len()
            &&& in_order(m)[at] == (k, m[k])
            &&& in_order(m.insert(k, w)) == in_order(m).update(at, (k, w))
        },
        !m.contains_key(k) ==> {
            &&& 0 <= at <= in_order(m).len()
            &&& in_order(m.insert(k, w)) == in_order(m).insert(at, (k, w))
        },
{
    let p = in_order(m);
    if m.contains_key(k) {
        let at = choose|i: int| 0 <= i < p.len() && (#[trigger] p[i]).0 == k;
        lemma_entry(p, at);
        lemma_updated(p, at, w);
        lemma_in_order(p.update(at, (k, w)));
        at
    } else {
        let at = lemma_place(p, k);
        lemma_inserted(p, at, k, w);
        lemma_in_order(p.insert(at, (k, w)));
        at
    }
}

fn smaller(c: char, d: char) -> (r: bool)
    ensures
        r == ((c as int) < (d as int)),
{
    (c as u32) < (d as u32)
}

/// Whether `a` comes before `b` in the order of keys.
pub fn before(a: &str, b: &str) -> (r: bool)
    ensures
        r == precedes(a@, b@),
{
    let x = chars_of(a);
    let y = chars_of(b);
    let mut i: usize = 0;
    assert(x@.skip(0) =~= x@);
    assert(y@.skip(0) =~= y@);
    while i < x.len() && i < y.len()
        invariant
            i <= x.len(),
            i <= y.len(),
            x@ == a@,
            y@ == b@,
            precedes(a@, b@) == precedes(x@.skip(i as int), y@.skip(i as int)),
        decreases x.len() - i,
    {
        let c: char = x[i];
        let d: char = y[i];
        if c != d {
            return smaller(c, d);
        }
        assert(x@.skip(i as int).drop_first() =~= x@.skip(i + 1));
        assert(y@.skip(i as int).drop_first() =~= y@.skip(i + 1));
        i = i + 1;
    }
    i < y.len()
}

/// A map from text to values that is walked in the order of its keys.
pub struct TextMap<V: View> {
    entries: Vec<(String, V)>,
}

impl<V: View> TextMap<V> {
    /// The entries in the order of their keys.
    pub closed spec fn pairs(&self) -> Seq<(Seq<char>, V::V)> {
        Seq::new(self.entries@.len(), |i: int| (self.entries@[i].0@, self.entries@[i].1@))
    }

    #[verifier::type_invariant]
    spec fn ordered(&self) -> bool {
        ascending(self.pairs())
    }
}

impl<V: View> View for TextMap<V> {
    type V = Map<Seq<char>, V::V>;

    open spec fn view(&self) -> Map<Seq<char>, V::V> {
        map_of(self.pairs())
    }
}

impl<V: View> TextMap<V> {
    /// A map with nothing in it.
    pub fn new() -> (r: Self)
        ensures
            r@ == Map::<Seq<char>, V::V>::empty(),
            r.pairs().len() == 0,
    {
        let r = TextMap { entries: Vec::new() };
        assert(map_of(r.pairs()) =~= Map::empty());
        r
    }

    /// How many entries the map has.
    pub fn len(&self) -> (r: usize)
        ensures
            r == self.pairs().len(),
            walkable(self@),
            in_order(self@) == self.pairs(),
    {
        proof {
            use_type_invariant(self);
            lemma_in_order(self.pairs());
        }
        self.entries.len()
    }

    /// Whether the map has no entry.
    pub fn is_empty(&self) -> (r: bool)
        ensures
            r == (self@ == Map::<Seq<char>, V::V>::empty()),
            r == (self.pairs().len() == 0),
    {
        proof {
            use_type_invariant(self);
            if self.pairs().len() > 0 {
                lemma_entry(self.pairs(), 0);
            } else {
                assert(self@ =~= Map::empty());
            }
        }
        self.entries.len() == 0
    }

    /// The key of the entry at position `i`, in the order of keys.
    pub fn key_at(&self, i: usize) -> (r: &String)
        requires
            i < self.pairs().len(),
        ensures
            r@ == self.pairs()[i as int].0,
            self@.contains_key(r@),
            self@[r@] == self.pairs()[i as int].1,
    {
        proof {
            use_type_invariant(self);
            lemma_entry(self.pairs(), i as int);
        }
        &self.entries[i].0
    }

    /// The value of the entry at position `i`, in the order of keys.
    pub fn value_at(&self, i: usize) -> (r: &V)
        requires
            i < self.pairs().len(),
        ensures
            r@ == self.pairs()[i as int].1,
    {
        &self.entries[i].1
    }

    /// The entries themselves, in the order of their keys.
    pub fn into_entries(self) -> (r: Vec<(String, V)>)
        ensures
            r@.len() == self.pairs().len(),
            forall|i: int|
                0 <= i < r@.len() ==> (#[trigger] r@[i]).0@ == self.pairs()[i].0 && r@[i].1@
                    == self.pairs()[i].1,
            walkable(self@),
            in_order(self@) == self.pairs(),
    {
        proof {
            use_type_invariant(&self);
            lemma_in_order(self.pairs());
        }
        self.entries
    }

    /// Where a key stands, or where it would have to stand.
    fn seek(&self, key: &str) -> (r: (bool, usize))
        ensures
            r.0 ==> r.1 < self.pairs().len() && self.pairs()[r.1 as int].0 == key@,
            !r.0 ==> {
                &&& r.1 <= self.pairs().len()
                &&& forall|i: int|
                    0 <= i < r.1 ==> precedes((#[trigger] self.pairs()[i]).0, key@)
                &&& forall|i: int|
                    r.1 <= i < self.pairs().len() ==> precedes(
                        key@,
                        (#[trigger] self.pairs()[i]).0,
                    )
            },
            r.0 == self@.contains_key(key@),
    {
        proof {
            use_type_invariant(self);
        }
        let mut i: usize = 0;
        while i < self.entries.len()
            invariant
                i <= self.entries.len(),
                ascending(self.pairs()),
                forall|j: int| 0 <= j < i ==> precedes((#[trigger] self.pairs()[j]).0, key@),
            decreases self.entries.len() - i,
        {
            assert(self.pairs()[i as int].0 == self.entries@[i as int].0@);
            if same(self.entries[i].0.as_str(), key) {
                proof {
                    lemma_entry(self.pairs(), i as int);
                }
                return (true, i);
            }
            if !before(self.entries[i].0.as_str(), key) {
                proof {
                    lemma_precedes_total(self.pairs()[i as int].0, key@);
                    assert forall|j: int| i <= j < self.pairs().len() implies precedes(
                        key@,
                        (#[trigger] self.pairs()[j]).0,
                    ) by {
                        if j > i {
                            lemma_precedes_transitive(
                                key@,
                                self.pairs()[i as int].0,
                                self.pairs()[j].0,
                            );
                        }
                    }
                    lemma_precedes_irreflexive(key@);
                }
                return (false, i);
            }
            i = i + 1;
        }
        proof {
            lemma_precedes_irreflexive(key@);
        }
        (false, i)
    }

    /// The value under a key.
    pub fn get(&self, key: &str) -> (r: Option<&V>)
        ensures
            r is Some == self@.contains_key(key@),
            r matches Some(v) ==> v@ == self@[key@],
    {
        let (found, at) = self.seek(key);
        if found {
            proof {
                use_type_invariant(self);
                lemma_entry(self.pairs(), at as int);
            }
            Some(&self.entries[at].1)
        } else {
            None
        }
    }

    /// Whether the map has a key.
    pub fn contains_key(&self, key: &str) -> (r: bool)
        ensures
            r == self@.contains_key(key@),
    {
        self.seek(key).0
    }

    /// Put a value under a key, in place of any that is there.
    pub fn insert(&mut self, key: &str, value: V)
        ensures
            final(self)@ == old(self)@.insert(key@, value@),
    {
        let (found, at) = self.seek(key);
        proof {
            use_type_invariant(&*self);
        }
        let ghost p = self.pairs();
        let mut entries: Vec<(String, V)> = Vec::new();
        std::mem::swap(&mut entries, &mut self.entries);
        let name = key.to_owned();
        if found {
            proof {
                lemma_updated(p, at as int, value@);
            }
            entries.set(at, (name, value));
            assert(Seq::new(
                entries@.len(),
                |i: int| (entries@[i].0@, entries@[i].1@),
            ) =~= p.update(at as int, (p[at as int].0, value@)));
        } else {
            proof {
                lemma_inserted(p, at as int, key@, value@);
            }
            entries.insert(at, (name, value));
            assert(Seq::new(entries@.len(), |i: int| (entries@[i].0@, entries@[i].1@)) =~= p.insert(
                at as int,
                (key@, value@),
            ));
        }
        std::mem::swap(&mut entries, &mut self.entries);
    }

    /// Take a key out, where it is there.
    pub fn remove(&mut self, key: &str)
        ensures
            final(self)@ == old(self)@.remove(key@),
    {
        let (found, at) = self.seek(key);
        proof {
            use_type_invariant(&*self);
        }
        if found {
            let ghost p = self.pairs();
            let mut entries: Vec<(String, V)> = Vec::new();
            std::mem::swap(&mut entries, &mut self.entries);
            proof {
                lemma_removed(p, at as int);
            }
            let _ = entries.remove(at);
            assert(Seq::new(entries@.len(), |i: int| (entries@[i].0@, entries@[i].1@)) =~= p.remove(
                at as int,
            ));
            std::mem::swap(&mut entries, &mut self.entries);
        } else {
            assert(self@ =~= old(self)@.remove(key@));
        }
    }
}

/// A copy of a map of texts.
pub fn copied_texts(map: &TextMap<String>) -> (r: TextMap<String>)
    ensures
        r@ == map@,
{
    let n: usize = map.len();
    let mut out: TextMap<String> = TextMap::new();
    let ghost entries = map.pairs();
    let mut i: usize = 0;
    assert(map_of(entries.take(0)) =~= Map::empty());
    while i < n
        invariant
            i <= n,
            n == entries.len(),
            entries == map.pairs(),
            in_order(map@) == entries,
            walkable(map@),
            out@ == map_of(entries.take(i as int)),
        decreases n - i,
    {
        let key = map.key_at(i);
        let value = map.value_at(i);
        proof {
            lemma_one_more(entries, i as int);
        }
        out.insert(key.as_str(), value.clone());
        i = i + 1;
    }
    assert(entries.take(i as int) =~= entries);
    out
}

} // verus!
