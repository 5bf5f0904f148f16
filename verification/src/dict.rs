//! A dictionary from text to values, kept in the order of its keys, and sets of texts.

use crate::text;
use vstd::prelude::*;

verus! {

// ---------------------------------------------------------------------------
// Entries
// ---------------------------------------------------------------------------

/// Whether the keys ascend: no key occurs twice, and each comes before those that follow it.
pub open spec fn ascending<T>(e: Seq<(Seq<char>, T)>) -> bool {
    forall|i: int, j: int| 0 <= i < j < e.len() ==> #[trigger] text::before(e[i].0, e[j].0)
}

/// The value that the first entry under `k` holds.
pub open spec fn lookup<T>(e: Seq<(Seq<char>, T)>, k: Seq<char>) -> Option<T>
    decreases e.len(),
{
    if e.len() == 0 {
        None
    } else if e[0].0 == k {
        Some(e[0].1)
    } else {
        lookup(e.skip(1), k)
    }
}

/// The entries with `k` set to `v`: in place of the entry under `k`, or before the first
/// entry whose key comes after `k`.
pub open spec fn put<T>(e: Seq<(Seq<char>, T)>, k: Seq<char>, v: T) -> Seq<(Seq<char>, T)>
    decreases e.len(),
{
    if e.len() == 0 {
        seq![(k, v)]
    } else if e[0].0 == k {
        seq![(k, v)] + e.skip(1)
    } else if text::before(k, e[0].0) {
        seq![(k, v)] + e
    } else {
        seq![e[0]] + put(e.skip(1), k, v)
    }
}

/// The entries without the first one under `k`.
pub open spec fn without<T>(e: Seq<(Seq<char>, T)>, k: Seq<char>) -> Seq<(Seq<char>, T)>
    decreases e.len(),
{
    if e.len() == 0 {
        e
    } else if e[0].0 == k {
        e.skip(1)
    } else {
        seq![e[0]] + without(e.skip(1), k)
    }
}

/// The entries with every one of `over` set on top of them, in order.
pub open spec fn put_all<T>(e: Seq<(Seq<char>, T)>, over: Seq<(Seq<char>, T)>) -> Seq<(Seq<char>, T)>
    decreases over.len(),
{
    if over.len() == 0 {
        e
    } else {
        put(put_all(e, over.drop_last()), over.last().0, over.last().1)
    }
}

/// Setting two lists one after the other is setting both.
pub proof fn put_all_appends<T>(
    e: Seq<(Seq<char>, T)>,
    a: Seq<(Seq<char>, T)>,
    b: Seq<(Seq<char>, T)>,
)
    ensures
        put_all(e, a + b) == put_all(put_all(e, a), b),
    decreases b.len(),
{
    if b.len() == 0 {
        assert(a + b =~= a);
    } else {
        put_all_appends(e, a, b.drop_last());
        assert((a + b).drop_last() =~= a + b.drop_last());
    }
}

/// A key is there after setting a list where it was there before or is in the list.
pub proof fn put_all_keys<T>(e: Seq<(Seq<char>, T)>, over: Seq<(Seq<char>, T)>, q: Seq<char>)
    ensures
        lookup(put_all(e, over), q) is Some <==> (lookup(e, q) is Some || exists|i: int|
            0 <= i < over.len() && (#[trigger] over[i]).0 == q),
        lookup(put_all(e, over), q) matches Some(v) ==> lookup(e, q) == Some(v) || exists|i: int|
            0 <= i < over.len() && #[trigger] over[i] == (q, v),
    decreases over.len(),
{
    if over.len() > 0 {
        put_all_keys(e, over.drop_last(), q);
        put_then_lookup(put_all(e, over.drop_last()), over.last().0, over.last().1, q);
        assert(over[over.len() - 1] == over.last());
        if exists|i: int| 0 <= i < over.drop_last().len() && (#[trigger] over.drop_last()[i]).0 == q {
            let i = choose|i: int|
                0 <= i < over.drop_last().len() && (#[trigger] over.drop_last()[i]).0 == q;
            assert(over[i].0 == q);
        }
        if exists|i: int| 0 <= i < over.len() && (#[trigger] over[i]).0 == q && over.last().0 != q {
            let i = choose|i: int| 0 <= i < over.len() && (#[trigger] over[i]).0 == q && over.last().0 != q;
            assert(over.drop_last()[i].0 == q);
        }
        if let Some(v) = lookup(put_all(e, over), q) {
            if over.last().0 != q {
                if lookup(e, q) != Some(v) {
                    let i = choose|i: int|
                        0 <= i < over.drop_last().len() && #[trigger] over.drop_last()[i] == (q, v);
                    assert(over[i] == (q, v));
                }
            }
        }
    }
}

/// What was set is found, and what was under the other keys is unchanged.
pub proof fn put_then_lookup<T>(e: Seq<(Seq<char>, T)>, k: Seq<char>, v: T, q: Seq<char>)
    ensures
        lookup(put(e, k, v), q) == (if q == k {
            Some(v)
        } else {
            lookup(e, q)
        }),
    decreases e.len(),
{
    let p = put(e, k, v);
    if e.len() == 0 {
        assert(p.skip(1) =~= e);
    } else if e[0].0 == k {
        assert(p.skip(1) =~= e.skip(1));
    } else if text::before(k, e[0].0) {
        assert(p.skip(1) =~= e);
    } else {
        put_then_lookup(e.skip(1), k, v, q);
        assert(p.skip(1) =~= put(e.skip(1), k, v));
    }
}

/// Every key after setting is one of those before, or the one that was set.
pub proof fn put_keys<T>(e: Seq<(Seq<char>, T)>, k: Seq<char>, v: T)
    ensures
        forall|i: int|
            0 <= i < put(e, k, v).len() ==> {
                let x = (#[trigger] put(e, k, v)[i]).0;
                x == k || exists|j: int| 0 <= j < e.len() && (#[trigger] e[j]).0 == x
            },
    decreases e.len(),
{
    let p = put(e, k, v);
    if e.len() > 0 && e[0].0 != k && !text::before(k, e[0].0) {
        put_keys(e.skip(1), k, v);
        assert forall|i: int| 0 <= i < p.len() implies {
            let x = (#[trigger] p[i]).0;
            x == k || exists|j: int| 0 <= j < e.len() && (#[trigger] e[j]).0 == x
        } by {
            if i == 0 {
                assert(p[0] == e[0]);
            } else {
                let q = put(e.skip(1), k, v);
                assert(p[i] == q[i - 1]);
                if q[i - 1].0 != k {
                    let j = choose|j: int| 0 <= j < e.skip(1).len() && (#[trigger] e.skip(1)[j]).0 == q[i - 1].0;
                    assert(e[j + 1].0 == p[i].0);
                }
            }
        }
    } else {
        assert forall|i: int| 0 <= i < p.len() implies {
            let x = (#[trigger] p[i]).0;
            x == k || exists|j: int| 0 <= j < e.len() && (#[trigger] e[j]).0 == x
        } by {
            if e.len() > 0 && i > 0 {
                if e[0].0 == k {
                    assert(p[i] == e[i]);
                } else {
                    assert(p[i] == e[i - 1]);
                }
            }
        }
    }
}

/// Setting a key keeps the keys ascending.
pub proof fn put_keeps_ascending<T>(e: Seq<(Seq<char>, T)>, k: Seq<char>, v: T)
    requires
        ascending(e),
    ensures
        ascending(put(e, k, v)),
    decreases e.len(),
{
    let p = put(e, k, v);
    if e.len() == 0 {
    } else if e[0].0 == k {
        assert forall|i: int, j: int| 0 <= i < j < p.len() implies #[trigger] text::before(
            p[i].0,
            p[j].0,
        ) by {
            assert(text::before(e[i].0, e[j].0));
        }
    } else if text::before(k, e[0].0) {
        assert forall|i: int, j: int| 0 <= i < j < p.len() implies #[trigger] text::before(
            p[i].0,
            p[j].0,
        ) by {
            if i > 0 {
                assert(text::before(e[i - 1].0, e[j - 1].0));
            } else if j > 1 {
                assert(text::before(e[0].0, e[j - 1].0));
                text::before_transitive(k, e[0].0, e[j - 1].0);
            }
        }
    } else {
        text::before_total(e[0].0, k);
        let rest = e.skip(1);
        assert(ascending(rest)) by {
            assert forall|i: int, j: int| 0 <= i < j < rest.len() implies #[trigger] text::before(
                rest[i].0,
                rest[j].0,
            ) by {
                assert(text::before(e[i + 1].0, e[j + 1].0));
            }
        }
        put_keeps_ascending(rest, k, v);
        put_keys(rest, k, v);
        let q = put(rest, k, v);
        assert forall|i: int, j: int| 0 <= i < j < p.len() implies #[trigger] text::before(
            p[i].0,
            p[j].0,
        ) by {
            assert(p[j] == q[j - 1]);
            if i > 0 {
                assert(p[i] == q[i - 1]);
                assert(text::before(q[i - 1].0, q[j - 1].0));
            } else if q[j - 1].0 != k {
                let m = choose|m: int| 0 <= m < rest.len() && (#[trigger] rest[m]).0 == q[j - 1].0;
                assert(text::before(e[0].0, e[m + 1].0));
            }
        }
    }
}

/// Removing a key leaves the others, in order.
pub proof fn without_keeps_ascending<T>(e: Seq<(Seq<char>, T)>, k: Seq<char>)
    requires
        ascending(e),
    ensures
        ascending(without(e, k)),
        forall|i: int|
            0 <= i < without(e, k).len() ==> exists|j: int|
                0 <= j < e.len() && #[trigger] e[j] == #[trigger] without(e, k)[i],
    decreases e.len(),
{
    let p = without(e, k);
    if e.len() == 0 {
    } else if e[0].0 == k {
        assert forall|i: int, j: int| 0 <= i < j < p.len() implies #[trigger] text::before(
            p[i].0,
            p[j].0,
        ) by {
            assert(text::before(e[i + 1].0, e[j + 1].0));
        }
        assert forall|i: int| 0 <= i < p.len() implies exists|j: int|
            0 <= j < e.len() && #[trigger] e[j] == #[trigger] p[i] by {
            assert(e[i + 1] == p[i]);
        }
    } else {
        let rest = e.skip(1);
        assert(ascending(rest)) by {
            assert forall|i: int, j: int| 0 <= i < j < rest.len() implies #[trigger] text::before(
                rest[i].0,
                rest[j].0,
            ) by {
                assert(text::before(e[i + 1].0, e[j + 1].0));
            }
        }
        without_keeps_ascending(rest, k);
        let q = without(rest, k);
        assert forall|i: int| 0 <= i < p.len() implies exists|j: int|
            0 <= j < e.len() && #[trigger] e[j] == #[trigger] p[i] by {
            if i == 0 {
                assert(e[0] == p[0]);
            } else {
                assert(p[i] == q[i - 1]);
                let m = choose|m: int| 0 <= m < rest.len() && #[trigger] rest[m] == q[i - 1];
                assert(e[m + 1] == p[i]);
            }
        }
        assert forall|i: int, j: int| 0 <= i < j < p.len() implies #[trigger] text::before(
            p[i].0,
            p[j].0,
        ) by {
            assert(p[j] == q[j - 1]);
            if i > 0 {
                assert(p[i] == q[i - 1]);
                assert(text::before(q[i - 1].0, q[j - 1].0));
            } else {
                let m = choose|m: int| 0 <= m < rest.len() && #[trigger] rest[m] == q[j - 1];
                assert(text::before(e[0].0, e[m + 1].0));
            }
        }
    }
}

// ---------------------------------------------------------------------------
// Dictionaries
// ---------------------------------------------------------------------------

/// The views of a list of keyed values.
pub open spec fn entry_views<V: View>(s: Seq<(String, V)>) -> Seq<(Seq<char>, V::V)> {
    Seq::new(s.len(), |i: int| (s[i].0@, s[i].1@))
}

/// A dictionary from text to values, in ascending order of its keys.
#[derive(Debug)]
pub struct Dict<V> {
    entries: Vec<(String, V)>,
}

impl<V: View> View for Dict<V> {
    type V = Seq<(Seq<char>, V::V)>;

    closed spec fn view(&self) -> Seq<(Seq<char>, V::V)> {
        entry_views(self.entries@)
    }
}

spec fn key_views<V>(s: Seq<(String, V)>) -> Seq<(Seq<char>, ())> {
    Seq::new(s.len(), |i: int| (s[i].0@, ()))
}

impl<V> Dict<V> {
    #[verifier::type_invariant]
    spec fn well_formed(self) -> bool {
        ascending(key_views(self.entries@))
    }
}

proof fn key_order<V: View>(s: Seq<(String, V)>)
    ensures
        ascending(key_views(s)) == ascending(entry_views(s)),
{
    if ascending(key_views(s)) {
        assert forall|i: int, j: int| 0 <= i < j < s.len() implies #[trigger] text::before(
            entry_views(s)[i].0,
            entry_views(s)[j].0,
        ) by {
            assert(text::before(key_views(s)[i].0, key_views(s)[j].0));
        }
    }
    if ascending(entry_views(s)) {
        assert forall|i: int, j: int| 0 <= i < j < s.len() implies #[trigger] text::before(
            key_views(s)[i].0,
            key_views(s)[j].0,
        ) by {
            assert(text::before(entry_views(s)[i].0, entry_views(s)[j].0));
        }
    }
}

impl<V: View> Dict<V> {
    /// An empty dictionary.
    pub fn new() -> (r: Self)
        ensures
            r@ == Seq::<(Seq<char>, V::V)>::empty(),
    {
        let r = Dict { entries: Vec::new() };
        assert(r@ =~= Seq::<(Seq<char>, V::V)>::empty());
        r
    }

    /// The number of keys.
    pub fn len(&self) -> (r: usize)
        ensures
            r == self@.len(),
            ascending(self@),
    {
        proof {
            use_type_invariant(&*self);
            key_order(self.entries@);
        }
        self.entries.len()
    }

    /// The key at position `i`, in ascending order.
    pub fn key_at(&self, i: usize) -> (r: &String)
        requires
            i < self@.len(),
        ensures
            r@ == self@[i as int].0,
    {
        &self.entries[i].0
    }

    /// The value at position `i`, in ascending order of the keys.
    pub fn value_at(&self, i: usize) -> (r: &V)
        requires
            i < self@.len(),
        ensures
            r@ == self@[i as int].1,
    {
        &self.entries[i].1
    }

    /// The value under `k`.
    pub fn get(&self, k: &str) -> (r: Option<&V>)
        ensures
            match r {
                Some(v) => lookup(self@, k@) == Some(v@),
                None => lookup(self@, k@) is None,
            },
    {
        let mut i: usize = 0;
        assert(self@.skip(0) =~= self@);
        while i < self.entries.len()
            invariant
                i <= self.entries@.len(),
                lookup(self@, k@) == lookup(self@.skip(i as int), k@),
            decreases self.entries@.len() - i,
        {
            assert(self@.skip(i as int).skip(1) =~= self@.skip(i + 1));
            if text::same(&self.entries[i].0, k) {
                return Some(&self.entries[i].1);
            }
            i += 1;
        }
        None
    }

    /// Whether there is a value under `k`.
    pub fn contains(&self, k: &str) -> (r: bool)
        ensures
            r == lookup(self@, k@) is Some,
    {
        self.get(k).is_some()
    }

    /// Sets the value under `k`.
    pub fn insert(&mut self, k: String, v: V)
        ensures
            final(self)@ == put(old(self)@, k@, v@),
            ascending(final(self)@),
    {
        proof {
            use_type_invariant(&*self);
            key_order(self.entries@);
            put_keeps_ascending(self@, k@, v@);
        }
        let mut e: Vec<(String, V)> = Vec::new();
        std::mem::swap(&mut e, &mut self.entries);
        let ghost all = entry_views(e@);
        let ghost goal = put(all, k@, v@);
        let ghost kv = k@;
        let ghost vv = v@;
        let mut i: usize = 0;
        assert(all.skip(0) =~= all);
        assert(all.take(0) + put(all, k@, v@) =~= put(all, k@, v@));
        while i < e.len() && !text::same(&e[i].0, &k) && !text::is_before(&k, &e[i].0)
            invariant
                i <= e@.len(),
                all == entry_views(e@),
                goal == all.take(i as int) + put(all.skip(i as int), k@, v@),
            decreases e@.len() - i,
        {
            let ghost rest = all.skip(i as int);
            assert(rest.skip(1) =~= all.skip(i + 1));
            assert(all.take(i + 1) + put(all.skip(i + 1), k@, v@) =~= all.take(i as int) + (seq![
                rest[0],
            ] + put(rest.skip(1), k@, v@)));
            i += 1;
        }
        let ghost rest = all.skip(i as int);
        if i < e.len() && text::same(&e[i].0, &k) {
            e.set(i, (k, v));
            assert(entry_views(e@) =~= all.take(i as int) + (seq![(kv, vv)] + rest.skip(1)));
        } else {
            e.insert(i, (k, v));
            assert(entry_views(e@) =~= all.take(i as int) + (seq![(kv, vv)] + rest));
            assert(rest.len() == 0 ==> seq![(kv, vv)] + rest =~= seq![(kv, vv)]);
        }
        assert(entry_views(e@) == goal);
        proof {
            key_order(e@);
        }
        self.entries = e;
    }

    /// Removes the value under `k`.
    pub fn remove(&mut self, k: &str)
        ensures
            final(self)@ == without(old(self)@, k@),
    {
        proof {
            use_type_invariant(&*self);
            key_order(self.entries@);
            without_keeps_ascending(self@, k@);
        }
        let mut e: Vec<(String, V)> = Vec::new();
        std::mem::swap(&mut e, &mut self.entries);
        let ghost all = entry_views(e@);
        let ghost goal = without(all, k@);
        let mut i: usize = 0;
        assert(all.skip(0) =~= all);
        assert(all.take(0) + without(all, k@) =~= without(all, k@));
        while i < e.len() && !text::same(&e[i].0, k)
            invariant
                i <= e@.len(),
                all == entry_views(e@),
                goal == all.take(i as int) + without(all.skip(i as int), k@),
            decreases e@.len() - i,
        {
            let ghost rest = all.skip(i as int);
            assert(rest.skip(1) =~= all.skip(i + 1));
            assert(all.take(i + 1) + without(all.skip(i + 1), k@) =~= all.take(i as int) + (seq![
                rest[0],
            ] + without(rest.skip(1), k@)));
            i += 1;
        }
        let ghost rest = all.skip(i as int);
        if i < e.len() {
            e.remove(i);
            assert(entry_views(e@) =~= all.take(i as int) + rest.skip(1));
        } else {
            assert(entry_views(e@) =~= all.take(i as int) + rest);
        }
        assert(entry_views(e@) == goal);
        proof {
            key_order(e@);
        }
        self.entries = e;
    }
}

/// Sets every pair of a list, in order.
pub fn insert_all(d: &mut Dict<String>, pairs: &Vec<(String, String)>)
    ensures
        final(d)@ == put_all(old(d)@, text::pair_views(pairs@)),
{
    let ghost all = text::pair_views(pairs@);
    let ghost start = d@;
    let mut i: usize = 0;
    assert(all.take(0) =~= Seq::<(Seq<char>, Seq<char>)>::empty());
    while i < pairs.len()
        invariant
            all == text::pair_views(pairs@),
            i <= pairs@.len(),
            d@ == put_all(start, all.take(i as int)),
        decreases pairs@.len() - i,
    {
        assert(all.take(i + 1).drop_last() =~= all.take(i as int));
        d.insert(pairs[i].0.clone(), pairs[i].1.clone());
        i += 1;
    }
    assert(all.take(i as int) =~= all);
}

impl<V: View + Clone> Dict<V> {
    /// A copy with the same keys and values.
    pub fn duplicate(&self) -> (r: Self)
        requires
            forall|a: V, b: V| #[trigger] cloned(a, b) ==> a@ == b@,
        ensures
            r@ == self@,
    {
        proof {
            use_type_invariant(&*self);
        }
        let mut e: Vec<(String, V)> = Vec::new();
        let mut i: usize = 0;
        while i < self.entries.len()
            invariant
                i <= self.entries@.len(),
                e@.len() == i,
                forall|a: V, b: V| #[trigger] cloned(a, b) ==> a@ == b@,
                forall|j: int|
                    0 <= j < i ==> (#[trigger] e@[j]).0@ == self.entries@[j].0@ && e@[j].1@
                        == self.entries@[j].1@,
            decreases self.entries@.len() - i,
        {
            let k = self.entries[i].0.clone();
            let v = self.entries[i].1.clone();
            assert(cloned(self.entries@[i as int].1, v));
            e.push((k, v));
            i += 1;
        }
        assert(key_views(e@) =~= key_views(self.entries@));
        assert(entry_views(e@) =~= entry_views(self.entries@));
        Dict { entries: e }
    }
}

// ---------------------------------------------------------------------------
// Sets
// ---------------------------------------------------------------------------

/// The texts with `x` among them: at its place in ascending order, where it was missing.
pub open spec fn with_member(s: Seq<Seq<char>>, x: Seq<char>) -> Seq<Seq<char>>
    decreases s.len(),
{
    if s.len() == 0 {
        seq![x]
    } else if s[0] == x {
        s
    } else if text::before(x, s[0]) {
        seq![x] + s
    } else {
        seq![s[0]] + with_member(s.skip(1), x)
    }
}

/// Adding a member keeps what is there, and brings the new one.
pub proof fn members_are_added(s: Seq<Seq<char>>, x: Seq<char>, y: Seq<char>)
    ensures
        with_member(s, x).contains(y) <==> y == x || s.contains(y),
    decreases s.len(),
{
    let r = with_member(s, x);
    if s.len() > 0 {
        let rest = with_member(s.skip(1), x);
        members_are_added(s.skip(1), x, y);
        if s.contains(y) {
            let i = choose|i: int| 0 <= i < s.len() && s[i] == y;
            if i > 0 {
                assert(s.skip(1)[i - 1] == y);
            }
        }
        assert(s[0] == s.first());
        if s.skip(1).contains(y) {
            let i = choose|i: int| 0 <= i < s.skip(1).len() && s.skip(1)[i] == y;
            assert(s[i + 1] == y);
        }
        if r == seq![s[0]] + rest {
            if rest.contains(y) {
                let i = choose|i: int| 0 <= i < rest.len() && rest[i] == y;
                assert(r[i + 1] == y);
            }
            assert(r[0] == s[0]);
            if r.contains(y) {
                let i = choose|i: int| 0 <= i < r.len() && r[i] == y;
                if i > 0 {
                    assert(rest[i - 1] == y);
                }
            }
        } else if r == seq![x] + s {
            assert(r[0] == x);
            if s.contains(y) {
                let i = choose|i: int| 0 <= i < s.len() && s[i] == y;
                assert(r[i + 1] == y);
            }
            if r.contains(y) {
                let i = choose|i: int| 0 <= i < r.len() && r[i] == y;
                if i > 0 {
                    assert(s[i - 1] == y);
                }
            }
        }
    } else {
        assert(r[0] == x);
    }
}

/// Adds `x` to an ascending list of texts, where it is missing.
pub fn add_member(v: &mut Vec<String>, x: String)
    ensures
        text::views(final(v)@) == with_member(text::views(old(v)@), x@),
{
    let ghost all = text::views(v@);
    let ghost goal = with_member(all, x@);
    let ghost xv = x@;
    let mut i: usize = 0;
    assert(all.skip(0) =~= all);
    assert(all.take(0) + with_member(all, x@) =~= with_member(all, x@));
    while i < v.len() && !text::same(&v[i], &x) && !text::is_before(&x, &v[i])
        invariant
            i <= v@.len(),
            all == text::views(v@),
            goal == all.take(i as int) + with_member(all.skip(i as int), x@),
        decreases v@.len() - i,
    {
        let ghost rest = all.skip(i as int);
        assert(rest.skip(1) =~= all.skip(i + 1));
        assert(all.take(i + 1) + with_member(all.skip(i + 1), x@) =~= all.take(i as int) + (seq![
            rest[0],
        ] + with_member(rest.skip(1), x@)));
        i += 1;
    }
    let ghost rest = all.skip(i as int);
    if i < v.len() && text::same(&v[i], &x) {
        assert(text::views(v@) =~= all.take(i as int) + rest);
    } else {
        v.insert(i, x);
        assert(text::views(v@) =~= all.take(i as int) + (seq![xv] + rest));
        assert(rest.len() == 0 ==> seq![xv] + rest =~= seq![xv]);
    }
    assert(text::views(v@) == goal);
}

} // verus!
