//! Maps and sets keyed by name, kept in name order.

use crate::text;
use vstd::prelude::*;

verus! {

/// Strictly ascending in the order of names.
pub open spec fn ascending(keys: Seq<Seq<char>>) -> bool {
    forall|i: int, j: int|
        0 <= i < j < keys.len() ==> text::lt(#[trigger] keys[i], #[trigger] keys[j])
}

/// The names in `s`, ascending: the one ascending sequence that holds exactly
/// these.
pub open spec fn sorted(s: Set<Seq<char>>) -> Seq<Seq<char>> {
    choose|keys: Seq<Seq<char>>| ascending(keys) && keys.to_set() == s
}

/// The values of `m`, in the order of their names.
pub open spec fn in_order<T>(m: Map<Seq<char>, T>) -> Seq<T> {
    Seq::new(sorted(m.dom()).len(), |i: int| m[sorted(m.dom())[i]])
}

/// An ascending sequence of names is determined by the names in it.
pub proof fn ascending_unique(a: Seq<Seq<char>>, b: Seq<Seq<char>>)
    requires
        ascending(a),
        ascending(b),
        a.to_set() == b.to_set(),
    ensures
        a == b,
    decreases a.len(),
{
    if a.len() == 0 {
        if b.len() > 0 {
            assert(b.to_set().contains(b[0]));
            assert(a.to_set().contains(b[0]));
        }
        assert(a =~= b);
    } else {
        assert(a.to_set().contains(a.last()));
        assert(b.to_set().contains(a.last()));
        assert(b.len() > 0);
        assert(b.to_set().contains(b.last()));
        assert(a.to_set().contains(b.last()));
        let i = choose|i: int| 0 <= i < b.len() && b[i] == a.last();
        let j = choose|j: int| 0 <= j < a.len() && a[j] == b.last();
        if i < b.len() - 1 {
            assert(text::lt(b[i], b[b.len() - 1]));
            if j < a.len() - 1 {
                assert(text::lt(a[j], a[a.len() - 1]));
                text::lt_asymmetric(a.last(), b.last());
            } else {
                text::lt_irreflexive(a.last());
            }
        }
        assert(a.last() == b.last());
        let x = a.drop_last();
        let y = b.drop_last();
        assert forall|k: Seq<char>| x.to_set().contains(k) == y.to_set().contains(k) by {
            if x.to_set().contains(k) {
                let p = choose|p: int| 0 <= p < x.len() && x[p] == k;
                assert(text::lt(a[p], a[a.len() - 1]));
                text::lt_asymmetric(k, a.last());
                assert(a.to_set().contains(a[p]));
                assert(b.to_set().contains(k));
                let q = choose|q: int| 0 <= q < b.len() && b[q] == k;
                assert(y[q] == k);
            }
            if y.to_set().contains(k) {
                let p = choose|p: int| 0 <= p < y.len() && y[p] == k;
                assert(text::lt(b[p], b[b.len() - 1]));
                text::lt_asymmetric(k, b.last());
                assert(b.to_set().contains(b[p]));
                assert(a.to_set().contains(k));
                let q = choose|q: int| 0 <= q < a.len() && a[q] == k;
                assert(x[q] == k);
            }
        }
        assert(x.to_set() =~= y.to_set());
        ascending_unique(x, y);
        assert(a =~= x.push(a.last()));
        assert(b =~= y.push(b.last()));
    }
}

/// An ascending sequence is what `sorted` gives of the names in it.
pub proof fn ascending_is_sorted(a: Seq<Seq<char>>)
    requires
        ascending(a),
    ensures
        sorted(a.to_set()) == a,
{
    ascending_unique(sorted(a.to_set()), a);
}

/// The ascending sequence with one more name in its place.
spec fn with_name(keys: Seq<Seq<char>>, name: Seq<char>) -> Seq<Seq<char>>
    decreases keys.len(),
{
    if keys.len() == 0 || text::lt(keys.last(), name) {
        keys.push(name)
    } else {
        with_name(keys.drop_last(), name).push(keys.last())
    }
}

proof fn with_name_ascends(keys: Seq<Seq<char>>, name: Seq<char>)
    requires
        ascending(keys),
        !keys.contains(name),
    ensures
        ascending(with_name(keys, name)),
        with_name(keys, name).to_set() == keys.to_set().insert(name),
    decreases keys.len(),
{
    let r = with_name(keys, name);
    if keys.len() == 0 || text::lt(keys.last(), name) {
        assert forall|i: int, j: int| 0 <= i < j < r.len() implies text::lt(
            #[trigger] r[i],
            #[trigger] r[j],
        ) by {
            if j == keys.len() && i < keys.len() - 1 {
                assert(text::lt(keys[i], keys[keys.len() - 1]));
                text::lt_transitive(keys[i], keys.last(), name);
            }
        }
        assert forall|x: Seq<char>| r.to_set().contains(x) == keys.to_set().insert(
            name,
        ).contains(x) by {
            if keys.contains(x) {
                assert(r[keys.index_of(x)] == x);
            }
            assert(r[keys.len() as int] == name);
            if r.contains(x) && x != name {
                assert(keys[r.index_of(x)] == x);
            }
        }
    } else {
        let front = keys.drop_last();
        let last = keys.last();
        let inner = with_name(front, name);
        assert forall|i: int| 0 <= i < front.len() implies #[trigger] front[i] != name by {
            assert(keys[i] == front[i]);
        }
        with_name_ascends(front, name);
        assert(keys[keys.len() - 1] == last);
        text::lt_total(last, name);
        assert forall|i: int| 0 <= i < inner.len() implies text::lt(#[trigger] inner[i], last) by {
            assert(inner.to_set().contains(inner[i]));
            if inner[i] != name {
                assert(front.to_set().contains(inner[i]));
                let p = front.index_of(inner[i]);
                assert(text::lt(keys[p], keys[keys.len() - 1]));
            }
        }
        assert forall|i: int, j: int| 0 <= i < j < r.len() implies text::lt(
            #[trigger] r[i],
            #[trigger] r[j],
        ) by {
            if j < inner.len() {
                assert(text::lt(inner[i], inner[j]));
            }
        }
        assert forall|x: Seq<char>| r.to_set().contains(x) == keys.to_set().insert(
            name,
        ).contains(x) by {
            assert(r[inner.len() as int] == last);
            if keys.contains(x) && x != last {
                let p = keys.index_of(x);
                assert(front[p] == x);
                assert(inner.to_set().contains(x));
                assert(r[inner.index_of(x)] == x);
            }
            if x == name {
                assert(inner.to_set().contains(x));
                assert(r[inner.index_of(x)] == x);
            }
            if r.contains(x) && x != last {
                assert(inner[r.index_of(x)] == x);
                assert(inner.to_set().contains(x));
                if x != name {
                    assert(front.to_set().contains(x));
                    assert(keys[front.index_of(x)] == x);
                }
            }
        }
    }
    assert(r.to_set() =~= keys.to_set().insert(name));
}

/// Any finitely many names stand in one ascending sequence.
pub proof fn sorted_holds(s: Set<Seq<char>>)
    requires
        s.finite(),
    ensures
        ascending(sorted(s)),
        sorted(s).to_set() == s,
    decreases s.len(),
{
    if s.len() == 0 {
        let none = Seq::<Seq<char>>::empty();
        assert(none.to_set() =~= s);
        assert(ascending(none));
    } else {
        let name = s.choose();
        let rest = s.remove(name);
        sorted_holds(rest);
        let keys = sorted(rest);
        assert(!keys.to_set().contains(name));
        with_name_ascends(keys, name);
        assert(with_name(keys, name).to_set() =~= s);
    }
}

/// A value that can be duplicated without changing what it stands for.
pub trait Dup: DeepView + Sized {
    fn dup(&self) -> (r: Self)
        ensures
            r.deep_view() == self.deep_view(),
    ;
}

impl Dup for () {
    fn dup(&self) -> (r: Self) {
    }
}

impl Dup for String {
    fn dup(&self) -> (r: Self) {
        self.clone()
    }
}

impl<T: Dup> Dup for Option<T> {
    fn dup(&self) -> (r: Self) {
        match self {
            Some(x) => Some(x.dup()),
            None => None,
        }
    }
}

impl<T: Dup> Dup for Vec<T> {
    fn dup(&self) -> (r: Self) {
        let mut r: Vec<T> = Vec::new();
        let mut i: usize = 0;
        while i < self.len()
            invariant
                i <= self.len(),
                r.len() == i,
                forall|j: int| 0 <= j < i ==> (#[trigger] r[j]).deep_view() == self[j].deep_view(),
            decreases self.len() - i,
        {
            r.push(self[i].dup());
            i = i + 1;
        }
        assert(r.deep_view() =~= self.deep_view());
        r
    }
}

/// The names of a list of entries.
spec fn entry_keys<V: DeepView>(entries: Seq<(String, V)>) -> Seq<Seq<char>> {
    Seq::new(entries.len(), |i: int| entries[i].0@)
}

/// What a list of entries maps each of its names to.
spec fn entry_map<V: DeepView>(entries: Seq<(String, V)>) -> Map<Seq<char>, V::V> {
    Map::new(
        |k: Seq<char>| entry_keys(entries).contains(k),
        |k: Seq<char>| entries[entry_keys(entries).index_of(k)].1.deep_view(),
    )
}

proof fn ascending_distinct(keys: Seq<Seq<char>>, i: int, j: int)
    requires
        ascending(keys),
        0 <= i < keys.len(),
        0 <= j < keys.len(),
        keys[i] == keys[j],
    ensures
        i == j,
{
    text::lt_irreflexive(keys[i]);
}

proof fn entry_lookup<V: DeepView>(entries: Seq<(String, V)>, i: int)
    requires
        ascending(entry_keys(entries)),
        0 <= i < entries.len(),
    ensures
        entry_map(entries).contains_key(entries[i].0@),
        entry_map(entries)[entries[i].0@] == entries[i].1.deep_view(),
{
    let keys = entry_keys(entries);
    assert(keys[i] == entries[i].0@);
    assert(keys.contains(entries[i].0@));
    let j = keys.index_of(entries[i].0@);
    ascending_distinct(keys, i, j);
}

proof fn entry_order<V: DeepView>(entries: Seq<(String, V)>)
    requires
        ascending(entry_keys(entries)),
    ensures
        sorted(entry_map(entries).dom()) == entry_keys(entries),
        entry_keys(entries).to_set() == entry_map(entries).dom(),
        entry_map(entries).dom().finite(),
{
    let keys = entry_keys(entries);
    assert(keys.to_set() =~= entry_map(entries).dom());
    ascending_is_sorted(keys);
    vstd::seq_lib::seq_to_set_is_finite(keys);
}

/// Where `key` stands among the entries, or where it would.
fn locate<V: DeepView>(entries: &Vec<(String, V)>, key: &str) -> (r: usize)
    requires
        ascending(entry_keys(entries@)),
    ensures
        r <= entries.len(),
        forall|j: int| 0 <= j < r ==> text::lt(#[trigger] entries[j].0@, key@),
        forall|j: int| r <= j < entries.len() ==> !text::lt(#[trigger] entries[j].0@, key@),
        entry_map(entries@).contains_key(key@) <==> (r < entries.len() && entries[r as int].0@
            == key@),
{
    let mut i: usize = 0;
    while i < entries.len() && text::less(entries[i].0.as_str(), key)
        invariant
            i <= entries.len(),
            forall|j: int| 0 <= j < i ==> text::lt(#[trigger] entries[j].0@, key@),
        decreases entries.len() - i,
    {
        i = i + 1;
    }
    proof {
        let keys = entry_keys(entries@);
        assert forall|j: int| i <= j < entries.len() implies !text::lt(
            #[trigger] entries[j].0@,
            key@,
        ) by {
            if text::lt(entries[j].0@, key@) && i < j {
                assert(text::lt(keys[i as int], keys[j]));
                text::lt_transitive(entries[i as int].0@, entries[j].0@, key@);
            }
        }
        if keys.contains(key@) {
            let p = choose|p: int| 0 <= p < keys.len() && keys[p] == key@;
            assert(entries[p].0@ == key@);
            text::lt_irreflexive(key@);
            assert(i <= p);
            if i < p {
                assert(text::lt(keys[i as int], keys[p]));
            }
        }
        if i < entries.len() && entries[i as int].0@ == key@ {
            assert(keys[i as int] == key@);
        }
    }
    i
}

/// A map from names to values.
#[derive(Debug)]
pub struct NameMap<V: DeepView> {
    entries: Vec<(String, V)>,
}

impl<V: DeepView> View for NameMap<V> {
    type V = Map<Seq<char>, V::V>;

    closed spec fn view(&self) -> Map<Seq<char>, V::V> {
        entry_map(self.entries@)
    }
}

impl<V: DeepView> DeepView for NameMap<V> {
    type V = Map<Seq<char>, V::V>;

    open spec fn deep_view(&self) -> Map<Seq<char>, V::V> {
        self@
    }
}

impl<V: DeepView> NameMap<V> {
    #[verifier::type_invariant]
    closed spec fn kept_in_order(self) -> bool {
        ascending(entry_keys(self.entries@))
    }

    /// The names, ascending.
    pub open spec fn keys(self) -> Seq<Seq<char>> {
        sorted(self@.dom())
    }

    /// The empty map.
    pub fn new() -> (r: Self)
        ensures
            r@ == Map::<Seq<char>, V::V>::empty(),
    {
        let r = NameMap { entries: Vec::new() };
        assert(r@ =~= Map::<Seq<char>, V::V>::empty());
        r
    }

    /// How many names there are.
    pub fn len(&self) -> (n: usize)
        ensures
            n == self.keys().len(),
            n == self@.dom().len(),
            self@.dom().finite(),
            ascending(self.keys()),
            self.keys().to_set() == self@.dom(),
    {
        proof {
            use_type_invariant(self);
            entry_order(self.entries@);
            let keys = entry_keys(self.entries@);
            assert(keys.no_duplicates()) by {
                assert forall|i: int, j: int|
                    0 <= i < keys.len() && 0 <= j < keys.len() && i != j implies keys[i]
                    != keys[j] by {
                    if keys[i] == keys[j] {
                        ascending_distinct(keys, i, j);
                    }
                }
            }
            keys.unique_seq_to_set();
        }
        self.entries.len()
    }

    pub fn is_empty(&self) -> (b: bool)
        ensures
            b == (self@ == Map::<Seq<char>, V::V>::empty()),
    {
        proof {
            if self.entries.len() > 0 {
                assert(entry_keys(self.entries@)[0] == self.entries[0].0@);
                assert(self@.contains_key(self.entries[0].0@));
            } else {
                assert(self@ =~= Map::<Seq<char>, V::V>::empty());
            }
        }
        self.entries.len() == 0
    }

    /// The `i`-th name, ascending.
    pub fn key_at(&self, i: usize) -> (k: &String)
        requires
            i < self.keys().len(),
        ensures
            k@ == self.keys()[i as int],
            self@.contains_key(k@),
    {
        proof {
            use_type_invariant(self);
            entry_order(self.entries@);
            entry_lookup(self.entries@, i as int);
        }
        &self.entries[i].0
    }

    /// The value of the `i`-th name.
    pub fn value_at(&self, i: usize) -> (v: &V)
        requires
            i < self.keys().len(),
        ensures
            v.deep_view() == self@[self.keys()[i as int]],
            v.deep_view() == in_order(self@)[i as int],
    {
        proof {
            use_type_invariant(self);
            entry_order(self.entries@);
            entry_lookup(self.entries@, i as int);
        }
        &self.entries[i].1
    }

    /// The value of `key`.
    pub fn get(&self, key: &str) -> (r: Option<&V>)
        ensures
            r is Some <==> self@.contains_key(key@),
            r matches Some(v) ==> v.deep_view() == self@[key@],
    {
        proof {
            use_type_invariant(self);
        }
        let i: usize = locate(&self.entries, key);
        if i < self.entries.len() && text::same(self.entries[i].0.as_str(), key) {
            proof {
                entry_lookup(self.entries@, i as int);
            }
            Some(&self.entries[i].1)
        } else {
            None
        }
    }

    pub fn contains_key(&self, key: &str) -> (b: bool)
        ensures
            b == self@.contains_key(key@),
    {
        self.get(key).is_some()
    }

    /// Maps `key` to `value`, whatever it was mapped to before.
    pub fn insert(&mut self, key: String, value: V)
        ensures
            final(self)@ == old(self)@.insert(key@, value.deep_view()),
    {
        proof {
            use_type_invariant(&*self);
        }
        let ghost before = self.entries@;
        let ghost k = key@;
        let ghost v = value.deep_view();
        let mut entries: Vec<(String, V)> = Vec::new();
        std::mem::swap(&mut entries, &mut self.entries);
        let i: usize = locate(&entries, key.as_str());
        if i < entries.len() && text::same(entries[i].0.as_str(), key.as_str()) {
            entries.set(i, (key, value));
            proof {
                assert(entry_keys(entries@) =~= entry_keys(before));
                assert forall|q: Seq<char>| entry_map(entries@).contains_key(q) implies
                    entry_map(entries@)[q] == entry_map(before).insert(k, v)[q] by {
                    let p = entry_keys(entries@).index_of(q);
                    entry_lookup(entries@, p);
                    entry_lookup(before, p);
                    if q == k {
                        ascending_distinct(entry_keys(entries@), p, i as int);
                    }
                }
                assert(entry_keys(entries@).contains(k));
                assert(entry_map(entries@) =~= entry_map(before).insert(k, v));
            }
        } else {
            entries.insert(i, (key, value));
            proof {
                let keys = entry_keys(entries@);
                let olds = entry_keys(before);
                assert(keys =~= olds.insert(i as int, k));
                assert forall|p: int, q: int| 0 <= p < q < keys.len() implies text::lt(
                    #[trigger] keys[p],
                    #[trigger] keys[q],
                ) by {
                    let a = if p < i { p } else { p - 1 };
                    let b = if q < i { q } else { q - 1 };
                    if p == i {
                        assert(!text::lt(before[b].0@, k));
                        text::lt_total(before[b].0@, k);
                        assert(olds[b] == before[b].0@);
                        if olds[b] == k {
                            assert(olds.contains(k));
                        }
                    } else if q == i {
                        assert(text::lt(before[a].0@, k));
                    } else {
                        assert(text::lt(olds[a], olds[b]));
                    }
                }
                assert(ascending(keys));
                assert forall|q: Seq<char>| keys.contains(q) == (olds.contains(q) || q == k) by {
                    if olds.contains(q) {
                        let p = olds.index_of(q);
                        assert(keys[if p < i { p } else { p + 1 }] == q);
                    }
                    assert(keys[i as int] == k);
                    if keys.contains(q) && q != k {
                        let p = keys.index_of(q);
                        assert(olds[if p < i { p } else { p - 1 }] == q);
                    }
                }
                assert forall|q: Seq<char>| entry_map(entries@).contains_key(q) implies
                    entry_map(entries@)[q] == entry_map(before).insert(k, v)[q] by {
                    let p = keys.index_of(q);
                    entry_lookup(entries@, p);
                    if p == i {
                    } else {
                        let o = if p < i { p } else { p - 1 };
                        entry_lookup(before, o);
                        assert(before[o] == entries@[p]);
                        if q == k {
                            ascending_distinct(keys, p, i as int);
                        }
                    }
                }
                assert(entry_map(entries@) =~= entry_map(before).insert(k, v));
            }
        }
        self.entries = entries;
    }

    /// Forgets `key`, and gives back what it was mapped to.
    pub fn remove(&mut self, key: &str) -> (r: Option<V>)
        ensures
            final(self)@ == old(self)@.remove(key@),
            r is Some <==> old(self)@.contains_key(key@),
            r matches Some(v) ==> v.deep_view() == old(self)@[key@],
    {
        proof {
            use_type_invariant(&*self);
        }
        let ghost before = self.entries@;
        let mut entries: Vec<(String, V)> = Vec::new();
        std::mem::swap(&mut entries, &mut self.entries);
        let i: usize = locate(&entries, key);
        if i < entries.len() && text::same(entries[i].0.as_str(), key) {
            let (_, v) = entries.remove(i);
            proof {
                entry_lookup(before, i as int);
                let keys = entry_keys(entries@);
                let olds = entry_keys(before);
                assert(keys =~= olds.remove(i as int));
                assert forall|p: int, q: int| 0 <= p < q < keys.len() implies text::lt(
                    #[trigger] keys[p],
                    #[trigger] keys[q],
                ) by {
                    let a = if p < i { p } else { p + 1 };
                    let b = if q < i { q } else { q + 1 };
                    assert(text::lt(olds[a], olds[b]));
                }
                assert(ascending(keys));
                assert forall|q: Seq<char>| keys.contains(q) == (olds.contains(q) && q != key@) by {
                    if olds.contains(q) && q != key@ {
                        let p = olds.index_of(q);
                        assert(keys[if p < i { p } else { p - 1 }] == q);
                    }
                    if keys.contains(q) {
                        let p = keys.index_of(q);
                        let o = if p < i { p } else { p + 1 };
                        assert(olds[o] == q);
                        if q == key@ {
                            ascending_distinct(olds, o, i as int);
                        }
                    }
                }
                assert forall|q: Seq<char>| entry_map(entries@).contains_key(q) implies
                    entry_map(entries@)[q] == entry_map(before)[q] by {
                    let p = keys.index_of(q);
                    let o = if p < i { p } else { p + 1 };
                    entry_lookup(entries@, p);
                    entry_lookup(before, o);
                    assert(before[o] == entries@[p]);
                }
                assert(entry_map(entries@) =~= entry_map(before).remove(key@));
            }
            self.entries = entries;
            Some(v)
        } else {
            assert(entry_map(before) =~= entry_map(before).remove(key@));
            self.entries = entries;
            None
        }
    }
}

impl<V: Dup> Dup for NameMap<V> {
    fn dup(&self) -> (r: Self) {
        let mut r: NameMap<V> = NameMap::new();
        let n: usize = self.len();
        let mut i: usize = 0;
        while i < n
            invariant
                i <= n,
                n == self.keys().len(),
                ascending(self.keys()),
                self.keys().to_set() == self@.dom(),
                forall|k: Seq<char>| #[trigger]
                    r@.contains_key(k) <==> self.keys().take(i as int).contains(k),
                forall|k: Seq<char>| #[trigger] r@.contains_key(k) ==> r@[k] == self@[k],
            decreases n - i,
        {
            let key: String = self.key_at(i).clone();
            let value: V = self.value_at(i).dup();
            r.insert(key, value);
            proof {
                let keys = self.keys();
                assert(keys.take(i + 1) =~= keys.take(i as int).push(keys[i as int]));
                assert forall|k: Seq<char>| #[trigger]
                    r@.contains_key(k) <==> keys.take(i + 1).contains(k) by {
                    if keys.take(i as int).contains(k) {
                        let p = keys.take(i as int).index_of(k);
                        assert(keys.take(i + 1)[p] == k);
                    }
                    assert(keys.take(i + 1)[i as int] == keys[i as int]);
                    if keys.take(i + 1).contains(k) && k != keys[i as int] {
                        let p = keys.take(i + 1).index_of(k);
                        assert(keys.take(i as int)[p] == k);
                    }
                }
            }
            i = i + 1;
        }
        proof {
            assert(self.keys().take(n as int) =~= self.keys());
            assert forall|k: Seq<char>| r@.contains_key(k) == self@.contains_key(k) by {
                assert(self.keys().to_set().contains(k) == self@.dom().contains(k));
            }
            assert(r@ =~= self@);
        }
        r
    }
}

impl<V: Dup> NameMap<V> {
    /// Maps every name of `other` to what it is mapped to there.
    pub fn extend(&mut self, other: &NameMap<V>)
        ensures
            final(self)@ == old(self)@.union_prefer_right(other@),
    {
        let n: usize = other.len();
        let ghost before = self@;
        let ghost keys = other.keys();
        let mut i: usize = 0;
        while i < n
            invariant
                i <= n,
                n == keys.len(),
                keys == other.keys(),
                forall|k: Seq<char>| #[trigger]
                    self@.contains_key(k) <==> before.contains_key(k) || keys.take(
                        i as int,
                    ).contains(k),
                forall|k: Seq<char>| #[trigger]
                    self@.contains_key(k) ==> self@[k] == if keys.take(i as int).contains(k) {
                        other@[k]
                    } else {
                        before[k]
                    },
            decreases n - i,
        {
            let ghost was = self@;
            self.insert(other.key_at(i).clone(), other.value_at(i).dup());
            proof {
                assert(keys.take(i + 1) =~= keys.take(i as int).push(keys[i as int]));
                assert forall|k: Seq<char>| #[trigger] keys.take(i + 1).contains(k) == (keys.take(
                    i as int,
                ).contains(k) || k == keys[i as int]) by {
                    if keys.take(i as int).contains(k) {
                        let p = keys.take(i as int).index_of(k);
                        assert(keys.take(i + 1)[p] == k);
                    }
                    assert(keys.take(i + 1)[i as int] == keys[i as int]);
                    if keys.take(i + 1).contains(k) && k != keys[i as int] {
                        let p = keys.take(i + 1).index_of(k);
                        assert(keys.take(i as int)[p] == k);
                    }
                }
                assert forall|k: Seq<char>| #[trigger] self@.contains_key(k) implies (
                before.contains_key(k) || keys.take(i + 1).contains(k)) && self@[k] == if keys.take(
                    i + 1,
                ).contains(k) {
                    other@[k]
                } else {
                    before[k]
                } by {
                    assert(k == keys[i as int] || was.contains_key(k));
                    if k != keys[i as int] {
                        assert(self@[k] == was[k]);
                    } else {
                        assert(keys.take(i + 1).contains(k));
                    }
                }
                assert forall|k: Seq<char>|
                    before.contains_key(k) || keys.take(i + 1).contains(
                        k,
                    ) implies #[trigger] self@.contains_key(k) by {
                    assert(k == keys[i as int] || was.contains_key(k));
                }
            }
            i = i + 1;
        }
        proof {
            assert(keys.take(n as int) =~= keys);
            assert forall|k: Seq<char>| keys.contains(k) == other@.contains_key(k) by {
                assert(keys.to_set().contains(k) == other@.dom().contains(k));
            }
            assert(self@ =~= before.union_prefer_right(other@));
        }
    }
}

impl<V: Dup> Clone for NameMap<V> {
    fn clone(&self) -> (r: Self)
        ensures
            r@ == self@,
    {
        self.dup()
    }
}

impl<V: DeepView> Default for NameMap<V> {
    fn default() -> (r: Self)
        ensures
            r@ == Map::<Seq<char>, V::V>::empty(),
    {
        NameMap::new()
    }
}

/// A set of names.
#[derive(Debug)]
pub struct NameSet {
    members: NameMap<()>,
}

impl View for NameSet {
    type V = Set<Seq<char>>;

    closed spec fn view(&self) -> Set<Seq<char>> {
        self.members@.dom()
    }
}

impl DeepView for NameSet {
    type V = Set<Seq<char>>;

    open spec fn deep_view(&self) -> Set<Seq<char>> {
        self@
    }
}

impl NameSet {
    /// The empty set.
    pub fn new() -> (r: Self)
        ensures
            r@ == Set::<Seq<char>>::empty(),
    {
        let r = NameSet { members: NameMap::new() };
        assert(r@ =~= Set::<Seq<char>>::empty());
        r
    }

    pub fn insert(&mut self, name: String)
        ensures
            final(self)@ == old(self)@.insert(name@),
    {
        let ghost k = name@;
        let ghost was = self.members@;
        self.members.insert(name, ());
        assert(was.insert(k, ()).dom() =~= was.dom().insert(k));
    }

    pub fn contains(&self, name: &str) -> (b: bool)
        ensures
            b == self@.contains(name@),
    {
        self.members.contains_key(name)
    }

    pub fn is_empty(&self) -> (b: bool)
        ensures
            b == (self@ == Set::<Seq<char>>::empty()),
    {
        let b: bool = self.members.is_empty();
        proof {
            if self@ =~= Set::<Seq<char>>::empty() {
                assert(self.members@ =~= Map::<Seq<char>, ()>::empty());
            } else if self.members@ == Map::<Seq<char>, ()>::empty() {
                assert(self@ =~= Set::<Seq<char>>::empty());
            }
        }
        b
    }

    /// How many names there are.
    pub fn len(&self) -> (n: usize)
        ensures
            n == self@.len(),
            self@.finite(),
    {
        self.members.len()
    }

    /// The names, ascending.
    pub fn to_vec(&self) -> (r: Vec<String>)
        ensures
            r.deep_view() == sorted(self@),
            ascending(r.deep_view()),
            r.deep_view().to_set() == self@,
    {
        let n: usize = self.members.len();
        let mut r: Vec<String> = Vec::new();
        let mut i: usize = 0;
        while i < n
            invariant
                i <= n,
                n == self.members.keys().len(),
                r.len() == i,
                forall|j: int| 0 <= j < i ==> (#[trigger] r[j])@ == self.members.keys()[j],
            decreases n - i,
        {
            r.push(self.members.key_at(i).clone());
            i = i + 1;
        }
        assert(r.deep_view() =~= self.members.keys());
        r
    }
}

impl Dup for NameSet {
    fn dup(&self) -> (r: Self) {
        NameSet { members: self.members.dup() }
    }
}

impl Clone for NameSet {
    fn clone(&self) -> (r: Self)
        ensures
            r@ == self@,
    {
        self.dup()
    }
}

impl<V: DeepView> NameMap<V> {
    /// The names that are mapped.
    pub fn key_set(&self) -> (r: NameSet)
        ensures
            r@ == self@.dom(),
    {
        let n: usize = self.len();
        let ghost keys = self.keys();
        let mut r: NameSet = NameSet::new();
        let mut i: usize = 0;
        while i < n
            invariant
                i <= n,
                n == keys.len(),
                keys == self.keys(),
                keys.to_set() == self@.dom(),
                forall|k: Seq<char>| #[trigger] r@.contains(k) ==> self@.contains_key(k),
                forall|j: int| 0 <= j < i ==> r@.contains(#[trigger] keys[j]),
            decreases n - i,
        {
            r.insert(self.key_at(i).clone());
            i = i + 1;
        }
        proof {
            assert forall|k: Seq<char>| self@.dom().contains(k) implies r@.contains(k) by {
                assert(keys.to_set().contains(k));
                let j = keys.index_of(k);
                assert(r@.contains(keys[j]));
            }
            assert(r@ =~= self@.dom());
        }
        r
    }

    /// Forgets every name that is not in `keep`.
    pub fn retain(&mut self, keep: &NameSet)
        ensures
            final(self)@ == old(self)@.restrict(keep@),
    {
        let n: usize = self.len();
        let ghost before = self@;
        let ghost keys = self.keys();
        let mut gone: Vec<String> = Vec::new();
        let mut i: usize = 0;
        while i < n
            invariant
                i <= n,
                n == keys.len(),
                keys == self.keys(),
                self@ == before,
                forall|j: int| 0 <= j < gone.len() ==> !keep@.contains((#[trigger] gone[j])@),
                forall|j: int|
                    0 <= j < i && !keep@.contains(#[trigger] keys[j]) ==> gone.deep_view().contains(
                        keys[j],
                    ),
            decreases n - i,
        {
            let k: &String = self.key_at(i);
            let ghost was = gone.deep_view();
            if !keep.contains(k.as_str()) {
                gone.push(k.clone());
                proof {
                    assert(gone.deep_view() =~= was.push(keys[i as int]));
                    assert forall|j: int|
                        0 <= j < i + 1 && !keep@.contains(
                            #[trigger] keys[j],
                        ) implies gone.deep_view().contains(keys[j]) by {
                        if j < i {
                            let p = was.index_of(keys[j]);
                            assert(gone.deep_view()[p] == keys[j]);
                        } else {
                            assert(gone.deep_view()[was.len() as int] == keys[j]);
                        }
                    }
                }
            }
            i = i + 1;
        }
        let ghost all = gone.deep_view();
        let mut j: usize = 0;
        while j < gone.len()
            invariant
                j <= gone.len(),
                all == gone.deep_view(),
                forall|p: int| 0 <= p < gone.len() ==> !keep@.contains((#[trigger] gone[p])@),
                forall|k: Seq<char>| #[trigger]
                    self@.contains_key(k) ==> before.contains_key(k) && self@[k] == before[k],
                forall|k: Seq<char>|
                    before.contains_key(k) && keep@.contains(k) ==> #[trigger] self@.contains_key(
                        k,
                    ),
                forall|p: int| 0 <= p < j ==> !self@.contains_key(#[trigger] all[p]),
            decreases gone.len() - j,
        {
            assert(all[j as int] == gone[j as int]@);
            let _ = self.remove(gone[j].as_str());
            j = j + 1;
        }
        proof {
            assert forall|k: Seq<char>| self@.contains_key(k) == (before.contains_key(k)
                && keep@.contains(k)) by {
                if self@.contains_key(k) && !keep@.contains(k) {
                    assert(keys.to_set().contains(k));
                    let p = keys.index_of(k);
                    assert(all.contains(keys[p]));
                    let q = all.index_of(k);
                    assert(!self@.contains_key(all[q]));
                }
            }
            assert(self@ =~= before.restrict(keep@));
        }
    }
}

} // verus!
