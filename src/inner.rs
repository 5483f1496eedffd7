use vstd::prelude::*;
use vstd::multiset::Multiset;

use crate::aliasing::{release, Aliased, NoDrop};
use crate::predicate::{decides, keeps, Predicate};
use crate::shallow_copy::ShallowCopy;
use crate::values::{eq_is_equality, Values};
use crate::write::Absorb;

verus! {

/// `clone` on `T` gives back an equal value.
pub open spec fn clone_is_exact<T: Clone>() -> bool {
    forall|a: T, b: T| #[trigger] cloned::<T>(a, b) ==> a == b
}

/// `T` can serve as a key: `==` compares values and `clone` copies them.
pub open spec fn key_model<T: PartialEq + Clone>() -> bool {
    eq_is_equality::<T>() && clone_is_exact::<T>()
}

/// `k` is the key of some entry of `s`.
pub open spec fn has_key<K, V>(s: Seq<(K, Values<V>)>, k: K) -> bool {
    exists|i: int| 0 <= i < s.len() && (#[trigger] s[i]).0 == k
}

/// The position of the entry of `s` with key `k`.
pub open spec fn key_index<K, V>(s: Seq<(K, Values<V>)>, k: K) -> int {
    choose|i: int| 0 <= i < s.len() && (#[trigger] s[i]).0 == k
}

/// No two entries of `s` share a key.
pub open spec fn distinct_keys<K, V>(s: Seq<(K, Values<V>)>) -> bool {
    forall|i: int, j: int| 0 <= i < s.len() && 0 <= j < s.len() && i != j ==> (#[trigger] s[i]).0
        != (#[trigger] s[j]).0
}

/// The map from each key of `s` to the bag stored under it.
pub open spec fn entries_view<K, V>(s: Seq<(K, Values<V>)>) -> Map<K, Multiset<V>> {
    Map::new(|k: K| has_key(s, k), |k: K| s[key_index(s, k)].1@)
}

/// In a table with distinct keys, each entry is what the map holds under its key.
proof fn lemma_lookup<K, V>(s: Seq<(K, Values<V>)>, i: int)
    requires
        distinct_keys(s),
        0 <= i < s.len(),
    ensures
        entries_view(s).contains_key(s[i].0),
        entries_view(s)[s[i].0] == s[i].1@,
        key_index(s, s[i].0) == i,
{
    assert(has_key(s, s[i].0));
    let j = key_index(s, s[i].0);
    assert(s[j].0 == s[i].0);
}

/// Replacing the bag of an entry replaces it in the map.
proof fn lemma_update<K, V>(s: Seq<(K, Values<V>)>, i: int, b: Values<V>)
    requires
        distinct_keys(s),
        0 <= i < s.len(),
    ensures
        distinct_keys(s.update(i, (s[i].0, b))),
        entries_view(s.update(i, (s[i].0, b))) == entries_view(s).insert(s[i].0, b@),
{
    let t = s.update(i, (s[i].0, b));
    assert forall|x: int, y: int| 0 <= x < t.len() && 0 <= y < t.len() && x != y implies (
    #[trigger] t[x]).0 != (#[trigger] t[y]).0 by {
        assert(t[x].0 == s[x].0 && t[y].0 == s[y].0);
    }
    assert forall|k: K| #[trigger] has_key(t, k) == has_key(s, k) by {
        if has_key(s, k) {
            let j = choose|j: int| 0 <= j < s.len() && (#[trigger] s[j]).0 == k;
            assert(t[j].0 == k);
        }
        if has_key(t, k) {
            let j = choose|j: int| 0 <= j < t.len() && (#[trigger] t[j]).0 == k;
            assert(s[j].0 == k);
        }
    }
    assert forall|k: K| has_key(t, k) implies #[trigger] entries_view(t)[k] == entries_view(
        s,
    ).insert(s[i].0, b@)[k] by {
        let j = choose|j: int| 0 <= j < s.len() && (#[trigger] s[j]).0 == k;
        lemma_lookup(s, j);
        assert(t[j].0 == k);
        lemma_lookup(t, j);
    }
    assert(entries_view(t) =~= entries_view(s).insert(s[i].0, b@));
}

/// Removing an entry removes its key from the map.
proof fn lemma_remove<K, V>(s: Seq<(K, Values<V>)>, i: int)
    requires
        distinct_keys(s),
        0 <= i < s.len(),
    ensures
        distinct_keys(s.remove(i)),
        entries_view(s.remove(i)) == entries_view(s).remove(s[i].0),
{
    let t = s.remove(i);
    assert forall|x: int, y: int| 0 <= x < t.len() && 0 <= y < t.len() && x != y implies (
    #[trigger] t[x]).0 != (#[trigger] t[y]).0 by {
        let xs = if x < i {
            x
        } else {
            x + 1
        };
        let ys = if y < i {
            y
        } else {
            y + 1
        };
        assert(t[x] == s[xs] && t[y] == s[ys]);
    }
    assert forall|k: K| #[trigger] has_key(t, k) == (has_key(s, k) && k != s[i].0) by {
        if has_key(s, k) && k != s[i].0 {
            let j = choose|j: int| 0 <= j < s.len() && (#[trigger] s[j]).0 == k;
            if j < i {
                assert(t[j].0 == k);
            } else {
                assert(j != i);
                assert(t[j - 1].0 == k);
            }
        }
        if has_key(t, k) {
            let j = choose|j: int| 0 <= j < t.len() && (#[trigger] t[j]).0 == k;
            let js = if j < i {
                j
            } else {
                j + 1
            };
            assert(s[js].0 == k);
            assert(js != i);
        }
    }
    assert forall|k: K| has_key(t, k) implies #[trigger] entries_view(t)[k] == entries_view(s)[k] by {
        let j = choose|j: int| 0 <= j < t.len() && (#[trigger] t[j]).0 == k;
        lemma_lookup(t, j);
        let js = if j < i {
            j
        } else {
            j + 1
        };
        assert(s[js] == t[j]);
        lemma_lookup(s, js);
    }
    assert(entries_view(t) =~= entries_view(s).remove(s[i].0));
}

/// Appending an entry under a new key adds it to the map.
proof fn lemma_push<K, V>(s: Seq<(K, Values<V>)>, k: K, b: Values<V>)
    requires
        distinct_keys(s),
        !has_key(s, k),
    ensures
        distinct_keys(s.push((k, b))),
        entries_view(s.push((k, b))) == entries_view(s).insert(k, b@),
{
    let t = s.push((k, b));
    assert forall|x: int, y: int| 0 <= x < t.len() && 0 <= y < t.len() && x != y implies (
    #[trigger] t[x]).0 != (#[trigger] t[y]).0 by {
        if x < s.len() && y < s.len() {
            assert(t[x] == s[x] && t[y] == s[y]);
        } else if x < s.len() {
            assert(t[x] == s[x]);
        } else {
            assert(t[y] == s[y]);
        }
    }
    assert forall|q: K| #[trigger] has_key(t, q) == (has_key(s, q) || q == k) by {
        if has_key(s, q) {
            let j = choose|j: int| 0 <= j < s.len() && (#[trigger] s[j]).0 == q;
            assert(t[j].0 == q);
        }
        if q == k {
            assert(t[s.len() as int].0 == q);
        }
        if has_key(t, q) && q != k {
            let j = choose|j: int| 0 <= j < t.len() && (#[trigger] t[j]).0 == q;
            assert(j < s.len());
            assert(s[j].0 == q);
        }
    }
    assert forall|q: K| has_key(t, q) implies #[trigger] entries_view(t)[q] == entries_view(
        s,
    ).insert(k, b@)[q] by {
        let j = choose|j: int| 0 <= j < t.len() && (#[trigger] t[j]).0 == q;
        lemma_lookup(t, j);
        if j < s.len() {
            assert(s[j] == t[j]);
            lemma_lookup(s, j);
        }
    }
    assert(entries_view(t) =~= entries_view(s).insert(k, b@));
}

/// One half of the map: the bags of values by key, the user's meta value and whether the map has
/// been marked ready, with the hasher the map was built with.
pub struct Inner<K, V, M, S> {
    data: Vec<(K, Values<V>)>,
    meta: M,
    ready: bool,
    hasher: S,
}

/// What a reader can observe of one half of the map: the bag under each key, the meta value, and
/// whether the map is ready.
pub type MapState<K, V, M> = (Map<K, Multiset<V>>, M, bool);

impl<K, V, M, S> View for Inner<K, V, M, S> {
    type V = MapState<K, V, M>;

    closed spec fn view(&self) -> MapState<K, V, M> {
        (entries_view(self.data@), self.meta, self.ready)
    }
}

impl<K: PartialEq + Clone, V: PartialEq, M: Clone, S> Inner<K, V, M, S> {
    /// The invariant of a half: keys are distinct, and the key, value and meta types behave as
    /// values.
    pub closed spec fn inv(&self) -> bool {
        &&& distinct_keys(self.data@)
        &&& key_model::<K>()
        &&& eq_is_equality::<V>()
        &&& clone_is_exact::<M>()
    }

    /// An empty half, not ready, with room for `capacity` keys.
    pub fn with_capacity_and_hasher(meta: M, capacity: usize, hasher: S) -> (r: Self)
        requires
            key_model::<K>(),
            eq_is_equality::<V>(),
            clone_is_exact::<M>(),
        ensures
            r.inv(),
            r@ == (Map::<K, Multiset<V>>::empty(), meta, false),
            r.spec_hasher() == hasher,
    {
        let r = Inner { data: Vec::with_capacity(capacity), meta, ready: false, hasher };
        proof {
            assert(entries_view(r.data@) =~= Map::<K, Multiset<V>>::empty());
        }
        r
    }

    /// The position of the entry with key `key`, if there is one.
    fn find(&self, key: &K) -> (r: Option<usize>)
        requires
            self.inv(),
        ensures
            r matches Some(i) ==> i < self.data@.len() && self.data@[i as int].0 == *key,
            r is None ==> !has_key(self.data@, *key),
    {
        let n = self.data.len();
        let mut i: usize = 0;
        while i < n
            invariant
                n == self.data@.len(),
                0 <= i <= n,
                key_model::<K>(),
                forall|j: int| 0 <= j < i ==> (#[trigger] self.data@[j]).0 != *key,
            decreases n - i,
        {
            if self.data[i].0.eq(key) {
                return Some(i);
            }
            i += 1;
        }
        None
    }

    /// The bag under `key`, if the key is present.
    pub fn get(&self, key: &K) -> (r: Option<&Values<V>>)
        requires
            self.inv(),
        ensures
            r is Some == self@.0.contains_key(*key),
            r matches Some(b) ==> b@ == self@.0[*key],
    {
        match self.find(key) {
            Some(i) => {
                proof {
                    lemma_lookup(self.data@, i as int);
                }
                Some(&self.data[i].1)
            },
            None => None,
        }
    }

    /// Whether `key` is present.
    pub fn contains_key(&self, key: &K) -> (r: bool)
        requires
            self.inv(),
        ensures
            r == self@.0.contains_key(*key),
    {
        self.find(key).is_some()
    }

    /// The number of keys.
    pub fn len(&self) -> (r: usize)
        requires
            self.inv(),
        ensures
            r == self@.0.dom().len(),
    {
        proof {
            lemma_key_count(self.data@);
        }
        self.data.len()
    }

    /// The meta value.
    pub fn meta(&self) -> (r: &M)
        ensures
            *r == self@.1,
    {
        &self.meta
    }

    /// The hasher the map was built with.
    pub closed spec fn spec_hasher(&self) -> S {
        self.hasher
    }

    /// The hasher the map was built with.
    pub fn hasher(&self) -> (r: &S)
        ensures
            *r == self.spec_hasher(),
    {
        &self.hasher
    }

    /// Whether the map has been marked ready.
    pub fn is_ready(&self) -> (r: bool)
        ensures
            r == self@.2,
    {
        self.ready
    }
}

/// The bag under `k` in `m`, or an empty bag where `k` is absent.
pub open spec fn bag_or_empty<K, V>(m: Map<K, Multiset<V>>, k: K) -> Multiset<V> {
    if m.contains_key(k) {
        m[k]
    } else {
        Multiset::empty()
    }
}

impl<K: PartialEq + Clone, V: PartialEq, M: Clone, S> Inner<K, V, M, S> {
    /// Takes out the entry at `i`.
    fn take_entry(&mut self, i: usize) -> (r: (K, Values<V>))
        requires
            old(self).inv(),
            i < old(self).data@.len(),
        ensures
            r == old(self).data@[i as int],
            final(self).data@ == old(self).data@.remove(i as int),
            final(self).meta == old(self).meta,
            final(self).ready == old(self).ready,
            final(self).hasher == old(self).hasher,
    {
        self.data.remove(i)
    }

    /// Puts back at `i` an entry taken out of the table `s`, under the same key.
    fn put_entry(&mut self, i: usize, entry: (K, Values<V>), Ghost(s): Ghost<Seq<(K, Values<V>)>>)
        requires
            old(self).data@ == s.remove(i as int),
            i < s.len(),
            entry.0 == s[i as int].0,
            distinct_keys(s),
            key_model::<K>(),
            eq_is_equality::<V>(),
            clone_is_exact::<M>(),
        ensures
            final(self).inv(),
            final(self).hasher == old(self).hasher,
            final(self)@ == (entries_view(s).insert(entry.0, entry.1@), old(self).meta, old(self).ready),
            final(self).data@ == s.update(i as int, entry),
            final(self).meta == old(self).meta,
            final(self).ready == old(self).ready,
            final(self).hasher == old(self).hasher,
    {
        let ghost b = entry.1;
        self.data.insert(i, entry);
        proof {
            assert(self.data@ =~= s.update(i as int, (s[i as int].0, b)));
            lemma_update(s, i as int, b);
        }
    }

    /// Adds one occurrence of a value under `key`, creating the key if needed.
    fn add_value(&mut self, key: K, value: Aliased<V, NoDrop>)
        requires
            old(self).inv(),
        ensures
            final(self).inv(),
            final(self).hasher == old(self).hasher,
            final(self)@ == (old(self)@.0.insert(key, bag_or_empty(old(self)@.0, key).insert(value@)), old(self)@.1, old(self)@.2),
    {
        match self.find(&key) {
            Some(i) => {
                let ghost s = self.data@;
                proof {
                    lemma_lookup(s, i as int);
                }
                let (k, mut bag) = self.take_entry(i);
                bag.push(value);
                self.put_entry(i, (k, bag), Ghost(s));
            },
            None => {
                let mut bag = Values::new();
                bag.push(value);
                proof {
                    lemma_push(self.data@, key, bag);
                }
                self.data.push((key, bag));
            },
        }
    }

    /// Makes the bag under `key` hold exactly `value`, creating the key if needed.
    fn replace_value(&mut self, key: K, value: Aliased<V, NoDrop>)
        requires
            old(self).inv(),
        ensures
            final(self).inv(),
            final(self).hasher == old(self).hasher,
            final(self)@ == (old(self)@.0.insert(key, Multiset::empty().insert(value@)), old(self)@.1, old(self)@.2),
    {
        match self.find(&key) {
            Some(i) => {
                let ghost s = self.data@;
                let (k, mut bag) = self.take_entry(i);
                bag.replace(value);
                self.put_entry(i, (k, bag), Ghost(s));
            },
            None => {
                let mut bag = Values::new();
                bag.push(value);
                proof {
                    lemma_push(self.data@, key, bag);
                }
                self.data.push((key, bag));
            },
        }
    }

    /// Removes one occurrence of `value` from the bag under `key`, if the key is present.
    fn remove_value(&mut self, key: &K, value: &V) -> (r: Option<Aliased<V, NoDrop>>)
        requires
            old(self).inv(),
        ensures
            r matches Some(a) ==> a@ == *value,
            final(self).inv(),
            final(self).hasher == old(self).hasher,
            final(self)@ == (if old(self)@.0.contains_key(*key) {
                old(self)@.0.insert(*key, old(self)@.0[*key].remove(*value))
            } else {
                old(self)@.0
            }, old(self)@.1, old(self)@.2),
    {
        match self.find(key) {
            Some(i) => {
                let ghost s = self.data@;
                proof {
                    lemma_lookup(s, i as int);
                }
                let (k, mut bag) = self.take_entry(i);
                let taken = bag.take_one(value);
                self.put_entry(i, (k, bag), Ghost(s));
                taken
            },
            None => None,
        }
    }

    /// Removes `key` and its bag.
    fn remove_entry(&mut self, key: &K)
        requires
            old(self).inv(),
        ensures
            final(self).inv(),
            final(self).hasher == old(self).hasher,
            final(self)@ == (old(self)@.0.remove(*key), old(self)@.1, old(self)@.2),
    {
        match self.find(key) {
            Some(i) => {
                proof {
                    lemma_remove(self.data@, i as int);
                }
                self.data.remove(i);
            },
            None => {
                proof {
                    assert(old(self)@.0.remove(*key) =~= old(self)@.0);
                }
            },
        }
    }

    /// Empties the bag under `key`, keeping the key.
    fn clear_key(&mut self, key: &K)
        requires
            old(self).inv(),
        ensures
            final(self).inv(),
            final(self).hasher == old(self).hasher,
            final(self)@ == (if old(self)@.0.contains_key(*key) {
                old(self)@.0.insert(*key, Multiset::empty())
            } else {
                old(self)@.0
            }, old(self)@.1, old(self)@.2),
    {
        match self.find(key) {
            Some(i) => {
                let ghost s = self.data@;
                proof {
                    lemma_lookup(s, i as int);
                }
                let (k, mut bag) = self.take_entry(i);
                bag.clear();
                self.put_entry(i, (k, bag), Ghost(s));
            },
            None => {},
        }
    }

    /// Keeps, in the bag under `key`, the values that `predicate` accepts.
    fn retain_key<F: Fn(&V, bool) -> bool>(&mut self, key: &K, predicate: &Predicate<F>, first: bool)
        requires
            old(self).inv(),
            decides::<V, F>(predicate.0),
        ensures
            final(self).inv(),
            final(self).hasher == old(self).hasher,
            final(self)@ == (if old(self)@.0.contains_key(*key) {
                old(self)@.0.insert(*key, old(self)@.0[*key].filter(|v: V| keeps::<V, F>(predicate.0, v)))
            } else {
                old(self)@.0
            }, old(self)@.1, old(self)@.2),
    {
        match self.find(key) {
            Some(i) => {
                let ghost s = self.data@;
                proof {
                    lemma_lookup(s, i as int);
                }
                let (k, mut bag) = self.take_entry(i);
                bag.retain(predicate, first);
                self.put_entry(i, (k, bag), Ghost(s));
            },
            None => {},
        }
    }

    /// Gives back unused room in the bag under `key`.
    fn fit_key(&mut self, key: &K)
        requires
            old(self).inv(),
        ensures
            final(self).inv(),
            final(self).hasher == old(self).hasher,
            final(self)@ == old(self)@,
    {
        match self.find(key) {
            Some(i) => {
                let ghost s = self.data@;
                proof {
                    lemma_lookup(s, i as int);
                }
                let (k, mut bag) = self.take_entry(i);
                bag.fit();
                self.put_entry(i, (k, bag), Ghost(s));
                proof {
                    assert(self@.0 =~= old(self)@.0);
                }
            },
            None => {},
        }
    }

    /// Makes room for `additional` more values under `key`, creating the key with an empty bag
    /// if needed.
    fn reserve_key(&mut self, key: K, additional: usize)
        requires
            old(self).inv(),
        ensures
            final(self).inv(),
            final(self).hasher == old(self).hasher,
            final(self)@ == (old(self)@.0.insert(key, bag_or_empty(old(self)@.0, key)), old(self)@.1, old(self)@.2),
    {
        match self.find(&key) {
            Some(i) => {
                let ghost s = self.data@;
                proof {
                    lemma_lookup(s, i as int);
                }
                let (k, mut bag) = self.take_entry(i);
                bag.reserve(additional);
                self.put_entry(i, (k, bag), Ghost(s));
            },
            None => {
                let bag = Values::with_capacity(additional);
                proof {
                    lemma_push(self.data@, key, bag);
                }
                self.data.push((key, bag));
            },
        }
    }
}

/// Every key of `m` kept, with an empty bag.
pub open spec fn purged<K, V>(m: Map<K, Multiset<V>>) -> Map<K, Multiset<V>> {
    Map::new(|k: K| m.contains_key(k), |k: K| Multiset::<V>::empty())
}

/// Two tables with the same keys and bags in the same places hold the same map.
proof fn lemma_same_entries<K, V>(s: Seq<(K, Values<V>)>, t: Seq<(K, Values<V>)>)
    requires
        distinct_keys(s),
        s.len() == t.len(),
        forall|j: int| 0 <= j < s.len() ==> (#[trigger] t[j]).0 == s[j].0 && t[j].1@ == s[j].1@,
    ensures
        distinct_keys(t),
        entries_view(t) == entries_view(s),
{
    assert forall|x: int, y: int| 0 <= x < t.len() && 0 <= y < t.len() && x != y implies (
    #[trigger] t[x]).0 != (#[trigger] t[y]).0 by {
        assert(t[x].0 == s[x].0 && t[y].0 == s[y].0);
    }
    assert forall|k: K| #[trigger] has_key(t, k) == has_key(s, k) by {
        if has_key(s, k) {
            let j = choose|j: int| 0 <= j < s.len() && (#[trigger] s[j]).0 == k;
            assert(t[j].0 == k);
        }
        if has_key(t, k) {
            let j = choose|j: int| 0 <= j < t.len() && (#[trigger] t[j]).0 == k;
            assert(s[j].0 == k);
        }
    }
    assert forall|k: K| has_key(t, k) implies #[trigger] entries_view(t)[k] == entries_view(s)[k] by {
        let j = choose|j: int| 0 <= j < t.len() && (#[trigger] t[j]).0 == k;
        lemma_lookup(t, j);
        lemma_lookup(s, j);
    }
    assert(entries_view(t) =~= entries_view(s));
}

impl<K: PartialEq + Clone, V: PartialEq, M: Clone, S> Inner<K, V, M, S> {
    /// Empties every bag, keeping every key.
    fn purge(&mut self)
        requires
            old(self).inv(),
        ensures
            final(self).inv(),
            final(self).hasher == old(self).hasher,
            final(self)@ == (purged(old(self)@.0), old(self)@.1, old(self)@.2),
    {
        let ghost s0 = self.data@;
        let n = self.data.len();
        let mut i: usize = 0;
        while i < n
            invariant
                self.inv(),
                distinct_keys(s0),
                n == s0.len(),
                self.data@.len() == n,
                0 <= i <= n,
                self.meta == old(self).meta,
                self.ready == old(self).ready,
                self.hasher == old(self).hasher,
                forall|j: int| 0 <= j < n ==> (#[trigger] self.data@[j]).0 == s0[j].0,
                forall|j: int| 0 <= j < i ==> (#[trigger] self.data@[j]).1@ == Multiset::<V>::empty(),
                forall|j: int| i <= j < n ==> (#[trigger] self.data@[j]).1@ == s0[j].1@,
            decreases n - i,
        {
            let ghost s = self.data@;
            let (k, mut bag) = self.take_entry(i);
            bag.clear();
            self.put_entry(i, (k, bag), Ghost(s));
            i += 1;
        }
        proof {
            let t = self.data@;
            assert forall|k: K| #[trigger] has_key(t, k) == has_key(s0, k) by {
                if has_key(s0, k) {
                    let j = choose|j: int| 0 <= j < s0.len() && (#[trigger] s0[j]).0 == k;
                    assert(t[j].0 == k);
                }
                if has_key(t, k) {
                    let j = choose|j: int| 0 <= j < t.len() && (#[trigger] t[j]).0 == k;
                    assert(s0[j].0 == k);
                }
            }
            assert forall|k: K| has_key(t, k) implies #[trigger] entries_view(t)[k] == Multiset::<
                V,
            >::empty() by {
                let j = choose|j: int| 0 <= j < t.len() && (#[trigger] t[j]).0 == k;
                lemma_lookup(t, j);
            }
            assert(entries_view(t) =~= purged(entries_view(s0)));
        }
    }

    /// Gives back unused room in every bag.
    fn fit_all(&mut self)
        requires
            old(self).inv(),
        ensures
            final(self).inv(),
            final(self).hasher == old(self).hasher,
            final(self)@ == old(self)@,
    {
        let n = self.data.len();
        let mut i: usize = 0;
        while i < n
            invariant
                self.inv(),
                self.data@.len() == n,
                0 <= i <= n,
                self@ == old(self)@,
                self.hasher == old(self).hasher,
            decreases n - i,
        {
            let ghost s = self.data@;
            proof {
                lemma_lookup(s, i as int);
            }
            let (k, mut bag) = self.take_entry(i);
            bag.fit();
            self.put_entry(i, (k, bag), Ghost(s));
            proof {
                assert(self@.0 =~= old(self)@.0);
            }
            i += 1;
        }
    }

    /// Sets the meta value.
    fn set_meta(&mut self, meta: M)
        requires
            old(self).inv(),
        ensures
            final(self).inv(),
            final(self).hasher == old(self).hasher,
            final(self)@ == (old(self)@.0, meta, old(self)@.2),
    {
        self.meta = meta;
    }

    /// Marks the map ready for readers.
    fn mark_ready(&mut self)
        requires
            old(self).inv(),
        ensures
            final(self).inv(),
            final(self).hasher == old(self).hasher,
            final(self)@ == (old(self)@.0, old(self)@.1, true),
    {
        self.ready = true;
    }
}

impl<K: PartialEq + Clone, V: PartialEq + ShallowCopy, M: Clone, S> Inner<K, V, M, S> {
    /// Makes this half hold the same keys, values, meta and readiness as `first`; values are
    /// aliased, not copied.
    fn copy_from(&mut self, first: &Self)
        requires
            old(self).inv(),
            first.inv(),
        ensures
            final(self).inv(),
            final(self).hasher == old(self).hasher,
            final(self)@ == first@,
    {
        let n = first.data.len();
        let mut data: Vec<(K, Values<V>)> = Vec::with_capacity(n);
        let mut i: usize = 0;
        while i < n
            invariant
                first.inv(),
                n == first.data@.len(),
                0 <= i <= n,
                data@.len() == i,
                forall|j: int| 0 <= j < i ==> (#[trigger] data@[j]).0 == first.data@[j].0
                    && data@[j].1@ == first.data@[j].1@,
            decreases n - i,
        {
            let key = first.data[i].0.clone();
            proof {
                assert(cloned::<K>(first.data@[i as int].0, key));
            }
            let bag = first.data[i].1.alias_all();
            data.push((key, bag));
            i += 1;
        }
        proof {
            lemma_same_entries(first.data@, data@);
        }
        self.data = data;
        let meta = first.meta.clone();
        proof {
            assert(cloned::<M>(first.meta, meta));
        }
        self.meta = meta;
        self.ready = first.ready;
    }
}

/// A table with distinct keys has as many keys as entries.
proof fn lemma_key_count<K, V>(s: Seq<(K, Values<V>)>)
    requires
        distinct_keys(s),
    ensures
        entries_view(s).dom().len() == s.len(),
        entries_view(s).dom().finite(),
    decreases s.len(),
{
    if s.len() == 0 {
        assert(entries_view(s).dom() =~= Set::<K>::empty());
    } else {
        let t = s.drop_last();
        assert(distinct_keys(t)) by {
            assert forall|x: int, y: int| 0 <= x < t.len() && 0 <= y < t.len() && x != y implies (
            #[trigger] t[x]).0 != (#[trigger] t[y]).0 by {
                assert(t[x] == s[x] && t[y] == s[y]);
            }
        }
        lemma_key_count(t);
        assert(!has_key(t, s.last().0)) by {
            if has_key(t, s.last().0) {
                let j = choose|j: int| 0 <= j < t.len() && (#[trigger] t[j]).0 == s.last().0;
                assert(s[j] == t[j]);
            }
        }
        assert(t.push(s.last()) =~= s);
        lemma_push(t, s.last().0, s.last().1);
        assert(entries_view(s).dom() =~= entries_view(t).dom().insert(s.last().0));
    }
}

/// A change to the map, kept in the writer's log until both halves have applied it.
pub enum Operation<K, V, M, F> {
    /// Make the bag under the key hold exactly this value.
    Replace(K, Aliased<V, NoDrop>),
    /// Add this value to the bag under the key, creating the key if needed.
    Add(K, Aliased<V, NoDrop>),
    /// Remove one occurrence of this value from the bag under the key.
    RemoveValue(K, V),
    /// Remove the key and its bag.
    RemoveEntry(K),
    /// Empty the bag under the key, keeping the key.
    Clear(K),
    /// Empty every bag, keeping every key.
    Purge,
    /// Keep, in the bag under the key, the values the predicate accepts.
    Retain(K, Predicate<F>),
    /// Give back unused room in the bag under the key, or in every bag.
    Fit(Option<K>),
    /// Make room for more values under the key, creating the key if needed.
    Reserve(K, usize),
    /// Mark the map ready for readers.
    MarkReady,
    /// Set the meta value.
    SetMeta(M),
}

/// `v` added under `k`, creating the key if needed.
pub open spec fn map_add<K, V, M>(state: MapState<K, V, M>, k: K, v: V) -> MapState<K, V, M> {
    (state.0.insert(k, bag_or_empty(state.0, k).insert(v)), state.1, state.2)
}

/// The bag under `k` made to hold exactly `v`.
pub open spec fn map_replace<K, V, M>(state: MapState<K, V, M>, k: K, v: V) -> MapState<K, V, M> {
    (state.0.insert(k, Multiset::empty().insert(v)), state.1, state.2)
}

/// One occurrence of `v` removed from the bag under `k`, if the key is present.
pub open spec fn map_remove_value<K, V, M>(state: MapState<K, V, M>, k: K, v: V) -> MapState<
    K,
    V,
    M,
> {
    (
        if state.0.contains_key(k) {
            state.0.insert(k, state.0[k].remove(v))
        } else {
            state.0
        },
        state.1,
        state.2,
    )
}

/// `k` and its bag removed.
pub open spec fn map_remove_entry<K, V, M>(state: MapState<K, V, M>, k: K) -> MapState<K, V, M> {
    (state.0.remove(k), state.1, state.2)
}

/// The bag under `k` emptied, if the key is present.
pub open spec fn map_clear<K, V, M>(state: MapState<K, V, M>, k: K) -> MapState<K, V, M> {
    (
        if state.0.contains_key(k) {
            state.0.insert(k, Multiset::empty())
        } else {
            state.0
        },
        state.1,
        state.2,
    )
}

/// Every bag emptied.
pub open spec fn map_purge<K, V, M>(state: MapState<K, V, M>) -> MapState<K, V, M> {
    (purged(state.0), state.1, state.2)
}

/// The bag under `k` filtered by `f`, if the key is present.
pub open spec fn map_retain<K, V, M, F: Fn(&V, bool) -> bool>(
    state: MapState<K, V, M>,
    k: K,
    f: F,
) -> MapState<K, V, M> {
    (
        if state.0.contains_key(k) {
            state.0.insert(k, state.0[k].filter(|v: V| keeps::<V, F>(f, v)))
        } else {
            state.0
        },
        state.1,
        state.2,
    )
}

/// `k` present, with an empty bag if it was absent.
pub open spec fn map_reserve<K, V, M>(state: MapState<K, V, M>, k: K) -> MapState<K, V, M> {
    (state.0.insert(k, bag_or_empty(state.0, k)), state.1, state.2)
}

/// What `op` makes of a half in state `state`.
pub open spec fn apply_op<K, V, M, F: Fn(&V, bool) -> bool>(
    state: MapState<K, V, M>,
    op: Operation<K, V, M, F>,
) -> MapState<K, V, M> {
    match op {
        Operation::Replace(k, v) => map_replace(state, k, v@),
        Operation::Add(k, v) => map_add(state, k, v@),
        Operation::RemoveValue(k, v) => map_remove_value(state, k, v),
        Operation::RemoveEntry(k) => map_remove_entry(state, k),
        Operation::Clear(k) => map_clear(state, k),
        Operation::Purge => map_purge(state),
        Operation::Retain(k, p) => map_retain(state, k, p.0),
        Operation::Fit(_) => state,
        Operation::Reserve(k, _) => map_reserve(state, k),
        Operation::MarkReady => (state.0, state.1, true),
        Operation::SetMeta(meta) => (state.0, meta, state.2),
    }
}

/// `op` can be applied: a retain predicate must decide by the value alone.
pub open spec fn op_accepted<K, V, M, F: Fn(&V, bool) -> bool>(op: Operation<K, V, M, F>) -> bool {
    match op {
        Operation::Retain(_, p) => decides::<V, F>(p.0),
        _ => true,
    }
}

impl<
    K: PartialEq + Clone,
    V: PartialEq + ShallowCopy,
    M: Clone,
    S,
    F: Fn(&V, bool) -> bool,
> Absorb<Operation<K, V, M, F>> for Inner<K, V, M, S> {
    open spec fn absorbed(state: MapState<K, V, M>, op: Operation<K, V, M, F>) -> MapState<K, V, M> {
        apply_op(state, op)
    }

    open spec fn accepts(op: Operation<K, V, M, F>) -> bool {
        op_accepted(op)
    }

    open spec fn wf(&self) -> bool {
        self.inv()
    }

    open spec fn setup_kept(before: Self, after: Self) -> bool {
        after.spec_hasher() == before.spec_hasher()
    }

    fn absorb_first(&mut self, operation: &Operation<K, V, M, F>, other: &Self) {
        match operation {
            Operation::Replace(key, value) => {
                let k = key.clone();
                proof {
                    assert(cloned::<K>(*key, k));
                }
                self.replace_value(k, value.alias());
            },
            Operation::Add(key, value) => {
                let k = key.clone();
                proof {
                    assert(cloned::<K>(*key, k));
                }
                self.add_value(k, value.alias());
            },
            Operation::RemoveValue(key, value) => {
                // The second copy still holds its own alias of the value.
                let _ = self.remove_value(key, value);
            },
            Operation::RemoveEntry(key) => self.remove_entry(key),
            Operation::Clear(key) => self.clear_key(key),
            Operation::Purge => self.purge(),
            Operation::Retain(key, predicate) => self.retain_key(key, predicate, true),
            Operation::Fit(Some(key)) => self.fit_key(key),
            Operation::Fit(None) => self.fit_all(),
            Operation::Reserve(key, additional) => {
                let k = key.clone();
                proof {
                    assert(cloned::<K>(*key, k));
                }
                self.reserve_key(k, *additional);
            },
            Operation::MarkReady => self.mark_ready(),
            Operation::SetMeta(meta) => {
                let m = meta.clone();
                proof {
                    assert(cloned::<M>(*meta, m));
                }
                self.set_meta(m);
            },
        }
    }

    fn absorb_second(&mut self, operation: Operation<K, V, M, F>, other: &Self) {
        match operation {
            Operation::Replace(key, value) => self.replace_value(key, value),
            Operation::Add(key, value) => self.add_value(key, value),
            Operation::RemoveValue(key, value) => {
                // The alias leaving the second copy is the value's last one.
                match self.remove_value(&key, &value) {
                    Some(last) => release(last),
                    None => {},
                }
            },
            Operation::RemoveEntry(key) => self.remove_entry(&key),
            Operation::Clear(key) => self.clear_key(&key),
            Operation::Purge => self.purge(),
            Operation::Retain(key, predicate) => self.retain_key(&key, &predicate, false),
            Operation::Fit(Some(key)) => self.fit_key(&key),
            Operation::Fit(None) => self.fit_all(),
            Operation::Reserve(key, additional) => self.reserve_key(key, additional),
            Operation::MarkReady => self.mark_ready(),
            Operation::SetMeta(meta) => self.set_meta(meta),
        }
    }

    fn sync_with(&mut self, first: &Self) {
        self.copy_from(first);
    }
}

} // verus!
