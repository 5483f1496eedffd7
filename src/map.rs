use vstd::prelude::*;
use vstd::multiset::Multiset;

use std::collections::hash_map::RandomState;

use crate::aliasing::Aliased;
use crate::inner::{
    clone_is_exact, key_model, map_add, map_clear, map_purge, map_remove_entry, map_remove_value,
    map_replace, map_reserve, map_retain, Inner, MapState, Operation,
};
use crate::predicate::{decides, Predicate};
use crate::shallow_copy::ShallowCopy;
use crate::values::{eq_is_equality, Values};
use crate::write::WriteHandle;

verus! {

/// The writer's end of a multi-value map.
pub type MapWriteHandle<K, V, M, S, F> = WriteHandle<Inner<K, V, M, S>, Operation<K, V, M, F>>;

/// What readers see of a half: its bags once the map is ready, and nothing before.
pub open spec fn visible<K, V, M>(state: MapState<K, V, M>) -> Map<K, Multiset<V>> {
    if state.2 {
        state.0
    } else {
        Map::empty()
    }
}

impl<
    K: PartialEq + Clone,
    V: PartialEq + ShallowCopy,
    M: Clone,
    S,
    F: Fn(&V, bool) -> bool,
> WriteHandle<Inner<K, V, M, S>, Operation<K, V, M, F>> {
    /// Adds `value` to the bag under `key`.
    pub fn insert(&mut self, key: K, value: V)
        requires
            old(self).wf(),
        ensures
            final(self).wf(),
            final(self).current() == map_add(old(self).current(), key, value),
            final(self).published() == old(self).published(),
            final(self).readers() == old(self).readers(),
            final(self).is_first() == old(self).is_first(),
            final(self).publishes() == old(self).publishes(),
            forall|q: usize| #[trigger] final(self).last_epoch(q) == old(self).last_epoch(q),
            final(self).read_copy() == old(self).read_copy(),
            final(self).write_copy().spec_hasher() == old(self).write_copy().spec_hasher(),
            final(self).pending().drop_last() == old(self).pending(),
            final(self).pending().len() == old(self).pending().len() + 1,
            match final(self).pending().last() {
                Operation::Add(k, a) => k == key && a@ == value,
                _ => false,
            },
    {
        self.append(Operation::Add(key, Aliased::from(value)));
    }

    /// Makes the bag under `key` hold exactly `value`.
    pub fn update(&mut self, key: K, value: V)
        requires
            old(self).wf(),
        ensures
            final(self).wf(),
            final(self).current() == map_replace(old(self).current(), key, value),
            final(self).published() == old(self).published(),
            final(self).readers() == old(self).readers(),
            final(self).is_first() == old(self).is_first(),
            final(self).publishes() == old(self).publishes(),
            forall|q: usize| #[trigger] final(self).last_epoch(q) == old(self).last_epoch(q),
            final(self).read_copy() == old(self).read_copy(),
            final(self).write_copy().spec_hasher() == old(self).write_copy().spec_hasher(),
            final(self).pending().drop_last() == old(self).pending(),
            final(self).pending().len() == old(self).pending().len() + 1,
            match final(self).pending().last() {
                Operation::Replace(k, a) => k == key && a@ == value,
                _ => false,
            },
    {
        self.append(Operation::Replace(key, Aliased::from(value)));
    }

    /// Removes one occurrence of `value` from the bag under `key`.
    pub fn remove_value(&mut self, key: K, value: V)
        requires
            old(self).wf(),
        ensures
            final(self).wf(),
            final(self).current() == map_remove_value(old(self).current(), key, value),
            final(self).published() == old(self).published(),
            final(self).readers() == old(self).readers(),
            final(self).is_first() == old(self).is_first(),
            final(self).publishes() == old(self).publishes(),
            forall|q: usize| #[trigger] final(self).last_epoch(q) == old(self).last_epoch(q),
            final(self).read_copy() == old(self).read_copy(),
            final(self).write_copy().spec_hasher() == old(self).write_copy().spec_hasher(),
            final(self).pending() == old(self).pending().push(Operation::RemoveValue(key, value)),
    {
        self.append(Operation::RemoveValue(key, value));
    }

    /// Removes `key` and its whole bag.
    pub fn remove_entry(&mut self, key: K)
        requires
            old(self).wf(),
        ensures
            final(self).wf(),
            final(self).current() == map_remove_entry(old(self).current(), key),
            final(self).published() == old(self).published(),
            final(self).readers() == old(self).readers(),
            final(self).is_first() == old(self).is_first(),
            final(self).publishes() == old(self).publishes(),
            forall|q: usize| #[trigger] final(self).last_epoch(q) == old(self).last_epoch(q),
            final(self).read_copy() == old(self).read_copy(),
            final(self).write_copy().spec_hasher() == old(self).write_copy().spec_hasher(),
            final(self).pending() == old(self).pending().push(Operation::RemoveEntry(key)),
    {
        self.append(Operation::RemoveEntry(key));
    }

    /// Empties the bag under `key`, keeping the key.
    pub fn clear(&mut self, key: K)
        requires
            old(self).wf(),
        ensures
            final(self).wf(),
            final(self).current() == map_clear(old(self).current(), key),
            final(self).published() == old(self).published(),
            final(self).readers() == old(self).readers(),
            final(self).is_first() == old(self).is_first(),
            final(self).publishes() == old(self).publishes(),
            forall|q: usize| #[trigger] final(self).last_epoch(q) == old(self).last_epoch(q),
            final(self).read_copy() == old(self).read_copy(),
            final(self).write_copy().spec_hasher() == old(self).write_copy().spec_hasher(),
            final(self).pending() == old(self).pending().push(Operation::Clear(key)),
    {
        self.append(Operation::Clear(key));
    }

    /// Empties every bag, keeping every key.
    pub fn purge(&mut self)
        requires
            old(self).wf(),
        ensures
            final(self).wf(),
            final(self).current() == map_purge(old(self).current()),
            final(self).published() == old(self).published(),
            final(self).readers() == old(self).readers(),
            final(self).is_first() == old(self).is_first(),
            final(self).publishes() == old(self).publishes(),
            forall|q: usize| #[trigger] final(self).last_epoch(q) == old(self).last_epoch(q),
            final(self).read_copy() == old(self).read_copy(),
            final(self).write_copy().spec_hasher() == old(self).write_copy().spec_hasher(),
            final(self).pending() == old(self).pending().push(Operation::Purge),
    {
        self.append(Operation::Purge);
    }

    /// Keeps, in the bag under `key`, the values that `f` accepts.
    pub fn retain(&mut self, key: K, f: F)
        requires
            old(self).wf(),
            decides::<V, F>(f),
        ensures
            final(self).wf(),
            final(self).current() == map_retain(old(self).current(), key, f),
            final(self).published() == old(self).published(),
            final(self).readers() == old(self).readers(),
            final(self).is_first() == old(self).is_first(),
            final(self).publishes() == old(self).publishes(),
            forall|q: usize| #[trigger] final(self).last_epoch(q) == old(self).last_epoch(q),
            final(self).read_copy() == old(self).read_copy(),
            final(self).write_copy().spec_hasher() == old(self).write_copy().spec_hasher(),
            final(self).pending() == old(self).pending().push(Operation::Retain(key, Predicate(f))),
    {
        self.append(Operation::Retain(key, Predicate(f)));
    }

    /// Gives back unused room in the bag under `key`; what the map holds does not change.
    pub fn fit(&mut self, key: K)
        requires
            old(self).wf(),
        ensures
            final(self).wf(),
            final(self).current() == old(self).current(),
            final(self).published() == old(self).published(),
            final(self).readers() == old(self).readers(),
            final(self).is_first() == old(self).is_first(),
            final(self).publishes() == old(self).publishes(),
            forall|q: usize| #[trigger] final(self).last_epoch(q) == old(self).last_epoch(q),
            final(self).read_copy() == old(self).read_copy(),
            final(self).write_copy().spec_hasher() == old(self).write_copy().spec_hasher(),
            final(self).pending() == old(self).pending().push(Operation::Fit(Some(key))),
    {
        self.append(Operation::Fit(Some(key)));
    }

    /// Gives back unused room in every bag; what the map holds does not change.
    pub fn fit_all(&mut self)
        requires
            old(self).wf(),
        ensures
            final(self).wf(),
            final(self).current() == old(self).current(),
            final(self).published() == old(self).published(),
            final(self).readers() == old(self).readers(),
            final(self).is_first() == old(self).is_first(),
            final(self).publishes() == old(self).publishes(),
            forall|q: usize| #[trigger] final(self).last_epoch(q) == old(self).last_epoch(q),
            final(self).read_copy() == old(self).read_copy(),
            final(self).write_copy().spec_hasher() == old(self).write_copy().spec_hasher(),
            final(self).pending() == old(self).pending().push(Operation::Fit(None)),
    {
        self.append(Operation::Fit(None));
    }

    /// Makes room for `additional` more values under `key`, creating the key if needed.
    pub fn reserve(&mut self, key: K, additional: usize)
        requires
            old(self).wf(),
        ensures
            final(self).wf(),
            final(self).current() == map_reserve(old(self).current(), key),
            final(self).published() == old(self).published(),
            final(self).readers() == old(self).readers(),
            final(self).is_first() == old(self).is_first(),
            final(self).publishes() == old(self).publishes(),
            forall|q: usize| #[trigger] final(self).last_epoch(q) == old(self).last_epoch(q),
            final(self).read_copy() == old(self).read_copy(),
            final(self).write_copy().spec_hasher() == old(self).write_copy().spec_hasher(),
            final(self).pending() == old(self).pending().push(Operation::Reserve(key, additional)),
    {
        self.append(Operation::Reserve(key, additional));
    }

    /// Sets the meta value that readers see after the next publish.
    pub fn set_meta(&mut self, meta: M)
        requires
            old(self).wf(),
        ensures
            final(self).wf(),
            final(self).current() == (old(self).current().0, meta, old(self).current().2),
            final(self).published() == old(self).published(),
            final(self).readers() == old(self).readers(),
            final(self).is_first() == old(self).is_first(),
            final(self).publishes() == old(self).publishes(),
            forall|q: usize| #[trigger] final(self).last_epoch(q) == old(self).last_epoch(q),
            final(self).read_copy() == old(self).read_copy(),
            final(self).write_copy().spec_hasher() == old(self).write_copy().spec_hasher(),
            final(self).pending() == old(self).pending().push(Operation::SetMeta(meta)),
    {
        self.append(Operation::SetMeta(meta));
    }

    /// Marks the map ready: after the next publish readers see its contents.
    pub fn mark_ready(&mut self)
        requires
            old(self).wf(),
        ensures
            final(self).wf(),
            final(self).current() == (old(self).current().0, old(self).current().1, true),
            final(self).published() == old(self).published(),
            final(self).readers() == old(self).readers(),
            final(self).is_first() == old(self).is_first(),
            final(self).publishes() == old(self).publishes(),
            forall|q: usize| #[trigger] final(self).last_epoch(q) == old(self).last_epoch(q),
            final(self).read_copy() == old(self).read_copy(),
            final(self).write_copy().spec_hasher() == old(self).write_copy().spec_hasher(),
            final(self).pending() == old(self).pending().push(Operation::MarkReady),
    {
        self.append(Operation::MarkReady);
    }

    /// The number of keys readers see.
    pub fn len(&self) -> (r: usize)
        requires
            self.wf(),
        ensures
            r == visible(self.published()).dom().len(),
    {
        let inner = self.read();
        if inner.is_ready() {
            inner.len()
        } else {
            proof {
                assert(visible(self.published()).dom() =~= Set::<K>::empty());
            }
            0
        }
    }

    /// Whether readers see no key.
    pub fn is_empty(&self) -> (r: bool)
        requires
            self.wf(),
        ensures
            r == (visible(self.published()).dom().len() == 0),
    {
        self.len() == 0
    }

    /// The bag readers see under `key`, if any.
    pub fn get(&self, key: &K) -> (r: Option<&Values<V>>)
        requires
            self.wf(),
        ensures
            r is Some == visible(self.published()).contains_key(*key),
            r matches Some(b) ==> b@ == visible(self.published())[*key],
    {
        let inner = self.read();
        if inner.is_ready() {
            inner.get(key)
        } else {
            None
        }
    }

    /// Whether readers see `key`.
    pub fn contains_key(&self, key: &K) -> (r: bool)
        requires
            self.wf(),
        ensures
            r == visible(self.published()).contains_key(*key),
    {
        let inner = self.read();
        inner.is_ready() && inner.contains_key(key)
    }

    /// The meta value readers see, once the map is ready.
    pub fn meta_get(&self) -> (r: Option<&M>)
        requires
            self.wf(),
        ensures
            r is Some == self.published().2,
            r matches Some(m) ==> *m == self.published().1,
    {
        let inner = self.read();
        if inner.is_ready() {
            Some(inner.meta())
        } else {
            None
        }
    }
}

/// How to build a map: its meta value, its hasher and the room to set aside for keys.
pub struct Options<M, S> {
    meta: M,
    hasher: S,
    capacity: Option<usize>,
}

impl<M, S> View for Options<M, S> {
    type V = (M, S, Option<usize>);

    closed spec fn view(&self) -> (M, S, Option<usize>) {
        (self.meta, self.hasher, self.capacity)
    }
}

/// Relies on `RandomState::new`: a hasher builder with fresh random keys.
#[verifier::external_body]
fn new_random_state() -> RandomState {
    RandomState::new()
}

impl Default for Options<(), RandomState> {
    fn default() -> (r: Self)
        ensures
            r@.0 == (),
            r@.2 == Option::<usize>::None,
    {
        Options { meta: (), hasher: new_random_state(), capacity: None }
    }
}

impl<M, S> Options<M, S> {
    /// Sets the meta value the map starts with.
    pub fn with_meta<M2>(self, meta: M2) -> (r: Options<M2, S>)
        ensures
            r@ == (meta, self@.1, self@.2),
    {
        Options { meta, hasher: self.hasher, capacity: self.capacity }
    }

    /// Sets the hasher the map is built with.
    pub fn with_hasher<S2>(self, hash_builder: S2) -> (r: Options<M, S2>)
        ensures
            r@ == (self@.0, hash_builder, self@.2),
    {
        Options { meta: self.meta, hasher: hash_builder, capacity: self.capacity }
    }

    /// Sets the room to set aside for keys.
    pub fn with_capacity(self, capacity: usize) -> (r: Options<M, S>)
        ensures
            r@ == (self@.0, self@.1, Some(capacity)),
    {
        Options { meta: self.meta, hasher: self.hasher, capacity: Some(capacity) }
    }
}

impl<M: Clone, S: Clone> Options<M, S> {
    /// Builds the map: its writer, and the slot of a first reader. The map is empty, and becomes
    /// ready for readers at the first publish.
    pub fn construct<K, V, F>(self) -> (r: (MapWriteHandle<K, V, M, S, F>, usize)) where
        K: PartialEq + Clone,
        V: PartialEq + ShallowCopy,
        F: Fn(&V, bool) -> bool,

        requires
            key_model::<K>(),
            eq_is_equality::<V>(),
            clone_is_exact::<M>(),
        ensures
            r.0.wf(),
            r.0.is_first(),
            r.0.published() == (Map::<K, Multiset<V>>::empty(), self@.0, false),
            r.0.current() == (Map::<K, Multiset<V>>::empty(), self@.0, true),
            r.0.readers() == Map::<usize, u64>::empty().insert(r.1, 0),
            r.0.publishes() == 0,
            forall|q: usize| #[trigger] r.0.last_epoch(q) == 0,
            cloned(r.0.read_copy().spec_hasher(), r.0.write_copy().spec_hasher()),
            r.0.read_copy().spec_hasher() == self@.1,
    {
        let capacity = match self.capacity {
            Some(capacity) => capacity,
            None => 0,
        };
        let meta = self.meta.clone();
        proof {
            assert(cloned::<M>(self.meta, meta));
        }
        let hasher = self.hasher.clone();
        proof {
            assert(cloned::<S>(self.hasher, hasher));
        }
        let w_inner = Inner::with_capacity_and_hasher(meta, capacity, hasher);
        let r_inner = Inner::with_capacity_and_hasher(self.meta, capacity, self.hasher);
        let mut w = WriteHandle::new(w_inner, r_inner);
        w.mark_ready();
        let reader = w.register_reader();
        proof {
            assert(w.readers() =~= Map::<usize, u64>::empty().insert(reader, 0));
        }
        (w, reader)
    }
}

/// Builds an empty map with no meta value: its writer and the slot of a first reader.
pub fn new<K, V, F>() -> (r: (MapWriteHandle<K, V, (), RandomState, F>, usize)) where
    K: PartialEq + Clone,
    V: PartialEq + ShallowCopy,
    F: Fn(&V, bool) -> bool,

    requires
        key_model::<K>(),
        eq_is_equality::<V>(),
    ensures
        r.0.wf(),
        r.0.is_first(),
        r.0.published() == (Map::<K, Multiset<V>>::empty(), (), false),
        r.0.current() == (Map::<K, Multiset<V>>::empty(), (), true),
        r.0.readers() == Map::<usize, u64>::empty().insert(r.1, 0),
        r.0.publishes() == 0,
        forall|q: usize| #[trigger] r.0.last_epoch(q) == 0,
        cloned(r.0.read_copy().spec_hasher(), r.0.write_copy().spec_hasher()),
{
    Options::default().construct()
}

/// Builds an empty map with a meta value: its writer and the slot of a first reader.
pub fn with_meta<K, V, M, F>(meta: M) -> (r: (MapWriteHandle<K, V, M, RandomState, F>, usize)) where
    K: PartialEq + Clone,
    V: PartialEq + ShallowCopy,
    M: Clone,
    F: Fn(&V, bool) -> bool,

    requires
        key_model::<K>(),
        eq_is_equality::<V>(),
        clone_is_exact::<M>(),
    ensures
        r.0.wf(),
        r.0.is_first(),
        r.0.published() == (Map::<K, Multiset<V>>::empty(), meta, false),
        r.0.current() == (Map::<K, Multiset<V>>::empty(), meta, true),
        r.0.readers() == Map::<usize, u64>::empty().insert(r.1, 0),
        r.0.publishes() == 0,
        forall|q: usize| #[trigger] r.0.last_epoch(q) == 0,
        cloned(r.0.read_copy().spec_hasher(), r.0.write_copy().spec_hasher()),
{
    Options::default().with_meta(meta).construct()
}

/// Builds an empty map with a meta value and a hasher: its writer and the slot of a first reader.
pub fn with_hasher<K, V, M, S, F>(meta: M, hasher: S) -> (r: (MapWriteHandle<K, V, M, S, F>, usize)) where
    K: PartialEq + Clone,
    V: PartialEq + ShallowCopy,
    M: Clone,
    S: Clone,
    F: Fn(&V, bool) -> bool,

    requires
        key_model::<K>(),
        eq_is_equality::<V>(),
        clone_is_exact::<M>(),
    ensures
        r.0.wf(),
        r.0.is_first(),
        r.0.published() == (Map::<K, Multiset<V>>::empty(), meta, false),
        r.0.current() == (Map::<K, Multiset<V>>::empty(), meta, true),
        r.0.readers() == Map::<usize, u64>::empty().insert(r.1, 0),
        r.0.publishes() == 0,
        forall|q: usize| #[trigger] r.0.last_epoch(q) == 0,
        cloned(r.0.read_copy().spec_hasher(), r.0.write_copy().spec_hasher()),
        r.0.read_copy().spec_hasher() == hasher,
{
    Options::default().with_hasher(hasher).with_meta(meta).construct()
}

} // verus!
