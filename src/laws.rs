use vstd::prelude::*;
use vstd::multiset::Multiset;

use crate::inner::{map_add, map_remove_entry, map_remove_value, MapState};
use crate::write::{absorb_all, lemma_absorb_all_concat, Absorb, WriteHandle};

verus! {

/// The state reached from `state` by adding `v` under each key of `keys`, in order.
pub open spec fn add_all<K, V, M>(state: MapState<K, V, M>, keys: Seq<K>, v: V) -> MapState<K, V, M>
    decreases keys.len(),
{
    if keys.len() == 0 {
        state
    } else {
        map_add(add_all(state, keys.drop_last(), v), keys.last(), v)
    }
}

/// The state reached from `state` by removing each key of `keys`, in order.
pub open spec fn remove_all<K, V, M>(state: MapState<K, V, M>, keys: Seq<K>) -> MapState<K, V, M>
    decreases keys.len(),
{
    if keys.len() == 0 {
        state
    } else {
        map_remove_entry(remove_all(state, keys.drop_last()), keys.last())
    }
}

/// Operations appended and then published are what every later read sees: if `appended` is
/// `before` with `ops` appended, and `after` is `appended` once published, then `after` publishes
/// the effect of `ops` on what `before` was about to publish.
pub proof fn law_visibility<T: Absorb<O>, O>(
    before: WriteHandle<T, O>,
    appended: WriteHandle<T, O>,
    after: WriteHandle<T, O>,
    ops: Seq<O>,
)
    requires
        appended.published() == before.published(),
        appended.pending() == before.pending() + ops,
        after.published() == appended.current(),
    ensures
        after.published() == absorb_all::<T, O>(before.current(), ops),
{
    lemma_absorb_all_concat::<T, O>(before.published(), before.pending(), ops);
}

/// Every key added is present afterwards.
pub proof fn law_added_keys_present<K, V, M>(state: MapState<K, V, M>, keys: Seq<K>, v: V)
    ensures
        forall|i: int| 0 <= i < keys.len() ==> add_all(state, keys, v).0.contains_key(#[trigger] keys[i]),
        add_all(state, keys, v).2 == state.2,
    decreases keys.len(),
{
    if keys.len() > 0 {
        law_added_keys_present(state, keys.drop_last(), v);
        assert forall|i: int| 0 <= i < keys.len() implies add_all(state, keys, v).0.contains_key(
            #[trigger] keys[i],
        ) by {
            if i < keys.len() - 1 {
                assert(keys.drop_last()[i] == keys[i]);
            }
        }
    }
}

/// A key that was absent and is not among the keys added stays absent.
pub proof fn law_other_keys_absent<K, V, M>(state: MapState<K, V, M>, keys: Seq<K>, v: V, n: K)
    requires
        !state.0.contains_key(n),
        !keys.contains(n),
    ensures
        !add_all(state, keys, v).0.contains_key(n),
    decreases keys.len(),
{
    if keys.len() > 0 {
        assert(!keys.drop_last().contains(n)) by {
            if keys.drop_last().contains(n) {
                let i = choose|i: int| 0 <= i < keys.drop_last().len() && keys.drop_last()[i] == n;
                assert(keys[i] == n);
            }
        }
        assert(keys.last() != n) by {
            assert(keys[keys.len() - 1] == keys.last());
        }
        law_other_keys_absent(state, keys.drop_last(), v, n);
    }
}

/// Adding under the keys of `a` to an empty map and then removing the keys of `b` leaves
/// exactly the keys of `a` that are not in `b`.
pub proof fn law_add_then_remove<K, V, M>(
    state: MapState<K, V, M>,
    a: Seq<K>,
    b: Seq<K>,
    v: V,
)
    requires
        state.0.dom().is_empty(),
    ensures
        remove_all(add_all(state, a, v), b).0.dom() == a.to_set().difference(b.to_set()),
    decreases b.len(),
{
    if b.len() == 0 {
        lemma_added_domain(state, a, v);
        assert(b.to_set() =~= Set::<K>::empty());
        assert(a.to_set().difference(b.to_set()) =~= a.to_set());
    } else {
        law_add_then_remove(state, a, b.drop_last(), v);
        assert(b.to_set() =~= b.drop_last().to_set().insert(b.last())) by {
            assert forall|k: K| b.to_set().contains(k) == b.drop_last().to_set().insert(
                b.last(),
            ).contains(k) by {
                if b.contains(k) {
                    let i = choose|i: int| 0 <= i < b.len() && b[i] == k;
                    if i < b.len() - 1 {
                        assert(b.drop_last()[i] == k);
                    }
                }
                if b.drop_last().contains(k) {
                    let i = choose|i: int| 0 <= i < b.drop_last().len() && b.drop_last()[i] == k;
                    assert(b[i] == k);
                }
                if k == b.last() {
                    assert(b[b.len() - 1] == k);
                }
            }
        }
        assert(remove_all(add_all(state, a, v), b).0.dom() =~= a.to_set().difference(b.to_set()));
    }
}

/// The keys present after adding under the keys of `keys` to an empty map are those keys.
proof fn lemma_added_domain<K, V, M>(state: MapState<K, V, M>, keys: Seq<K>, v: V)
    requires
        state.0.dom().is_empty(),
    ensures
        add_all(state, keys, v).0.dom() == keys.to_set(),
    decreases keys.len(),
{
    if keys.len() == 0 {
        assert(state.0.dom() =~= Set::<K>::empty());
        assert(keys.to_set() =~= Set::<K>::empty());
    } else {
        lemma_added_domain(state, keys.drop_last(), v);
        assert forall|k: K| keys.to_set().contains(k) == keys.drop_last().to_set().insert(
            keys.last(),
        ).contains(k) by {
            if keys.contains(k) {
                let i = choose|i: int| 0 <= i < keys.len() && keys[i] == k;
                if i < keys.len() - 1 {
                    assert(keys.drop_last()[i] == k);
                }
            }
            if keys.drop_last().contains(k) {
                let i = choose|i: int| 0 <= i < keys.drop_last().len() && keys.drop_last()[i] == k;
                assert(keys[i] == k);
            }
            if k == keys.last() {
                assert(keys[keys.len() - 1] == k);
            }
        }
        assert(add_all(state, keys, v).0.dom() =~= keys.to_set());
    }
}

/// A bag counts repeats: adding `v` twice under a new key gives a bag of two; removing `v` once
/// leaves one, and removing it again leaves an empty bag while the key stays.
pub proof fn law_bag_multiplicity<K, V, M>(state: MapState<K, V, M>, k: K, v: V)
    requires
        !state.0.contains_key(k),
    ensures
        map_add(map_add(state, k, v), k, v).0[k].len() == 2,
        map_remove_value(map_add(map_add(state, k, v), k, v), k, v).0[k].len() == 1,
        map_remove_value(map_remove_value(map_add(map_add(state, k, v), k, v), k, v), k, v).0[k].len()
            == 0,
        map_remove_value(
            map_remove_value(map_add(map_add(state, k, v), k, v), k, v),
            k,
            v,
        ).0.contains_key(k),
{
    let s2 = map_add(map_add(state, k, v), k, v);
    assert(s2.0[k] == Multiset::<V>::empty().insert(v).insert(v));
    assert(s2.0[k].count(v) == 2);
    let s3 = map_remove_value(s2, k, v);
    assert(s3.0[k].count(v) == 1);
    assert(s3.0[k] =~= Multiset::<V>::empty().insert(v));
    let s4 = map_remove_value(s3, k, v);
    assert(s4.0[k] =~= Multiset::<V>::empty());
}

} // verus!
