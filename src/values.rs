use vstd::prelude::*;
use vstd::multiset::Multiset;
use vstd::std_specs::cmp::PartialEqSpec;

use crate::aliasing::{Aliased, NoDrop};
use crate::predicate::{decides, keeps, lemma_answer_keeps, Predicate};
use crate::shallow_copy::ShallowCopy;

verus! {

broadcast use vstd::seq_lib::group_to_multiset_ensures;

/// `==` on `T` compares values: it holds exactly of equal values.
pub open spec fn eq_is_equality<T: PartialEq>() -> bool {
    &&& T::obeys_eq_spec()
    &&& forall|a: T, b: T| #[trigger] a.eq_spec(&b) <==> a == b
}

/// The bag of values stored under one key. The same value may occur several times.
pub struct Values<V> {
    items: Vec<Aliased<V, NoDrop>>,
}

/// The values behind a sequence of aliases, in order.
pub open spec fn values_of<V>(s: Seq<Aliased<V, NoDrop>>) -> Seq<V> {
    s.map_values(|a: Aliased<V, NoDrop>| a@)
}

impl<V> View for Values<V> {
    type V = Multiset<V>;

    closed spec fn view(&self) -> Multiset<V> {
        values_of(self.items@).to_multiset()
    }
}

/// Removing the alias at `i` removes its value from the sequence of values.
proof fn lemma_values_of_remove<V>(s: Seq<Aliased<V, NoDrop>>, i: int)
    requires
        0 <= i < s.len(),
    ensures
        values_of(s.remove(i)) == values_of(s).remove(i),
        values_of(s)[i] == s[i]@,
{
    assert(values_of(s.remove(i)) =~= values_of(s).remove(i));
}

/// Appending an alias appends its value to the sequence of values.
proof fn lemma_values_of_push<V>(s: Seq<Aliased<V, NoDrop>>, a: Aliased<V, NoDrop>)
    ensures
        values_of(s.push(a)) == values_of(s).push(a@),
{
    assert(values_of(s.push(a)) =~= values_of(s).push(a@));
}

impl<V> Values<V> {
    /// An empty bag.
    pub fn new() -> (r: Values<V>)
        ensures
            r@ == Multiset::<V>::empty(),
    {
        let r = Values { items: Vec::new() };
        proof {
            assert(values_of(r.items@) =~= Seq::<V>::empty());
        }
        r
    }

    /// An empty bag with room for `capacity` values.
    pub fn with_capacity(capacity: usize) -> (r: Values<V>)
        ensures
            r@ == Multiset::<V>::empty(),
    {
        let r = Values { items: Vec::with_capacity(capacity) };
        proof {
            assert(values_of(r.items@) =~= Seq::<V>::empty());
        }
        r
    }

    /// The number of values in the bag, counting repeats.
    pub fn len(&self) -> (r: usize)
        ensures
            r == self@.len(),
    {
        self.items.len()
    }

    /// Whether the bag holds no value.
    pub fn is_empty(&self) -> (r: bool)
        ensures
            r == (self@.len() == 0),
    {
        self.items.len() == 0
    }

    /// Some value of the bag, if it is not empty.
    pub fn get_one(&self) -> (r: Option<&V>)
        ensures
            r is Some == (self@.len() > 0),
            r matches Some(v) ==> self@.contains(*v),
    {
        if self.items.len() == 0 {
            None
        } else {
            proof {
                assert(values_of(self.items@)[0] == self.items@[0]@);
                assert(values_of(self.items@).contains(self.items@[0]@));
            }
            Some(self.items[0].get())
        }
    }

    /// Adds one occurrence of a value.
    pub fn push(&mut self, value: Aliased<V, NoDrop>)
        ensures
            final(self)@ == old(self)@.insert(value@),
    {
        proof {
            lemma_values_of_push(self.items@, value);
        }
        self.items.push(value);
    }

    /// Removes every value.
    pub fn clear(&mut self)
        ensures
            final(self)@ == Multiset::<V>::empty(),
    {
        self.items.clear();
        proof {
            assert(values_of(self.items@) =~= Seq::<V>::empty());
        }
    }

    /// Makes the bag hold exactly one occurrence of `value`.
    pub fn replace(&mut self, value: Aliased<V, NoDrop>)
        ensures
            final(self)@ == Multiset::<V>::empty().insert(value@),
    {
        self.clear();
        self.push(value);
    }

    /// Makes room for `additional` more values; the contents stay as they are.
    pub fn reserve(&mut self, additional: usize)
        ensures
            final(self)@ == old(self)@,
    {
        self.items.reserve(additional);
    }

    /// Gives back unused room; the contents stay as they are.
    pub fn fit(&mut self)
        ensures
            final(self)@ == old(self)@,
    {
        shrink_vec(&mut self.items);
    }
}

impl<V: PartialEq> Values<V> {
    /// Whether the bag holds `value`.
    pub fn contains(&self, value: &V) -> (r: bool)
        requires
            eq_is_equality::<V>(),
        ensures
            r == self@.contains(*value),
    {
        let n = self.items.len();
        let mut i: usize = 0;
        while i < n
            invariant
                n == self.items@.len(),
                0 <= i <= n,
                eq_is_equality::<V>(),
                forall|j: int| 0 <= j < i ==> values_of(self.items@)[j] != *value,
            decreases n - i,
        {
            if self.items[i].get().eq(value) {
                proof {
                    assert(values_of(self.items@)[i as int] == *value);
                    assert(values_of(self.items@).to_multiset().contains(*value));
                }
                return true;
            }
            i += 1;
        }
        proof {
            assert(!values_of(self.items@).contains(*value));
        }
        false
    }

    /// Removes one occurrence of `value`, if there is one, and tells whether there was.
    pub fn remove_one(&mut self, value: &V) -> (r: bool)
        requires
            eq_is_equality::<V>(),
        ensures
            r == old(self)@.contains(*value),
            final(self)@ == old(self)@.remove(*value),
    {
        self.take_one(value).is_some()
    }

    /// Takes out one occurrence of `value`, if there is one, and gives back its alias.
    pub fn take_one(&mut self, value: &V) -> (r: Option<Aliased<V, NoDrop>>)
        requires
            eq_is_equality::<V>(),
        ensures
            r is Some == old(self)@.contains(*value),
            r matches Some(a) ==> a@ == *value,
            final(self)@ == old(self)@.remove(*value),
    {
        let n = self.items.len();
        let mut i: usize = 0;
        while i < n
            invariant
                n == self.items@.len(),
                self.items@ == old(self).items@,
                0 <= i <= n,
                eq_is_equality::<V>(),
                forall|j: int| 0 <= j < i ==> values_of(self.items@)[j] != *value,
            decreases n - i,
        {
            if self.items[i].get().eq(value) {
                proof {
                    lemma_values_of_remove(self.items@, i as int);
                }
                return Some(self.items.remove(i));
            }
            i += 1;
        }
        proof {
            assert(!values_of(self.items@).contains(*value));
            assert(self@.count(*value) == 0);
            assert(self@.remove(*value) =~= self@);
        }
        None
    }
}

impl<V: ShallowCopy> Values<V> {
    /// A second bag that aliases every value of this one.
    pub fn alias_all(&self) -> (r: Values<V>)
        ensures
            r@ == self@,
    {
        let n = self.items.len();
        let mut items: Vec<Aliased<V, NoDrop>> = Vec::with_capacity(n);
        let mut i: usize = 0;
        while i < n
            invariant
                n == self.items@.len(),
                0 <= i <= n,
                values_of(items@) == values_of(self.items@).subrange(0, i as int),
            decreases n - i,
        {
            let a = self.items[i].alias();
            proof {
                lemma_values_of_push(items@, a);
                assert(values_of(self.items@).subrange(0, i + 1) =~= values_of(
                    self.items@,
                ).subrange(0, i as int).push(a@));
            }
            items.push(a);
            i += 1;
        }
        proof {
            assert(values_of(self.items@).subrange(0, n as int) =~= values_of(self.items@));
        }
        Values { items }
    }
}

/// Filtering a bag after adding `x` adds `x` to the filtered bag exactly when `x` passes.
proof fn lemma_filter_insert<V>(m: Multiset<V>, f: spec_fn(V) -> bool, x: V)
    ensures
        m.insert(x).filter(f) == (if f(x) {
            m.filter(f).insert(x)
        } else {
            m.filter(f)
        }),
{
    if f(x) {
        assert(m.insert(x).filter(f) =~= m.filter(f).insert(x));
    } else {
        assert(m.insert(x).filter(f) =~= m.filter(f));
    }
}

impl<V> Values<V> {
    /// Keeps the values that `predicate` accepts and removes the others.
    pub fn retain<F: Fn(&V, bool) -> bool>(&mut self, predicate: &Predicate<F>, first: bool)
        requires
            decides::<V, F>(predicate.0),
        ensures
            final(self)@ == old(self)@.filter(|v: V| keeps::<V, F>(predicate.0, v)),
    {
        let ghost keep = |v: V| keeps::<V, F>(predicate.0, v);
        let ghost all = values_of(self.items@);
        let mut rest: Vec<Aliased<V, NoDrop>> = Vec::new();
        std::mem::swap(&mut rest, &mut self.items);
        let n = rest.len();
        proof {
            assert(values_of(self.items@) =~= Seq::<V>::empty());
            assert(all.subrange(n as int, n as int) =~= Seq::<V>::empty());
        }
        while rest.len() > 0
            invariant
                n == all.len(),
                rest@.len() <= n,
                values_of(rest@) == all.subrange(0, rest@.len() as int),
                decides::<V, F>(predicate.0),
                keep == (|v: V| keeps::<V, F>(predicate.0, v)),
                values_of(self.items@).to_multiset() == all.subrange(
                    rest@.len() as int,
                    n as int,
                ).to_multiset().filter(keep),
            decreases rest@.len(),
        {
            let ghost j = rest@.len() - 1;
            proof {
                assert(values_of(rest@)[j] == rest@[j]@);
                assert(values_of(rest@.drop_last()) =~= values_of(rest@).drop_last());
                assert(all.subrange(j, n as int) =~= all.subrange(j + 1, n as int).insert(
                    0,
                    rest@[j]@,
                ));
                vstd::seq_lib::to_multiset_insert(all.subrange(j + 1, n as int), 0, rest@[j]@);
                lemma_filter_insert(all.subrange(j + 1, n as int).to_multiset(), keep, rest@[j]@);
            }
            let a = rest.pop().unwrap();
            let answer = predicate.eval(a.get(), first);
            proof {
                lemma_answer_keeps::<V, F>(predicate.0, a@, first, answer);
            }
            if answer {
                proof {
                    lemma_values_of_push(self.items@, a);
                }
                self.items.push(a);
            }
        }
        proof {
            assert(all.subrange(0, n as int) =~= all);
        }
    }
}

/// Relies on `Vec::shrink_to_fit`: it lowers the capacity and keeps the elements.
#[verifier::external_body]
fn shrink_vec<T>(v: &mut Vec<T>)
    ensures
        final(v)@ == old(v)@,
{
    v.shrink_to_fit()
}

} // verus!
