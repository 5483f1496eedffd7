use vstd::prelude::*;

use crate::shallow_copy::ShallowCopy;

verus! {

/// Drop-behaviour tag of an alias that must not run the value's destructor.
pub struct NoDrop;

/// Drop-behaviour tag of the one alias that owns the value.
pub(crate) struct DoDrop;

/// Tells whether an alias tagged with `Self` releases the value it refers to.
pub trait DropBehavior {
    spec fn drops() -> bool;

    fn do_drop() -> (r: bool)
        ensures
            r == Self::drops(),
    ;
}

impl DropBehavior for NoDrop {
    open spec fn drops() -> bool {
        false
    }

    fn do_drop() -> (r: bool) {
        false
    }
}

impl DropBehavior for DoDrop {
    open spec fn drops() -> bool {
        true
    }

    fn do_drop() -> (r: bool) {
        true
    }
}

} // verus!

verus! {

/// A value held in one half of the map, tagged with whether releasing this alias releases the
/// value.
///
/// Values enter the map as `Aliased<V, NoDrop>`; only the alias that leaves the map for good is
/// turned into an `Aliased<V, DoDrop>`.
pub struct Aliased<V, D> {
    aliased: V,
    behavior: D,
}

impl<V, D> View for Aliased<V, D> {
    type V = V;

    closed spec fn view(&self) -> V {
        self.aliased
    }
}

impl<V, D> Aliased<V, D> {
    /// The value behind the alias.
    pub fn get(&self) -> (r: &V)
        ensures
            *r == self@,
    {
        &self.aliased
    }
}

impl<V: ShallowCopy> Aliased<V, NoDrop> {
    /// A second alias of the same value, which does not release it.
    pub fn alias(&self) -> (r: Aliased<V, NoDrop>)
        ensures
            r@ == self@,
    {
        Aliased { aliased: self.aliased.shallow_copy(), behavior: NoDrop }
    }
}

impl<V> Aliased<V, NoDrop> {
    /// Takes in a value; the new alias does not release it.
    pub fn from(aliased: V) -> (r: Aliased<V, NoDrop>)
        ensures
            r@ == aliased,
    {
        Aliased { aliased, behavior: NoDrop }
    }

    /// Turns the last alias of a value into the one that releases it.
    pub(crate) fn dropping(self) -> (r: Aliased<V, DoDrop>)
        ensures
            r@ == self@,
    {
        Aliased { aliased: self.aliased, behavior: DoDrop }
    }
}

impl<V> Aliased<V, DoDrop> {
    /// Gives back the value owned by the releasing alias.
    pub(crate) fn into_inner(self) -> (r: V)
        ensures
            r == self@,
    {
        self.aliased
    }
}

/// Releases a value through its last alias.
pub(crate) fn release<V>(last: Aliased<V, NoDrop>) {
    let owner = last.dropping();
    let _value = owner.into_inner();
}

} // verus!
