use vstd::prelude::*;

use slab::Slab;

verus! {

#[verifier::external_type_specification]
#[verifier::external_body]
#[verifier::reject_recursive_types(T)]
pub struct ExSlab<T>(Slab<T>);

/// The reader slots of an epoch table and the epoch counter of each.
pub uninterp spec fn slab_epochs(s: Slab<u64>) -> Map<usize, u64>;

/// Relies on `Slab::new`: a new slab holds no entry.
#[verifier::external_body]
pub(crate) fn new_table() -> (r: Slab<u64>)
    ensures
        slab_epochs(r).dom().is_empty(),
{
    Slab::new()
}

/// Relies on `Slab::insert`: the value is stored under a key that was vacant, which is returned.
#[verifier::external_body]
pub(crate) fn insert_slot(s: &mut Slab<u64>, epoch: u64) -> (r: usize)
    ensures
        !slab_epochs(*old(s)).contains_key(r),
        slab_epochs(*final(s)) == slab_epochs(*old(s)).insert(r, epoch),
{
    s.insert(epoch)
}

/// Relies on `Slab::get`: the value stored under `key`, if any.
#[verifier::external_body]
pub(crate) fn slot_epoch(s: &Slab<u64>, key: usize) -> (r: Option<u64>)
    ensures
        r == (if slab_epochs(*s).contains_key(key) {
            Some(slab_epochs(*s)[key])
        } else {
            None
        }),
{
    s.get(key).copied()
}

/// Relies on `Slab`'s `IndexMut`: it reaches the value stored under an occupied key.
#[verifier::external_body]
pub(crate) fn set_slot(s: &mut Slab<u64>, key: usize, epoch: u64)
    requires
        slab_epochs(*old(s)).contains_key(key),
    ensures
        slab_epochs(*final(s)) == slab_epochs(*old(s)).insert(key, epoch),
{
    s[key] = epoch;
}

/// Relies on `Slab::try_remove`: it takes out the value under `key`, if there is one.
#[verifier::external_body]
pub(crate) fn remove_slot(s: &mut Slab<u64>, key: usize) -> (r: Option<u64>)
    ensures
        r == (if slab_epochs(*old(s)).contains_key(key) {
            Some(slab_epochs(*old(s))[key])
        } else {
            None
        }),
        slab_epochs(*final(s)) == slab_epochs(*old(s)).remove(key),
{
    s.try_remove(key)
}

/// Relies on `Slab::capacity`: keys are indices into the slab's storage, so each is below it.
#[verifier::external_body]
pub(crate) fn slot_bound(s: &Slab<u64>) -> (r: usize)
    ensures
        forall|k: usize| slab_epochs(*s).contains_key(k) ==> k < r,
{
    s.capacity()
}

} // verus!
