use vstd::prelude::*;

verus! {

/// A test that decides which values of a bag are retained.
///
/// The test is called with a value and a flag that is `true` on the first of the two passes (one
/// per half of the map) and `false` on the second.
pub struct Predicate<F>(pub F);

/// `f` may be called on every value, and its answer depends on the value alone, so that both
/// halves of the map keep the same values.
pub open spec fn decides<V, F: Fn(&V, bool) -> bool>(f: F) -> bool {
    &&& forall|v: V, first: bool| call_requires(f, (&v, first))
    &&& forall|v: V, a: bool, b: bool, r: bool, s: bool|
        call_ensures(f, (&v, a), r) && call_ensures(f, (&v, b), s) ==> r == s
}

/// `f` answers `true` for `v`.
pub open spec fn keeps<V, F: Fn(&V, bool) -> bool>(f: F, v: V) -> bool {
    exists|first: bool| call_ensures(f, (&v, first), true)
}

impl<F> Predicate<F> {
    /// Calls the test on one value.
    pub fn eval<V>(&self, value: &V, reset: bool) -> (r: bool) where F: Fn(&V, bool) -> bool
        requires
            call_requires(self.0, (value, reset)),
        ensures
            call_ensures(self.0, (value, reset), r),
    {
        (self.0)(value, reset)
    }
}

/// For a test that decides by the value alone, one answer tells whether it keeps the value.
pub proof fn lemma_answer_keeps<V, F: Fn(&V, bool) -> bool>(f: F, v: V, first: bool, r: bool)
    requires
        decides::<V, F>(f),
        call_ensures(f, (&v, first), r),
    ensures
        r == keeps::<V, F>(f, v),
{
    if !r && keeps::<V, F>(f, v) {
        let b = choose|b: bool| call_ensures(f, (&v, b), true);
        assert(call_ensures(f, (&v, b), true));
    }
}

} // verus!
