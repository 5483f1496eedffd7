use vstd::prelude::*;

use crate::write::Absorb;

verus! {

/// An operation that adds a number to an `i32` counter, wrapping on overflow.
pub struct CounterAddOp(pub i32);

impl Absorb<CounterAddOp> for i32 {
    open spec fn absorbed(state: i32, op: CounterAddOp) -> i32 {
        state.wrapping_add(op.0)
    }

    open spec fn accepts(op: CounterAddOp) -> bool {
        true
    }

    open spec fn wf(&self) -> bool {
        true
    }

    open spec fn setup_kept(before: i32, after: i32) -> bool {
        true
    }

    fn absorb_first(&mut self, operation: &CounterAddOp, other: &Self) {
        *self = self.wrapping_add(operation.0);
    }

    fn absorb_second(&mut self, operation: CounterAddOp, other: &Self) {
        *self = self.wrapping_add(operation.0);
    }

    fn sync_with(&mut self, first: &Self) {
        *self = *first;
    }
}

} // verus!
