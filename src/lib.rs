use vstd::prelude::*;

pub mod aliasing;
pub mod counter;
pub mod epochs;
pub mod inner;
pub mod laws;
pub mod map;
pub mod predicate;
pub mod shallow_copy;
pub mod values;
pub mod write;

pub use aliasing::NoDrop;
pub use counter::CounterAddOp;
pub use inner::{Inner, Operation};
pub use map::{new, with_hasher, with_meta, MapWriteHandle, Options};
pub use predicate::Predicate;
pub use shallow_copy::{CopyValue, ShallowCopy};
pub use values::Values;
pub use write::{Absorb, WriteHandle};

verus! {

} // verus!
