use vstd::prelude::*;

verus! {

/// Values that can be duplicated cheaply, so that both copies of the map can hold the same value.
///
/// A shallow copy is equal to the value it was taken from. The map keeps one copy in each of its
/// two halves and hands each half its own copy.
pub trait ShallowCopy: Sized {
    fn shallow_copy(&self) -> (r: Self)
        ensures
            r == *self,
    ;
}

impl ShallowCopy for () {
    fn shallow_copy(&self) -> (r: Self) {
        ()
    }
}

impl ShallowCopy for bool {
    fn shallow_copy(&self) -> (r: Self) {
        *self
    }
}

impl ShallowCopy for char {
    fn shallow_copy(&self) -> (r: Self) {
        *self
    }
}

impl ShallowCopy for u8 {
    fn shallow_copy(&self) -> (r: Self) {
        *self
    }
}

impl ShallowCopy for u16 {
    fn shallow_copy(&self) -> (r: Self) {
        *self
    }
}

impl ShallowCopy for u32 {
    fn shallow_copy(&self) -> (r: Self) {
        *self
    }
}

impl ShallowCopy for u64 {
    fn shallow_copy(&self) -> (r: Self) {
        *self
    }
}

impl ShallowCopy for u128 {
    fn shallow_copy(&self) -> (r: Self) {
        *self
    }
}

impl ShallowCopy for usize {
    fn shallow_copy(&self) -> (r: Self) {
        *self
    }
}

impl ShallowCopy for i8 {
    fn shallow_copy(&self) -> (r: Self) {
        *self
    }
}

impl ShallowCopy for i16 {
    fn shallow_copy(&self) -> (r: Self) {
        *self
    }
}

impl ShallowCopy for i32 {
    fn shallow_copy(&self) -> (r: Self) {
        *self
    }
}

impl ShallowCopy for i64 {
    fn shallow_copy(&self) -> (r: Self) {
        *self
    }
}

impl ShallowCopy for i128 {
    fn shallow_copy(&self) -> (r: Self) {
        *self
    }
}

impl ShallowCopy for isize {
    fn shallow_copy(&self) -> (r: Self) {
        *self
    }
}

impl<'a, T> ShallowCopy for &'a T {
    fn shallow_copy(&self) -> (r: Self) {
        *self
    }
}

impl<T: ShallowCopy> ShallowCopy for Option<T> {
    fn shallow_copy(&self) -> (r: Self) {
        match self {
            Some(value) => Some(value.shallow_copy()),
            None => None,
        }
    }
}

impl<A: ShallowCopy, B: ShallowCopy> ShallowCopy for (A, B) {
    fn shallow_copy(&self) -> (r: Self) {
        (self.0.shallow_copy(), self.1.shallow_copy())
    }
}

impl<A: ShallowCopy, B: ShallowCopy, C: ShallowCopy> ShallowCopy for (A, B, C) {
    fn shallow_copy(&self) -> (r: Self) {
        (self.0.shallow_copy(), self.1.shallow_copy(), self.2.shallow_copy())
    }
}

/// A value that is really copied into each half of the map instead of being aliased.
#[derive(Clone, Copy, Debug, Hash, Eq, PartialEq, Ord, PartialOrd, Default)]
pub struct CopyValue<T>(T);

impl<T> CopyValue<T> {
    /// The wrapped value.
    pub closed spec fn value(self) -> T {
        self.0
    }
}

impl<T: Copy> CopyValue<T> {
    /// Wraps a value.
    pub fn from(t: T) -> (r: CopyValue<T>)
        ensures
            r.value() == t,
    {
        CopyValue(t)
    }

    /// The wrapped value.
    pub fn get(&self) -> (r: T)
        ensures
            r == self.value(),
    {
        self.0
    }
}

impl<T: Copy> ShallowCopy for CopyValue<T> {
    fn shallow_copy(&self) -> (r: Self) {
        CopyValue(self.0)
    }
}

} // verus!
