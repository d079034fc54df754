//! A cell giving exclusive access to its value on a single processor.
use vstd::prelude::*;

verus! {

/// Holds a value that the kernel reaches from one place at a time.
pub struct UpSafeCell<T> {
    inner: T,
}

impl<T> UpSafeCell<T> {
    /// The value held.
    pub closed spec fn value(&self) -> T {
        self.inner
    }

    /// A cell holding `value`.
    pub fn new(value: T) -> (c: UpSafeCell<T>)
        ensures
            c.value() == value,
    {
        UpSafeCell { inner: value }
    }

    /// Exclusive access to the value held: what is written through the
    /// reference is what the cell holds afterwards.
    pub fn exclusive_access(&mut self) -> (r: &mut T)
        ensures
            *r == old(self).value(),
            final(self).value() == *final(r),
    {
        &mut self.inner
    }
}

} // verus!
