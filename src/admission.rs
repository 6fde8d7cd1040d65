//! A counting gate that bounds how many units of work run at once.

use vstd::prelude::*;

verus! {

/// A fixed pool of `capacity` slots, of which `held` are reserved.
pub struct Admission {
    capacity: usize,
    held: usize,
}

impl Admission {
    pub closed spec fn spec_capacity(&self) -> nat {
        self.capacity as nat
    }

    pub closed spec fn spec_held(&self) -> nat {
        self.held as nat
    }

    /// The pool has at least one slot, and never more reservations than slots.
    pub open spec fn wf(&self) -> bool {
        &&& 1 <= self.spec_capacity()
        &&& self.spec_held() <= self.spec_capacity()
    }

    /// A pool of `capacity` free slots.
    pub fn new(capacity: usize) -> (r: Admission)
        requires
            capacity >= 1,
        ensures
            r.wf(),
            r.spec_capacity() == capacity,
            r.spec_held() == 0,
    {
        Admission { capacity, held: 0 }
    }

    pub fn capacity(&self) -> (r: usize)
        ensures
            r == self.spec_capacity(),
    {
        self.capacity
    }

    pub fn held(&self) -> (r: usize)
        ensures
            r == self.spec_held(),
    {
        self.held
    }

    /// Reserves a slot when one is free; reports whether it did.
    pub fn try_acquire(&mut self) -> (r: bool)
        requires
            old(self).wf(),
        ensures
            final(self).wf(),
            r == (old(self).spec_held() < old(self).spec_capacity()),
            final(self).spec_capacity() == old(self).spec_capacity(),
            final(self).spec_held() == old(self).spec_held() + if r { 1nat } else { 0nat },
    {
        if self.held < self.capacity {
            self.held = self.held + 1;
            true
        } else {
            false
        }
    }

    /// Returns one reserved slot to the pool.
    pub fn release(&mut self)
        requires
            old(self).wf(),
            old(self).spec_held() > 0,
        ensures
            final(self).wf(),
            final(self).spec_capacity() == old(self).spec_capacity(),
            final(self).spec_held() + 1 == old(self).spec_held(),
    {
        self.held = self.held - 1;
    }
}

} // verus!
