//! Taking the elements of a heap out in order.

use crate::heap::MinMaxHeap;
use crate::order::total_order;
use crate::outcome::{without_max, without_root};
use crate::shape::{is_heap, lower_bound, max_position, upper_bound};
use vstd::prelude::*;

verus! {

/// A draining iterator over the elements of the min-max-heap in
/// ascending (min-first) order.
///
/// Note that each `next()` and `next_back()` operation is
/// *O*(log *n*) time, so this currently provides no performance
/// advantage over `pop_min()` and `pop_max()`.
#[derive(Debug)]
pub struct DrainAsc<'a, T>(pub &'a mut MinMaxHeap<T>);

/// A draining iterator over the elements of the min-max-heap in
/// descending (max-first) order.
///
/// Note that each `next()` and `next_back()` operation is
/// *O*(log *n*) time, so this currently provides no performance
/// advantage over `pop_max()` and `pop_min()`.
#[derive(Debug)]
pub struct DrainDesc<'a, T>(pub &'a mut MinMaxHeap<T>);

impl<'a, T> DrainAsc<'a, T> {
    /// The elements still to come, in the order of the heap's array.
    pub open spec fn view(&self) -> Seq<T> {
        self.0@
    }

    /// Ends the draining: whatever has not been taken is dropped, and the
    /// heap is left empty.
    pub fn finish(self)
        ensures
            final(self.0)@ == Seq::<T>::empty(),
    {
        self.0.clear();
    }
}

impl<'a, T> DrainDesc<'a, T> {
    /// The elements still to come, in the order of the heap's array.
    pub open spec fn view(&self) -> Seq<T> {
        self.0@
    }

    /// Ends the draining: whatever has not been taken is dropped, and the
    /// heap is left empty.
    pub fn finish(self)
        ensures
            final(self.0)@ == Seq::<T>::empty(),
    {
        self.0.clear();
    }
}

impl<'a, T: Ord> DrainAsc<'a, T> {
    /// The smallest element still to come, if any.
    pub fn next(&mut self) -> (element: Option<T>)
        requires
            total_order::<T>(),
            is_heap(old(self)@),
        ensures
            is_heap(final(self)@),
            old(self)@.len() == 0 ==> element is None && final(self)@ == old(self)@,
            old(self)@.len() > 0 ==> {
                let least = old(self)@[0];
                &&& element == Some(least)
                &&& lower_bound(old(self)@, least)
                &&& final(self)@.len() == old(self)@.len() - 1
                &&& final(self)@.to_multiset() == old(self)@.to_multiset().remove(least)
            },
            final(self)@ == without_root(old(self)@),
            final(final(self).0)@ == final(old(self).0)@,
    {
        self.0.pop_min()
    }

    /// The greatest element still to come, if any.
    pub fn next_back(&mut self) -> (element: Option<T>)
        requires
            total_order::<T>(),
            is_heap(old(self)@),
        ensures
            is_heap(final(self)@),
            old(self)@.len() == 0 ==> element is None && final(self)@ == old(self)@,
            old(self)@.len() > 0 ==> {
                let top = old(self)@[max_position(old(self)@)];
                &&& element == Some(top)
                &&& upper_bound(old(self)@, top)
                &&& final(self)@.len() == old(self)@.len() - 1
                &&& final(self)@.to_multiset() == old(self)@.to_multiset().remove(top)
            },
            final(self)@ == without_max(old(self)@),
            final(final(self).0)@ == final(old(self).0)@,
    {
        self.0.pop_max()
    }

    /// How many elements are still to come, as a lower and an upper bound.
    pub fn size_hint(&self) -> (bounds: (usize, Option<usize>))
        ensures
            bounds.0 == self@.len(),
            bounds.1 == Some(bounds.0),
    {
        (self.len(), Some(self.len()))
    }

    /// How many elements are still to come.
    pub fn len(&self) -> (len: usize)
        ensures
            len == self@.len(),
    {
        self.0.len()
    }
}

impl<'a, T: Ord> DrainDesc<'a, T> {
    /// The greatest element still to come, if any.
    pub fn next(&mut self) -> (element: Option<T>)
        requires
            total_order::<T>(),
            is_heap(old(self)@),
        ensures
            is_heap(final(self)@),
            old(self)@.len() == 0 ==> element is None && final(self)@ == old(self)@,
            old(self)@.len() > 0 ==> {
                let top = old(self)@[max_position(old(self)@)];
                &&& element == Some(top)
                &&& upper_bound(old(self)@, top)
                &&& final(self)@.len() == old(self)@.len() - 1
                &&& final(self)@.to_multiset() == old(self)@.to_multiset().remove(top)
            },
            final(self)@ == without_max(old(self)@),
            final(final(self).0)@ == final(old(self).0)@,
    {
        self.0.pop_max()
    }

    /// The smallest element still to come, if any.
    pub fn next_back(&mut self) -> (element: Option<T>)
        requires
            total_order::<T>(),
            is_heap(old(self)@),
        ensures
            is_heap(final(self)@),
            old(self)@.len() == 0 ==> element is None && final(self)@ == old(self)@,
            old(self)@.len() > 0 ==> {
                let least = old(self)@[0];
                &&& element == Some(least)
                &&& lower_bound(old(self)@, least)
                &&& final(self)@.len() == old(self)@.len() - 1
                &&& final(self)@.to_multiset() == old(self)@.to_multiset().remove(least)
            },
            final(self)@ == without_root(old(self)@),
            final(final(self).0)@ == final(old(self).0)@,
    {
        self.0.pop_min()
    }

    /// How many elements are still to come, as a lower and an upper bound.
    pub fn size_hint(&self) -> (bounds: (usize, Option<usize>))
        ensures
            bounds.0 == self@.len(),
            bounds.1 == Some(bounds.0),
    {
        (self.len(), Some(self.len()))
    }

    /// How many elements are still to come.
    pub fn len(&self) -> (len: usize)
        ensures
            len == self@.len(),
    {
        self.0.len()
    }
}

} // verus!
