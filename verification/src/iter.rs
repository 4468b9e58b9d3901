//! Going through the elements of a heap in the order of its array.

use crate::heap::MinMaxHeap;
use vstd::prelude::*;

verus! {

/// A borrowed iterator over the elements of the min-max-heap in
/// arbitrary order.
pub struct Iter<'a, T: 'a> {
    pub elements: &'a [T],
    pub next: usize,
}

/// An owning iterator over the elements of the min-max-heap in
/// arbitrary order.
///
/// The elements still to come are held last first, so that the next one
/// can be taken from the end.
pub struct IntoIter<T>(pub Vec<T>);

/// A draining iterator over the elements of the min-max-heap in
/// arbitrary order.
///
/// While it lives, the heap's array holds the elements still to come,
/// last first.
pub struct Drain<'a, T: 'a>(pub &'a mut MinMaxHeap<T>);

/// Turns the elements of `array` round in place.
fn reverse<T>(array: &mut Vec<T>)
    ensures
        final(array)@ == old(array)@.reverse(),
{
    let len = array.len();
    let mut i: usize = 0;
    while i < len / 2
        invariant
            len == array@.len(),
            array@.len() == old(array)@.len(),
            i <= len / 2,
            forall|k: int| 0 <= k < i ==> array@[k] == old(array)@[len - 1 - k],
            forall|k: int| 0 <= k < i ==> array@[len - 1 - k] == old(array)@[k],
            forall|k: int| i <= k < len - i ==> array@[k] == old(array)@[k],
        decreases len / 2 - i,
    {
        array.as_mut_slice().swap(i, len - 1 - i);
        i = i + 1;
    }
    assert(array@ =~= old(array)@.reverse());
}

impl<T> MinMaxHeap<T> {
    /// Returns a borrowing iterator over the min-max-heap's elements in
    /// arbitrary order.
    ///
    /// *O*(1) on creation, and *O*(1) for each `next()` operation.
    pub fn iter(&self) -> (iter: Iter<'_, T>)
        ensures
            iter.wf(),
            iter@ == self@,
    {
        Iter { elements: self.storage().as_slice(), next: 0 }
    }

    /// Returns an owning iterator over the min-max-heap's elements in
    /// arbitrary order.
    ///
    /// *O*(*n*) on creation, and *O*(1) for each `next()` operation.
    pub fn into_iter(self) -> (iter: IntoIter<T>)
        ensures
            iter@ == self@,
    {
        let mut elements = self.into_vec();
        reverse(&mut elements);
        proof {
            assert(elements@.reverse() =~= self@);
        }
        IntoIter(elements)
    }

    /// Returns a draining iterator over the min-max-heap's elements in
    /// arbitrary order.
    ///
    /// *O*(*n*) on creation, and *O*(1) for each `next()` operation.
    pub fn drain(&mut self) -> (drain: Drain<'_, T>)
        ensures
            drain@ == old(self)@,
            *final(drain.0) == *final(self),
    {
        reverse(self.storage_mut());
        proof {
            assert(self@.reverse() =~= old(self)@);
        }
        Drain(self)
    }
}

impl<'a, T> Iter<'a, T> {
    /// The elements still to come, the next one first.
    pub open spec fn view(&self) -> Seq<T> {
        self.elements@.subrange(self.next as int, self.elements@.len() as int)
    }

    /// The mark of what comes next is within the elements.
    pub open spec fn wf(&self) -> bool {
        self.next <= self.elements@.len()
    }

    /// The next element, if any is left.
    pub fn next(&mut self) -> (item: Option<&'a T>)
        requires
            old(self).wf(),
        ensures
            final(self).wf(),
            old(self)@.len() == 0 ==> item is None && final(self)@ == old(self)@,
            old(self)@.len() > 0 ==> {
                &&& item == Some(&old(self)@[0])
                &&& final(self)@ == old(self)@.drop_first()
            },
    {
        if self.next < self.elements.len() {
            let item = &self.elements[self.next];
            self.next = self.next + 1;
            proof {
                assert(self@ =~= old(self)@.drop_first());
            }
            Some(item)
        } else {
            None
        }
    }

    /// How many elements are still to come, as a lower and an upper bound.
    pub fn size_hint(&self) -> (bounds: (usize, Option<usize>))
        requires
            self.wf(),
        ensures
            bounds.0 == self@.len(),
            bounds.1 == Some(bounds.0),
    {
        let left = self.elements.len() - self.next;
        (left, Some(left))
    }
}

impl<T> IntoIter<T> {
    /// The elements still to come, the next one first.
    pub open spec fn view(&self) -> Seq<T> {
        self.0@.reverse()
    }

    /// The next element, if any is left.
    pub fn next(&mut self) -> (item: Option<T>)
        ensures
            old(self)@.len() == 0 ==> item is None && final(self)@ == old(self)@,
            old(self)@.len() > 0 ==> {
                &&& item == Some(old(self)@[0])
                &&& final(self)@ == old(self)@.drop_first()
            },
    {
        let item = self.0.pop();
        proof {
            if old(self)@.len() > 0 {
                assert(self@ =~= old(self)@.drop_first());
            }
        }
        item
    }

    /// How many elements are still to come, as a lower and an upper bound.
    pub fn size_hint(&self) -> (bounds: (usize, Option<usize>))
        ensures
            bounds.0 == self@.len(),
            bounds.1 == Some(bounds.0),
    {
        (self.0.len(), Some(self.0.len()))
    }
}

impl<'a, T> Drain<'a, T> {
    /// The elements still to come, the next one first.
    pub open spec fn view(&self) -> Seq<T> {
        self.0@.reverse()
    }

    /// The next element, if any is left.
    pub fn next(&mut self) -> (item: Option<T>)
        ensures
            old(self)@.len() == 0 ==> item is None && final(self)@ == old(self)@,
            old(self)@.len() > 0 ==> {
                &&& item == Some(old(self)@[0])
                &&& final(self)@ == old(self)@.drop_first()
            },
            final(final(self).0)@ == final(old(self).0)@,
    {
        let item = self.0.storage_mut().pop();
        proof {
            if old(self)@.len() > 0 {
                assert(self@ =~= old(self)@.drop_first());
            }
        }
        item
    }

    /// How many elements are still to come, as a lower and an upper bound.
    pub fn size_hint(&self) -> (bounds: (usize, Option<usize>))
        ensures
            bounds.0 == self@.len(),
            bounds.1 == Some(bounds.0),
    {
        (self.0.len(), Some(self.0.len()))
    }

    /// Ends the draining: whatever has not been taken is dropped, and the
    /// heap is left empty.
    pub fn finish(self)
        ensures
            final(self.0)@ == Seq::<T>::empty(),
    {
        self.0.clear();
    }
}

} // verus!
