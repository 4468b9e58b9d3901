//! Handles on the two extremes of a heap, through which they can be
//! written.

use crate::heap::MinMaxHeap;
use crate::hole::Hole;
use crate::order::{less, total_order};
use crate::outcome::{settled_from, without_max, without_root};
use crate::shape::{
    heap_around, heap_below, in_place, is_heap, lemma_levels_around, lemma_root_fixed,
    lemma_root_rewritten, lemma_slot_rewritten, lemma_swapped_contents, max_position,
};
use crate::walk::trickled;
use vstd::prelude::*;

verus! {

/// The text that starts with `name` and goes on with `shown` between an
/// opening and a closing round bracket.
pub open spec fn bracketed(name: Seq<char>, shown: Seq<char>) -> Seq<char> {
    name + seq!['('] + shown + seq![')']
}


/// A handle on the minimum element of a heap, through which the element
/// can be read, written or removed.
///
/// Writing through the handle may leave the element out of place;
/// [`PeekMinMut::commit`] puts the heap in order again.
pub struct PeekMinMut<'a, T: Ord> {
    pub heap: &'a mut MinMaxHeap<T>,
    pub sift: bool,
}

impl<'a, T: Ord> PeekMinMut<'a, T> {
    /// The heap has a first element, and all but that element are in
    /// place; so is that element, unless it was handed out for writing.
    pub open spec fn wf(&self) -> bool {
        &&& self.heap@.len() > 0
        &&& heap_below(self.heap@, 0, 0)
        &&& !self.sift ==> is_heap(self.heap@)
    }

    /// The elements of the heap, in the order of its array.
    pub open spec fn view(&self) -> Seq<T> {
        self.heap@
    }

    /// The peeked element.
    pub fn deref(&self) -> (element: &T)
        requires
            self.wf(),
        ensures
            *element == self@[0],
    {
        &self.heap.storage()[0]
    }

    /// The peeked element, for writing.
    pub fn deref_mut(&mut self) -> (element: &mut T)
        requires
            old(self).wf(),
        ensures
            *element == old(self).heap@[0],
            final(self).sift,
            final(self).heap@ == old(self).heap@.update(0, *final(element)),
            final(self).wf(),
            final(final(self).heap)@ == final(old(self).heap)@,
    {
        proof {
            lemma_root_rewritten(self.heap@);
        }
        self.sift = true;
        &mut self.heap.storage_mut()[0]
    }
}

impl<'a, T: Ord + core::fmt::Debug> PeekMinMut<'a, T> {
    /// The handle as a debugging text: its name, and in round brackets
    /// the peeked element as `Debug` shows it.
    pub fn debug_string(&self) -> (text: String)
        requires
            self.wf(),
        ensures
            exists|shown: Seq<char>| text@ == #[trigger] bracketed("PeekMinMut"@, shown),
    {
        debug_tuple("PeekMinMut", self.deref())
    }
}

impl<'a, T: Ord + core::fmt::Debug> PeekMaxMut<'a, T> {
    /// The handle as a debugging text: its name, and in round brackets
    /// the peeked element as `Debug` shows it.
    pub fn debug_string(&self) -> (text: String)
        requires
            self.wf(),
        ensures
            exists|shown: Seq<char>| text@ == #[trigger] bracketed("PeekMaxMut"@, shown),
    {
        debug_tuple("PeekMaxMut", self.deref())
    }
}

impl<'a, T: Ord> PeekMinMut<'a, T> {
    /// Ends the peek: where the element was handed out for writing, walks
    /// it down to its place.
    pub fn commit(self)
        requires
            total_order::<T>(),
            self.wf(),
        ensures
            final(self.heap).wf(),
            final(self.heap)@.len() == self@.len(),
            final(self.heap)@.to_multiset() == self@.to_multiset(),
            !self.sift ==> final(self.heap)@ == self@,
            self.sift ==> final(self.heap)@ == trickled(self@, true, 0),
    {
        if self.sift {
            self.heap.trickle_down_min(0);
        }
    }

    /// Removes the peeked value from the heap and returns it.
    pub fn pop(self) -> (element: T)
        requires
            total_order::<T>(),
            self.wf(),
        ensures
            element == self@[0],
            final(self.heap).wf(),
            final(self.heap)@.len() == self@.len() - 1,
            final(self.heap)@.to_multiset() == self@.to_multiset().remove(self@[0]),
            final(self.heap)@ == without_root(self@),
    {
        self.heap.pop_root().unwrap()
    }
}

/// A handle on the maximum element of a heap, through which the element
/// can be read, written or removed.
///
/// Writing through the handle may leave the element out of place;
/// [`PeekMaxMut::commit`] puts the heap in order again.
pub struct PeekMaxMut<'a, T: Ord> {
    pub heap: &'a mut MinMaxHeap<T>,
    pub max_index: usize,
    pub sift: bool,
}

impl<'a, T: Ord> PeekMaxMut<'a, T> {
    /// The elements of the heap, in the order of its array.
    pub open spec fn view(&self) -> Seq<T> {
        self.heap@
    }

    /// The handle is on the root of a heap of one, or on a child of the
    /// root, and all but the element there are in place; so is that
    /// element, which is the maximum, unless it was handed out for
    /// writing.
    pub open spec fn wf(&self) -> bool {
        &&& self.max_index < self.heap@.len()
        &&& self.max_index <= 2
        &&& self.max_index == 0 ==> self.heap@.len() == 1
        &&& heap_around(self.heap@, self.max_index as int)
        &&& !self.sift ==> is_heap(self.heap@) && self.max_index == max_position(self.heap@)
    }

    /// The peeked element.
    pub fn deref(&self) -> (element: &T)
        requires
            self.wf(),
        ensures
            *element == self@[self.max_index as int],
    {
        &self.heap.storage()[self.max_index]
    }

    /// The peeked element, for writing.
    pub fn deref_mut(&mut self) -> (element: &mut T)
        requires
            old(self).wf(),
        ensures
            *element == old(self).heap@[old(self).max_index as int],
            final(self).sift,
            final(self).max_index == old(self).max_index,
            final(self).heap@ == old(self).heap@.update(
                old(self).max_index as int,
                *final(element),
            ),
            final(self).wf(),
            final(final(self).heap)@ == final(old(self).heap)@,
    {
        proof {
            lemma_slot_rewritten(self.heap@, self.max_index as int);
        }
        self.sift = true;
        &mut self.heap.storage_mut()[self.max_index]
    }
}

impl<'a, T: Ord> PeekMaxMut<'a, T> {
    /// Ends the peek: where the element was handed out for writing, lets
    /// it change places with the root if it is smaller, and walks it down
    /// to its place.
    pub fn commit(self)
        requires
            total_order::<T>(),
            self.wf(),
        ensures
            final(self.heap).wf(),
            final(self.heap)@.len() == self@.len(),
            final(self.heap)@.to_multiset() == self@.to_multiset(),
            !self.sift ==> final(self.heap)@ == self@,
            self.sift ==> final(self.heap)@ == settled_from(self@, self.max_index as int),
    {
        if self.sift {
            let ghost written = self.heap@;
            let mut hole = Hole::new(self.heap.storage_mut().as_mut_slice(), self.max_index);
            match hole.get_parent() {
                Some(mut parent) => {
                    if less(parent.hole_element(), parent.other_element()) {
                        proof {
                            lemma_swapped_contents(written, self.max_index as int, 0);
                        }
                        parent.swap_with();
                    }
                },
                None => {},
            }
            proof {
                lemma_root_fixed(written, hole@, self.max_index as int);
                lemma_levels_around(0);
            }
            hole.trickle_down_max();
            proof {
                if self.max_index == 0 {
                    assert forall|d: int| 0 <= d < hole@.len() implies #[trigger] in_place(
                        hole@,
                        d,
                    ) by {}
                }
            }
        }
    }

    /// Removes the peeked value from the heap and returns it.
    ///
    /// What is removed is the element at `max_position`, with no regard
    /// to what was written through the handle: after a write that may be
    /// another element than the peeked one, and the heap may be left out
    /// of order.
    pub fn pop(self) -> (element: T)
        requires
            total_order::<T>(),
            self.wf(),
        ensures
            element == self@[max_position(self@)],
            final(self.heap)@.len() == self@.len() - 1,
            final(self.heap)@.to_multiset() == self@.to_multiset().remove(element),
            final(self.heap)@ == without_max(self@),
            !self.sift ==> final(self.heap).wf() && element == self@[self.max_index as int],
    {
        self.heap.pop_top().unwrap()
    }
}

/// Writes `name`, an opening round bracket, `element` as its `Debug`
/// shows it, and a closing round bracket, with `format!`: the name through
/// `{}`, which copies a string as it is, the element through `{:?}`. What
/// `Debug` shows of the element is the element type's own affair, and
/// nothing is claimed of it.
#[verifier::external_body]
fn debug_tuple<T: core::fmt::Debug>(name: &str, element: &T) -> (text: String)
    ensures
        exists|shown: Seq<char>| text@ == #[trigger] bracketed(name@, shown),
{
    format!("{}({:?})", name, element)
}

} // verus!
