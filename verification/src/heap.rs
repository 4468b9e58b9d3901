//! The double-ended priority queue.

use crate::drain::{DrainAsc, DrainDesc};
use crate::hole::Hole;
use crate::index::min_level;
use crate::order::{greater, le, lemma_order_laws, less, lt, total_order};
use crate::outcome::{
    heapified, heapified_from, pushed, settled_from, with_max_replaced, with_root_replaced,
    without_max, without_root,
};
use crate::peek::{PeekMaxMut, PeekMinMut};
use crate::shape::{
    ascending, bridged, descending, heap_below, heap_from, heap_prefix, in_place, in_place_from,
    is_heap, lemma_bounds_of_contents, lemma_heap_bounds, lemma_heap_from_start,
    lemma_heap_prefix_taken, lemma_heap_with_hole, lemma_levels_around, lemma_replaced_contents,
    lemma_rest_contents, lemma_smaller_root, lemma_takeout_contents, lower_bound, max_position,
    swapped, upper_bound,
};
use crate::sorting::{
    lemma_sort_step_done, lemma_sort_step_ready, lemma_sorted_at_last, settled_tail, sorted,
    sorted_from,
};
use crate::walk::{bubbled, trickled};
use vstd::prelude::*;

verus! {

/// Calls `Vec::capacity`, which tells how many elements the vector can
/// hold without allocating again: never fewer than it holds.
#[verifier::external_body]
fn vec_capacity<T>(vec: &Vec<T>) -> (capacity: usize)
    ensures
        capacity >= vec@.len(),
{
    vec.capacity()
}

/// Calls `Vec::reserve_exact`, which makes room for `additional` more
/// elements and leaves the elements as they are. It panics where the
/// capacity asked for does not fit in `usize`, or its size in bytes not in
/// `isize`; the precondition rules both out.
#[verifier::external_body]
fn vec_reserve_exact<T>(vec: &mut Vec<T>, additional: usize)
    requires
        old(vec)@.len() + additional <= usize::MAX,
        (old(vec)@.len() + additional) * vstd::layout::size_of::<T>() <= isize::MAX,
    ensures
        final(vec)@ == old(vec)@,
{
    vec.reserve_exact(additional)
}

/// Calls `Vec::shrink_to_fit`, which gives up room that is not used and
/// leaves the elements as they are.
#[verifier::external_body]
fn vec_shrink_to_fit<T>(vec: &mut Vec<T>)
    ensures
        final(vec)@ == old(vec)@,
{
    vec.shrink_to_fit()
}

/// A double-ended priority queue.
///
/// Most operations are *O*(log *n*).
#[derive(Clone, Debug)]
pub struct MinMaxHeap<T>(Vec<T>);

impl<T> Default for MinMaxHeap<T> {
    fn default() -> (heap: Self)
        ensures
            heap@ == Seq::<T>::empty(),
    {
        MinMaxHeap::new()
    }
}

impl<T> View for MinMaxHeap<T> {
    type V = Seq<T>;

    /// The elements in the order in which the array holds them.
    closed spec fn view(&self) -> Seq<T> {
        self.0@
    }
}

impl<T> MinMaxHeap<T> {
    /// Creates a new, empty `MinMaxHeap`.
    ///
    /// *O*(1).
    pub fn new() -> (heap: Self)
        ensures
            heap@ == Seq::<T>::empty(),
    {
        MinMaxHeap(Vec::new())
    }

    /// Creates a new, empty `MinMaxHeap` with space allocated to hold
    /// `len` elements.
    ///
    /// *O*(n).
    pub fn with_capacity(len: usize) -> (heap: Self)
        requires
            len * vstd::layout::size_of::<T>() <= isize::MAX,
        ensures
            heap@ == Seq::<T>::empty(),
    {
        MinMaxHeap(Vec::with_capacity(len))
    }

    /// The number of elements in the heap.
    ///
    /// *O*(1).
    pub fn len(&self) -> (len: usize)
        ensures
            len == self@.len(),
    {
        self.0.len()
    }

    /// Is the heap empty?
    ///
    /// *O*(1).
    pub fn is_empty(&self) -> (empty: bool)
        ensures
            empty == (self@.len() == 0),
    {
        self.0.is_empty()
    }

    /// Drops all items from the heap.
    ///
    /// *O*(*n*)
    pub fn clear(&mut self)
        ensures
            final(self)@ == Seq::<T>::empty(),
    {
        self.0.clear();
    }

    /// The number of elements the heap can hold without reallocating.
    ///
    /// *O*(1)
    pub fn capacity(&self) -> (capacity: usize)
        ensures
            capacity >= self@.len(),
    {
        vec_capacity(&self.0)
    }

    /// Reserves the minimum capacity for exactly `additional` more
    /// elements to be inserted in the given `MinMaxHeap`.
    ///
    /// *O*(*n*)
    pub fn reserve_exact(&mut self, additional: usize)
        requires
            old(self)@.len() + additional <= usize::MAX,
            (old(self)@.len() + additional) * vstd::layout::size_of::<T>() <= isize::MAX,
        ensures
            final(self)@ == old(self)@,
    {
        vec_reserve_exact(&mut self.0, additional)
    }

    /// Reserves the minimum capacity for at least `additional` more
    /// elements to be inserted in the given `MinMaxHeap`.
    ///
    /// *O*(*n*)
    pub fn reserve(&mut self, additional: usize)
        requires
            old(self)@.len() + additional <= usize::MAX,
            (old(self)@.len() + additional) * vstd::layout::size_of::<T>() <= isize::MAX,
        ensures
            final(self)@ == old(self)@,
    {
        self.0.reserve(additional)
    }

    /// Discards extra capacity.
    ///
    /// *O*(*n*)
    pub fn shrink_to_fit(&mut self)
        ensures
            final(self)@ == old(self)@,
    {
        vec_shrink_to_fit(&mut self.0)
    }

    /// Returns a draining iterator over the min-max-heap's elements in
    /// ascending (min-first) order.
    ///
    /// *O*(1) on creation, and *O*(log *n*) for each `next()` operation.
    pub fn drain_asc(&mut self) -> (drain: DrainAsc<'_, T>)
        ensures
            *drain.0 == *old(self),
            *final(drain.0) == *final(self),
    {
        DrainAsc(self)
    }

    /// Returns a draining iterator over the min-max-heap's elements in
    /// descending (max-first) order.
    ///
    /// *O*(1) on creation, and *O*(log *n*) for each `next()` operation.
    pub fn drain_desc(&mut self) -> (drain: DrainDesc<'_, T>)
        ensures
            *drain.0 == *old(self),
            *final(drain.0) == *final(self),
    {
        DrainDesc(self)
    }

    /// The array of the heap.
    pub(crate) fn storage(&self) -> (array: &Vec<T>)
        ensures
            array@ == self@,
    {
        &self.0
    }

    /// The array of the heap, for writing.
    pub(crate) fn storage_mut(&mut self) -> (array: &mut Vec<T>)
        ensures
            array@ == old(self)@,
            final(self)@ == final(array)@,
    {
        &mut self.0
    }

    /// Consumes the `MinMaxHeap` and returns its elements in a vector
    /// in arbitrary order.
    ///
    /// *O*(*n*)
    pub fn into_vec(self) -> (elements: Vec<T>)
        ensures
            elements@ == self@,
    {
        self.0
    }
}

impl<T: Ord> MinMaxHeap<T> {
    /// The elements are arranged as a min-max heap.
    pub open spec fn wf(&self) -> bool {
        is_heap(self@)
    }

    /// What `peek_min` tells: the element at the root, if there is one.
    pub open spec fn smallest(&self) -> Option<&T> {
        if self@.len() == 0 {
            None
        } else {
            Some(&self@[0])
        }
    }

    /// What `peek_max` tells: the element at `max_position`, if there is
    /// any element.
    pub open spec fn greatest(&self) -> Option<&T> {
        if self@.len() == 0 {
            None
        } else {
            Some(&self@[max_position(self@)])
        }
    }

    /// Adds an element to the heap.
    ///
    /// Amortized *O*(log *n*); worst-case *O*(*n*) when the backing vector needs to
    /// grow.
    pub fn push(&mut self, element: T)
        requires
            total_order::<T>(),
            old(self).wf(),
        ensures
            final(self).wf(),
            final(self)@.len() == old(self)@.len() + 1,
            final(self)@.to_multiset() == old(self)@.to_multiset().insert(element),
            final(self)@ == pushed(old(self)@, element),
    {
        let pos = self.len();
        self.0.push(element);
        proof {
            broadcast use vstd::seq_lib::to_multiset_build;

            assert forall|d: int| 0 <= d < pos implies #[trigger] in_place(self@, d) by {
                assert(in_place(old(self)@, d));
            }
        }
        self.bubble_up(pos);
    }

    /// Gets a reference to the minimum element, if any.
    ///
    /// *O*(1).
    pub fn peek_min(&self) -> (min: Option<&T>)
        requires
            total_order::<T>(),
            self.wf(),
        ensures
            min == self.smallest(),
            self@.len() > 0 ==> lower_bound(self@, self@[0]),
    {
        proof {
            if self@.len() > 0 {
                lemma_heap_bounds(self@);
            }
        }
        self.0.as_slice().first()
    }

    /// Returns a handle on the minimum element, if any, through which it
    /// can be written. Once the handle is committed, the heap is adjusted
    /// if necessary.
    ///
    /// *O*(1) for the peek; *O*(log *n*) when the handle is committed.
    pub fn peek_min_mut(&mut self) -> (peek: Option<PeekMinMut<'_, T>>)
        requires
            old(self).wf(),
        ensures
            old(self)@.len() == 0 ==> peek is None && *final(self) == *old(self),
            old(self)@.len() > 0 ==> peek is Some && peek.unwrap().wf() && !peek.unwrap().sift
                && *peek.unwrap().heap == *old(self) && *final(peek.unwrap().heap) == *final(self),
    {
        if self.is_empty() {
            None
        } else {
            proof {
                lemma_heap_with_hole(self@, 0);
            }
            Some(PeekMinMut { heap: self, sift: false })
        }
    }

    /// Returns a handle on the maximum element, if any, through which it
    /// can be written. Once the handle is committed, the heap is adjusted
    /// if necessary.
    ///
    /// *O*(1) for the peek; *O*(log *n*) when the handle is committed.
    pub fn peek_max_mut(&mut self) -> (peek: Option<PeekMaxMut<'_, T>>)
        requires
            total_order::<T>(),
            old(self).wf(),
        ensures
            old(self)@.len() == 0 ==> peek is None && *final(self) == *old(self),
            old(self)@.len() > 0 ==> peek is Some && peek.unwrap().wf() && !peek.unwrap().sift
                && peek.unwrap().max_index == max_position(old(self)@) && *peek.unwrap().heap
                == *old(self) && *final(peek.unwrap().heap) == *final(self),
    {
        match self.find_max() {
            Some(i) => {
                proof {
                    lemma_heap_with_hole(self@, i as int);
                }
                Some(PeekMaxMut { heap: self, max_index: i, sift: false })
            },
            None => None,
        }
    }

    /// Gets a reference to the maximum element, if any.
    ///
    /// *O*(1).
    pub fn peek_max(&self) -> (max: Option<&T>)
        requires
            total_order::<T>(),
            self.wf(),
        ensures
            max == self.greatest(),
            self@.len() > 0 ==> upper_bound(self@, self@[max_position(self@)]),
    {
        proof {
            if self@.len() > 0 {
                lemma_heap_bounds(self@);
            }
        }
        match self.find_max() {
            Some(i) => Some(&self.0[i]),
            None => None,
        }
    }

    /// Where the maximum of a heap stands in `slice`, if it has any element.
    pub fn find_max_slice(slice: &[T]) -> (max: Option<usize>)
        ensures
            slice@.len() == 0 ==> max is None,
            slice@.len() > 0 ==> max is Some && max.unwrap() < slice@.len(),
            slice@.len() > 0 && total_order::<T>() ==> max.unwrap() == max_position(slice@),
    {
        match slice.len() {
            0 => None,
            1 => Some(0),
            2 => Some(1),
            _ => if greater(&slice[1], &slice[2]) {
                Some(1)
            } else {
                Some(2)
            },
        }
    }

    /// Where the maximum stands, if the heap has any element.
    pub fn find_max(&self) -> (max: Option<usize>)
        ensures
            self@.len() == 0 ==> max is None,
            self@.len() > 0 ==> max is Some && max.unwrap() < self@.len(),
            self@.len() > 0 && total_order::<T>() ==> max.unwrap() == max_position(self@),
    {
        Self::find_max_slice(self.0.as_slice())
    }

    /// Walks the element at `pos`, the last of the array, up to its place.
    #[inline]
    fn bubble_up(&mut self, pos: usize)
        requires
            pos < old(self)@.len(),
        ensures
            final(self)@.len() == old(self)@.len(),
            final(self)@.to_multiset() == old(self)@.to_multiset(),
            total_order::<T>() && pos == old(self)@.len() - 1 && heap_prefix(
                old(self)@,
                old(self)@.len() - 1,
            ) ==> is_heap(final(self)@),
            total_order::<T>() ==> final(self)@ == bubbled(old(self)@, pos as int),
    {
        Hole::new(self.0.as_mut_slice(), pos).bubble_up();
    }

    /// Removes the minimum element, if any.
    ///
    /// *O*(log *n*).
    pub fn pop_min(&mut self) -> (min: Option<T>)
        requires
            total_order::<T>(),
            old(self).wf(),
        ensures
            final(self).wf(),
            old(self)@.len() == 0 ==> min is None && final(self)@ == old(self)@,
            old(self)@.len() > 0 ==> {
                let least = old(self)@[0];
                &&& min == Some(least)
                &&& lower_bound(old(self)@, least)
                &&& final(self)@.len() == old(self)@.len() - 1
                &&& final(self)@.to_multiset() == old(self)@.to_multiset().remove(least)
            },
            final(self)@ == without_root(old(self)@),
    {
        proof {
            if self@.len() > 0 {
                lemma_heap_bounds(self@);
            }
            lemma_heap_with_hole(self@, 0);
        }
        self.pop_root()
    }

    /// Removes the element at the root, if any, and puts what stands
    /// below it in order.
    pub(crate) fn pop_root(&mut self) -> (root: Option<T>)
        requires
            total_order::<T>(),
            heap_below(old(self)@, 0, 0),
        ensures
            final(self).wf(),
            old(self)@.len() == 0 ==> root is None && final(self)@ == old(self)@,
            old(self)@.len() > 0 ==> {
                let taken = old(self)@[0];
                &&& root == Some(taken)
                &&& final(self)@.len() == old(self)@.len() - 1
                &&& final(self)@.to_multiset() == old(self)@.to_multiset().remove(taken)
            },
            final(self)@ == without_root(old(self)@),
    {
        let ghost before = self@;
        match self.0.pop() {
            Some(mut item) => {
                if !self.0.is_empty() {
                    let ghost rest = self@;
                    core::mem::swap(&mut item, &mut self.0[0]);
                    proof {
                        assert(before =~= rest.push(before.last()));
                        lemma_rest_contents(before, self@);
                        assert forall|d: int| 0 <= d < self@.len() implies #[trigger] in_place_from(
                            self@,
                            0,
                            0,
                            d,
                        ) by {
                            assert(in_place_from(before, 0, 0, d));
                        }
                    }
                    self.trickle_down_min(0);
                } else {
                    proof {
                        assert(before =~= self@.push(item));
                        lemma_rest_contents(before, before);
                    }
                }
                Some(item)
            },
            None => None,
        }
    }

    /// Removes the maximum element, if any.
    ///
    /// *O*(log *n*).
    pub fn pop_max(&mut self) -> (max: Option<T>)
        requires
            total_order::<T>(),
            old(self).wf(),
        ensures
            final(self).wf(),
            old(self)@.len() == 0 ==> max is None && final(self)@ == old(self)@,
            old(self)@.len() > 0 ==> {
                let top = old(self)@[max_position(old(self)@)];
                &&& max == Some(top)
                &&& upper_bound(old(self)@, top)
                &&& final(self)@.len() == old(self)@.len() - 1
                &&& final(self)@.to_multiset() == old(self)@.to_multiset().remove(top)
            },
            final(self)@ == without_max(old(self)@),
    {
        proof {
            if self@.len() > 0 {
                lemma_heap_bounds(self@);
            }
        }
        self.pop_top()
    }

    /// Removes the element at `max_position`, if any, and puts what
    /// stands below it in order. Where the array was a heap, it is one
    /// again.
    pub(crate) fn pop_top(&mut self) -> (top: Option<T>)
        requires
            total_order::<T>(),
        ensures
            old(self).wf() ==> final(self).wf(),
            old(self)@.len() == 0 ==> top is None && final(self)@ == old(self)@,
            old(self)@.len() > 0 ==> {
                let taken = old(self)@[max_position(old(self)@)];
                &&& top == Some(taken)
                &&& final(self)@.len() == old(self)@.len() - 1
                &&& final(self)@.to_multiset() == old(self)@.to_multiset().remove(taken)
            },
            final(self)@ == without_max(old(self)@),
    {
        let ghost before = self@;
        match self.find_max() {
            Some(max) => {
                let mut item = self.0.pop().unwrap();
                if max < self.0.len() {
                    core::mem::swap(&mut item, &mut self.0[max]);
                    proof {
                        lemma_takeout_contents(before, self@, max as int);
                        if is_heap(before) {
                            lemma_heap_bounds(before);
                            lemma_order_laws::<T>();
                            lemma_levels_around(0);
                            assert forall|d: int|
                                0 <= d < self@.len() implies #[trigger] in_place_from(
                                self@,
                                0,
                                max as int,
                                d,
                            ) by {
                                assert(in_place(before, d));
                            }
                        }
                    }
                    self.trickle_down_max(max);
                } else {
                    proof {
                        lemma_takeout_contents(before, before, max as int);
                        if is_heap(before) {
                            assert forall|d: int| 0 <= d < self@.len() implies #[trigger] in_place(
                                self@,
                                d,
                            ) by {
                                assert(in_place(before, d));
                            }
                        }
                    }
                }
                Some(item)
            },
            None => None,
        }
    }

    /// Pushes an element, then pops the minimum element.
    ///
    /// Calling `push_pop_min` is equivalent to calling `push` followed by
    /// `pop_min`, except that it avoids allocation: where the element is
    /// no greater than anything in the heap, or the heap is empty, it
    /// comes back and the heap stays as it is.
    ///
    /// *O*(log *n*).
    pub fn push_pop_min(&mut self, element: T) -> (min: T)
        requires
            total_order::<T>(),
            old(self).wf(),
        ensures
            final(self).wf(),
            final(self)@.len() == old(self)@.len(),
            old(self)@.len() == 0 || le(element, old(self)@[0]) ==> {
                &&& min == element
                &&& final(self)@ == old(self)@
            },
            old(self)@.len() > 0 && lt(old(self)@[0], element) ==> {
                let least = old(self)@[0];
                &&& min == least
                &&& final(self)@ == with_root_replaced(old(self)@, element)
                &&& final(self)@.to_multiset() == old(self)@.to_multiset().insert(element).remove(
                    least,
                )
            },
            final(self)@.to_multiset() == old(self)@.to_multiset().insert(element).remove(min),
            lower_bound(final(self)@, min),
            le(min, element),
    {
        let mut element = element;
        let ghost given = element;
        proof {
            broadcast use vstd::seq_lib::to_multiset_update;

            assert(self@.to_multiset().insert(element).remove(element) =~= self@.to_multiset());
            lemma_order_laws::<T>();
            if self@.len() > 0 {
                lemma_heap_bounds(self@);
            }
        }
        match self.peek_min_mut() {
            Some(mut min) => {
                if greater(&element, min.deref()) {
                    core::mem::swap(&mut element, min.deref_mut());
                }
                let ghost written = min@;
                min.commit();
                proof {
                    if lt(old(self)@[0], given) {
                        assert forall|i: int| 0 <= i < written.len() implies le(
                            old(self)@[0],
                            #[trigger] written[i],
                        ) by {
                            if i > 0 {
                                assert(written[i] == old(self)@[i]);
                            }
                        }
                        lemma_bounds_of_contents(written, self@, old(self)@[0]);
                    }
                }
            },
            None => {},
        }
        element
    }

    /// Pops the minimum element and pushes a new element, in an
    /// optimized fashion.
    ///
    /// Except for avoiding allocation, calling `replace_min` is
    /// equivalent to calling `pop_min` followed by `push`: the element
    /// given always stays in the heap, and the old minimum comes back, if
    /// there was one.
    ///
    /// *O*(log *n*).
    pub fn replace_min(&mut self, element: T) -> (min: Option<T>)
        requires
            total_order::<T>(),
            old(self).wf(),
        ensures
            final(self).wf(),
            old(self)@.len() == 0 ==> min is None && final(self)@ == seq![element],
            old(self)@.len() > 0 ==> {
                let least = old(self)@[0];
                &&& min == Some(least)
                &&& lower_bound(old(self)@, least)
                &&& final(self)@ == with_root_replaced(old(self)@, element)
                &&& final(self)@.len() == old(self)@.len()
                &&& final(self)@.to_multiset() == old(self)@.to_multiset().insert(element).remove(
                    least,
                )
            },
    {
        let mut element = element;
        proof {
            broadcast use vstd::seq_lib::to_multiset_update;

            if self@.len() > 0 {
                lemma_heap_bounds(self@);
            }
        }
        match self.peek_min_mut() {
            Some(mut min) => {
                core::mem::swap(&mut element, min.deref_mut());
                min.commit();
                return Some(element);
            },
            None => {},
        }
        // Heap was empty, so no reordering is necessary
        self.0.push(element);
        proof {
            assert(self@ =~= seq![element]);
            assert forall|d: int| 0 <= d < self@.len() implies #[trigger] in_place(self@, d) by {}
        }
        None
    }

    /// Pushes an element, then pops the maximum element.
    ///
    /// Calling `push_pop_max` is equivalent to calling `push` followed by
    /// `pop_max`, except that it avoids allocation: where the element is
    /// no smaller than anything in the heap, or the heap is empty, it
    /// comes back and the heap stays as it is.
    ///
    /// *O*(log *n*).
    pub fn push_pop_max(&mut self, element: T) -> (max: T)
        requires
            total_order::<T>(),
            old(self).wf(),
        ensures
            final(self).wf(),
            final(self)@.len() == old(self)@.len(),
            old(self)@.len() == 0 || le(old(self)@[max_position(old(self)@)], element) ==> {
                &&& max == element
                &&& final(self)@ == old(self)@
            },
            old(self)@.len() > 0 && lt(element, old(self)@[max_position(old(self)@)]) ==> {
                let at = max_position(old(self)@);
                let top = old(self)@[at];
                &&& max == top
                &&& final(self)@ == settled_from(old(self)@.update(at, element), at)
                &&& final(self)@.to_multiset() == old(self)@.to_multiset().insert(element).remove(
                    top,
                )
            },
            final(self)@.to_multiset() == old(self)@.to_multiset().insert(element).remove(max),
            upper_bound(final(self)@, max),
            le(element, max),
    {
        let mut element = element;
        let ghost given = element;
        let ghost top = old(self)@[max_position(old(self)@)];
        proof {
            broadcast use vstd::seq_lib::to_multiset_update;

            assert(self@.to_multiset().insert(element).remove(element) =~= self@.to_multiset());
            lemma_order_laws::<T>();
            if self@.len() > 0 {
                lemma_heap_bounds(self@);
            }
        }
        match self.peek_max_mut() {
            Some(mut max) => {
                if less(&element, max.deref()) {
                    core::mem::swap(&mut element, max.deref_mut());
                }
                let ghost written = max@;
                let ghost at = max.max_index as int;
                max.commit();
                proof {
                    if lt(given, top) {
                        assert forall|i: int| 0 <= i < written.len() implies le(
                            #[trigger] written[i],
                            top,
                        ) by {
                            if i != at {
                                assert(written[i] == old(self)@[i]);
                            }
                        }
                        lemma_bounds_of_contents(written, self@, top);
                    }
                }
            },
            None => {},
        }
        element
    }

    /// Pops the maximum element and pushes a new element, in an
    /// optimized fashion.
    ///
    /// Except for avoiding allocation, calling `replace_max` is
    /// equivalent to calling `pop_max` followed by `push`: the element
    /// given always stays in the heap, and the old maximum comes back, if
    /// there was one.
    ///
    /// *O*(log *n*).
    pub fn replace_max(&mut self, element: T) -> (max: Option<T>)
        requires
            total_order::<T>(),
            old(self).wf(),
        ensures
            final(self).wf(),
            old(self)@.len() == 0 ==> max is None && final(self)@ == seq![element],
            old(self)@.len() > 0 ==> {
                let top = old(self)@[max_position(old(self)@)];
                &&& max == Some(top)
                &&& upper_bound(old(self)@, top)
                &&& final(self)@ == with_max_replaced(old(self)@, element)
                &&& final(self)@.len() == old(self)@.len()
                &&& final(self)@.to_multiset() == old(self)@.to_multiset().insert(element).remove(
                    top,
                )
            },
    {
        let mut element = element;
        let ghost given = element;
        let ghost before = self@;
        proof {
            if self@.len() > 0 {
                lemma_heap_bounds(self@);
            }
        }
        match self.peek_max_mut() {
            Some(mut max) => {
                // If `element` is the new min, swap it with the current min
                // (unless the min is the same as the max)
                if max.heap.len() > 1 {
                    if less(&element, &max.heap.0[0]) {
                        core::mem::swap(&mut element, &mut max.heap.0[0]);
                        proof {
                            lemma_smaller_root(before, given);
                        }
                    }
                }
                let ghost rooted = max@;
                core::mem::swap(&mut element, max.deref_mut());
                proof {
                    lemma_replaced_contents(before, rooted, max@, given, max.max_index as int);
                }
                max.commit();
                return Some(element);
            },
            None => {},
        }
        // Heap was empty, so no reordering is necessary
        self.0.push(element);
        proof {
            assert(self@ =~= seq![element]);
            assert forall|d: int| 0 <= d < self@.len() implies #[trigger] in_place(self@, d) by {}
        }
        None
    }

    /// Returns an ascending (sorted) vector, reusing the heap's
    /// storage.
    ///
    /// *O*(*n* log *n*).
    pub fn into_vec_asc(self) -> (elements: Vec<T>)
        requires
            total_order::<T>(),
            self.wf(),
        ensures
            ascending(elements@),
            elements@.to_multiset() == self@.to_multiset(),
            elements@ == sorted(self@, true),
    {
        let mut heap = self;
        let ghost start = heap@;
        let mut end = heap.0.len();
        while end > 1
            invariant
                total_order::<T>(),
                end <= heap@.len(),
                heap@.len() == start.len(),
                heap@.to_multiset() == start.to_multiset(),
                heap_prefix(heap@, end as int),
                settled_tail(heap@, end as int, true),
                sorted_from(heap@, end as int, true) == sorted(start, true),
            decreases end,
        {
            let ghost before = heap@;
            let max = Self::find_max_slice(
                vstd::slice::slice_subrange(heap.0.as_slice(), 0, end),
            ).unwrap();
            end = end - 1;
            if max < end {
                heap.0.as_mut_slice().swap(max, end);
                let ghost exchanged = heap@;
                let (elements, rest) = heap.0.as_mut_slice().split_at_mut(end);
                proof {
                    lemma_sort_step_ready(before, end + 1, true);
                }
                Self::trickle_down_slice(elements, max);
                proof {
                    assert(heap@.subrange(0, end as int) =~= elements@);
                    assert(heap@.subrange(end as int, heap@.len() as int) =~= exchanged.subrange(
                        end as int,
                        heap@.len() as int,
                    ));
                    lemma_sort_step_done(before, heap@, end + 1, true);
                    lemma_heap_prefix_taken(heap@, end as int);
                }
            } else {
                proof {
                    assert(swapped(before, end as int, end as int) =~= before);
                    lemma_sort_step_done(before, heap@, end + 1, true);
                    assert forall|d: int| 0 <= d < end implies #[trigger] in_place(heap@, d) by {
                        assert(in_place(before, d));
                    }
                }
            }
        }
        proof {
            lemma_sorted_at_last(heap@, end as int, true);
        }
        heap.into_vec()
    }

    /// Returns an descending (sorted) vector, reusing the heap's
    /// storage.
    ///
    /// *O*(*n* log *n*).
    pub fn into_vec_desc(self) -> (elements: Vec<T>)
        requires
            total_order::<T>(),
            self.wf(),
        ensures
            descending(elements@),
            elements@.to_multiset() == self@.to_multiset(),
            elements@ == sorted(self@, false),
    {
        let mut heap = self;
        let ghost start = heap@;
        let mut end = heap.0.len();
        while end > 1
            invariant
                total_order::<T>(),
                end <= heap@.len(),
                heap@.len() == start.len(),
                heap@.to_multiset() == start.to_multiset(),
                heap_prefix(heap@, end as int),
                settled_tail(heap@, end as int, false),
                sorted_from(heap@, end as int, false) == sorted(start, false),
            decreases end,
        {
            let ghost before = heap@;
            end = end - 1;
            heap.0.as_mut_slice().swap(0, end);
            let ghost exchanged = heap@;
            let (elements, rest) = heap.0.as_mut_slice().split_at_mut(end);
            proof {
                lemma_sort_step_ready(before, end + 1, false);
            }
            Self::trickle_down_min_slice(elements, 0);
            proof {
                assert(heap@.subrange(0, end as int) =~= elements@);
                assert(heap@.subrange(end as int, heap@.len() as int) =~= exchanged.subrange(
                    end as int,
                    heap@.len() as int,
                ));
                lemma_sort_step_done(before, heap@, end + 1, false);
                lemma_heap_prefix_taken(heap@, end as int);
            }
        }
        proof {
            lemma_sorted_at_last(heap@, end as int, false);
        }
        heap.into_vec()
    }

    /// Walks the element at `pos`, on a min level, down to its place.
    #[inline]
    pub(crate) fn trickle_down_min(&mut self, pos: usize)
        requires
            pos < old(self)@.len(),
        ensures
            final(self)@.len() == old(self)@.len(),
            final(self)@.to_multiset() == old(self)@.to_multiset(),
            total_order::<T>() && min_level(pos as int) && heap_below(old(self)@, 0, pos as int)
                && bridged(old(self)@, 0, pos as int) ==> is_heap(final(self)@),
            total_order::<T>() ==> final(self)@ == trickled(old(self)@, true, pos as int),
    {
        Self::trickle_down_min_slice(self.0.as_mut_slice(), pos);
    }

    /// Walks the element at `pos`, on a max level, down to its place.
    #[inline]
    pub(crate) fn trickle_down_max(&mut self, pos: usize)
        requires
            pos < old(self)@.len(),
        ensures
            final(self)@.len() == old(self)@.len(),
            final(self)@.to_multiset() == old(self)@.to_multiset(),
            total_order::<T>() && !min_level(pos as int) && heap_below(old(self)@, 0, pos as int)
                && bridged(old(self)@, 0, pos as int) ==> is_heap(final(self)@),
            total_order::<T>() ==> final(self)@ == trickled(old(self)@, false, pos as int),
    {
        Hole::new(self.0.as_mut_slice(), pos).trickle_down_max();
    }

    /// Walks the element at `pos` down to its place.
    #[inline]
    fn trickle_down(&mut self, pos: usize)
        requires
            pos < old(self)@.len(),
        ensures
            final(self)@.len() == old(self)@.len(),
            final(self)@.to_multiset() == old(self)@.to_multiset(),
            total_order::<T>() && heap_below(old(self)@, pos as int, pos as int) ==> heap_from(
                final(self)@,
                pos as int,
            ),
            total_order::<T>() ==> final(self)@ == trickled(
                old(self)@,
                min_level(pos as int),
                pos as int,
            ),
    {
        Self::trickle_down_slice(self.0.as_mut_slice(), pos);
    }

    /// Walks the element at `pos` of `slice`, on a min level, down to its
    /// place.
    #[inline]
    fn trickle_down_min_slice(slice: &mut [T], pos: usize)
        requires
            pos < old(slice)@.len(),
        ensures
            final(slice)@.len() == old(slice)@.len(),
            final(slice)@.to_multiset() == old(slice)@.to_multiset(),
            total_order::<T>() && min_level(pos as int) && heap_below(old(slice)@, 0, pos as int)
                && bridged(old(slice)@, 0, pos as int) ==> is_heap(final(slice)@),
            total_order::<T>() ==> final(slice)@ == trickled(old(slice)@, true, pos as int),
    {
        Hole::new(slice, pos).trickle_down_min();
    }

    /// Walks the element at `pos` of `slice` down to its place.
    #[inline]
    fn trickle_down_slice(slice: &mut [T], pos: usize)
        requires
            pos < old(slice)@.len(),
        ensures
            final(slice)@.len() == old(slice)@.len(),
            final(slice)@.to_multiset() == old(slice)@.to_multiset(),
            total_order::<T>() && heap_below(old(slice)@, pos as int, pos as int) ==> heap_from(
                final(slice)@,
                pos as int,
            ),
            total_order::<T>() && heap_below(old(slice)@, 0, pos as int) && bridged(
                old(slice)@,
                0,
                pos as int,
            ) ==> is_heap(final(slice)@),
            total_order::<T>() ==> final(slice)@ == trickled(
                old(slice)@,
                min_level(pos as int),
                pos as int,
            ),
    {
        Hole::new(slice, pos).trickle_down();
    }

    /// Arranges the elements, in whatever order they stand, as a heap.
    fn rebuild(&mut self)
        ensures
            total_order::<T>() ==> final(self).wf(),
            final(self)@.len() == old(self)@.len(),
            final(self)@.to_multiset() == old(self)@.to_multiset(),
            total_order::<T>() ==> final(self)@ == heapified(old(self)@),
    {
        let mut n = self.len() / 2;
        proof {
            assert forall|d: int| 0 <= d < self@.len() implies #[trigger] in_place_from(
                self@,
                n as int,
                -1,
                d,
            ) by {}
        }
        while n > 0
            invariant
                n <= self@.len() / 2,
                self@.len() == old(self)@.len(),
                self@.to_multiset() == old(self)@.to_multiset(),
                total_order::<T>() ==> heapified_from(self@, n as int) == heapified(old(self)@),
                total_order::<T>() ==> heap_from(self@, n as int),
            decreases n,
        {
            n = n - 1;
            proof {
                if total_order::<T>() {
                    assert forall|d: int| 0 <= d < self@.len() implies #[trigger] in_place_from(
                        self@,
                        n as int,
                        n as int,
                        d,
                    ) by {
                        assert(in_place_from(self@, n + 1, -1, d));
                    }
                }
            }
            self.trickle_down(n);
        }
        proof {
            lemma_heap_from_start(self@);
        }
    }
}

impl<T: Ord> vstd::std_specs::convert::FromSpecImpl<Vec<T>> for MinMaxHeap<T> {
    /// What `from` makes is told by its own contract, over the view of the
    /// heap; no heap value is named for it here.
    open spec fn obeys_from_spec() -> bool {
        false
    }

    closed spec fn from_spec(vec: Vec<T>) -> Self {
        MinMaxHeap(vec)
    }
}

impl<T: Ord> From<Vec<T>> for MinMaxHeap<T> {
    /// Arranges the elements of `vec` as a heap.
    ///
    /// *O*(*n*).
    fn from(vec: Vec<T>) -> (heap: Self)
        ensures
            total_order::<T>() ==> heap.wf(),
            heap@.len() == vec@.len(),
            heap@.to_multiset() == vec@.to_multiset(),
            total_order::<T>() ==> heap@ == heapified(vec@),
    {
        let mut heap = MinMaxHeap(vec);
        heap.rebuild();
        heap
    }
}

} // verus!
