//! A cursor that carries one displaced element through the heap array.
//!
//! A [`Hole`] marks one slot of a slice as the place whose element is on
//! the move. Other elements slide into the marked slot, the mark follows
//! to where they came from, and the displaced element comes to rest
//! wherever the mark ends up. The slice holds the same elements at every
//! moment, so there is nothing to undo or to write back when a hole goes
//! out of scope.

use crate::index::{child1_of, child2_of, grandparent_of, HeapIndex, min_level, parent_of};
use crate::order::{beats, decides, greater, less, total_order};
use crate::shape::{
    bridged, heap_above, heap_below, heap_from, heap_prefix, is_heap, lemma_heap_below_later,
    lemma_heap_from_start, lemma_levels_around, lemma_swapped_contents, swapped,
};
use crate::walk::{
    best_of, better, bubbled, bubbled_along, lemma_bubble_done, lemma_bubble_start_cross,
    lemma_bubble_start_stay, lemma_bubble_step, lemma_trickle_child, lemma_trickle_done,
    lemma_trickle_grandchild, trickled,
};
use vstd::prelude::*;

verus! {

/// `<[T]>::swap` exchanges the elements at two positions of a slice and
/// leaves the others as they are; it panics where a position is out of
/// bounds, which the precondition rules out.
pub assume_specification<E>[ <[E]>::swap ](slice: &mut [E], a: usize, b: usize)
    requires
        a < old(slice)@.len(),
        b < old(slice)@.len(),
    ensures
        final(slice)@ == old(slice)@.update(a as int, old(slice)@[b as int]).update(
            b as int,
            old(slice)@[a as int],
        ),
;

/// A slice with one marked position, whose element is on the move.
pub struct Hole<'a, T> {
    pub data: &'a mut [T],
    pub pos: usize,
}

/// How far below the hole a position lies.
pub enum Generation {
    Child,
    Grandchild,
}

/// A hole, along with a position it may move to.
pub struct HoleSwap<'a, 'b, T> {
    pub hole: &'b mut Hole<'a, T>,
    pub index: usize,
}

impl<'a, T> Hole<'a, T> {
    /// The elements of the slice, the displaced one at the marked position.
    pub open spec fn view(&self) -> Seq<T> {
        self.data@
    }

    /// The marked position is a position of the slice.
    pub open spec fn wf(&self) -> bool {
        self.pos < self.data@.len()
    }

    /// Create a new hole at index `pos`.
    pub fn new(data: &'a mut [T], pos: usize) -> (hole: Self)
        requires
            pos < old(data)@.len(),
        ensures
            hole@ == old(data)@,
            hole.pos == pos,
            hole.wf(),
            final(hole.data)@ == final(data)@,
    {
        Hole { data, pos }
    }

    /// The marked position.
    #[inline]
    pub fn pos(&self) -> (pos: usize)
        ensures
            pos == self.pos,
    {
        self.pos
    }

    /// The element on the move.
    #[inline]
    pub fn element(&self) -> (element: &T)
        requires
            self.wf(),
        ensures
            *element == self@[self.pos as int],
    {
        &self.data[self.pos]
    }

    /// The parent position as a place to move to, if there is one.
    #[inline]
    pub fn get_parent<'b>(&'b mut self) -> (swap: Option<HoleSwap<'a, 'b, T>>)
        requires
            old(self).wf(),
        ensures
            old(self).pos == 0 ==> swap is None && *final(self) == *old(self),
            old(self).pos > 0 ==> swap is Some && swap.unwrap().index == parent_of(
                old(self).pos as int,
            ) && *swap.unwrap().hole == *old(self) && *final(swap.unwrap().hole) == *final(self),
    {
        if self.pos().has_parent() {
            let index = self.pos().parent();
            Some(HoleSwap::new(self, index))
        } else {
            None
        }
    }

    /// The grandparent position as a place to move to, if there is one.
    #[inline]
    pub fn get_grandparent<'b>(&'b mut self) -> (swap: Option<HoleSwap<'a, 'b, T>>)
        requires
            old(self).wf(),
        ensures
            old(self).pos <= 2 ==> swap is None && *final(self) == *old(self),
            old(self).pos > 2 ==> swap is Some && swap.unwrap().index == grandparent_of(
                old(self).pos as int,
            ) && *swap.unwrap().hole == *old(self) && *final(swap.unwrap().hole) == *final(self),
    {
        if self.pos().has_grandparent() {
            let index = self.pos().grandparent();
            Some(HoleSwap::new(self, index))
        } else {
            None
        }
    }

    /// Whether the marked position lies on a min level.
    #[inline]
    pub fn on_min_level(&self) -> (min: bool)
        requires
            self.wf(),
        ensures
            min == min_level(self.pos as int),
    {
        proof {
            vstd::slice::axiom_spec_len(self.data);
        }
        self.pos().is_min_level()
    }
}

impl<'a, 'b, T> HoleSwap<'a, 'b, T> {
    /// The elements of the hole's slice.
    pub open spec fn view(&self) -> Seq<T> {
        self.hole.data@
    }

    /// The hole's marked position.
    pub open spec fn pos(&self) -> int {
        self.hole.pos as int
    }

    /// `index` is a position of the slice other than the marked one.
    pub open spec fn wf(&self) -> bool {
        &&& self.hole.wf()
        &&& self.index < self.hole.data@.len()
        &&& self.index != self.hole.pos
    }

    /// Pair a hole with the position `index`, which must be a position of
    /// its slice other than the marked one.
    pub fn new(hole: &'b mut Hole<'a, T>, index: usize) -> (swap: Self)
        requires
            old(hole).wf(),
            index < old(hole)@.len(),
            index != old(hole).pos,
        ensures
            swap.wf(),
            swap.index == index,
            *swap.hole == *old(hole),
            *final(swap.hole) == *final(hole),
    {
        HoleSwap { hole, index }
    }

    /// The element on the move.
    pub fn hole_element(&self) -> (element: &T)
        requires
            self.wf(),
        ensures
            *element == self@[self.pos()],
    {
        self.hole.element()
    }

    /// The element at the position to move to.
    pub fn other_element(&self) -> (element: &T)
        requires
            self.wf(),
        ensures
            *element == self@[self.index as int],
    {
        &self.hole.data[self.index]
    }

    /// Move the other element into the hole, and the hole to where the
    /// other element was.
    pub fn move_to(self)
        requires
            self.wf(),
        ensures
            final(self.hole)@ == swapped(self@, self.pos(), self.index as int),
            final(self.hole).pos == self.index,
            final(self.hole).wf(),
            final(final(self.hole).data)@ == final(old(self.hole).data)@,
    {
        let pos = self.hole.pos;
        self.hole.data.swap(pos, self.index);
        self.hole.pos = self.index;
    }

    /// Exchange the element on the move with the other element, without
    /// moving the hole.
    pub fn swap_with(&mut self)
        requires
            old(self).wf(),
        ensures
            final(self)@ == swapped(old(self)@, old(self).pos(), old(self).index as int),
            final(self).pos() == old(self).pos(),
            final(self).index == old(self).index,
            final(self).wf(),
            final(final(self).hole.data)@ == final(old(self).hole.data)@,
            *final(final(self).hole) == *final(old(self).hole),
    {
        let pos = self.hole.pos;
        self.hole.data.swap(pos, self.index);
    }
}

impl<'a, T: Ord> Hole<'a, T> {
    /// `index` if its element beats the one at `best`, else `best`.
    #[inline]
    fn consider<F>(&self, f: &F, best: usize, index: usize, Ghost(min): Ghost<bool>) -> (r: usize)
        where F: Fn(&T, &T) -> bool
        requires
            decides(*f, min),
            best < self@.len(),
            index < self@.len(),
        ensures
            r == best || r == index,
            total_order::<T>() ==> r == better(self@, min, best as int, index as int),
    {
        if f(&self.data[index], &self.data[best]) {
            index
        } else {
            best
        }
    }

    /// The child or grandchild whose element beats the element on the
    /// move and all the other children and grandchildren, if there is
    /// one; of several, the first in the order child 1, child 2,
    /// grandchildren 1 to 4.
    #[inline]
    fn best_child_or_grandchild<'b, F>(&'b mut self, f: &F, Ghost(min): Ghost<bool>) -> (found:
        Option<(HoleSwap<'a, 'b, T>, Generation)>)
        where F: Fn(&T, &T) -> bool
        requires
            old(self).wf(),
            decides(*f, min),
        ensures
            found is None ==> *final(self) == *old(self),
            found is Some ==> ({
                let swap = found.unwrap().0;
                &&& swap.wf()
                &&& *swap.hole == *old(self)
                &&& *final(swap.hole) == *final(self)
                &&& swap.index == child1_of(old(self).pos as int) || swap.index == child2_of(
                    old(self).pos as int,
                ) || child1_of(child1_of(old(self).pos as int)) <= swap.index <= child2_of(
                    child2_of(old(self).pos as int),
                )
                &&& found.unwrap().1 is Child <==> swap.index <= child2_of(old(self).pos as int)
            }),
            total_order::<T>() ==> (found is None <==> best_of(
                old(self)@,
                min,
                old(self).pos as int,
            ) == old(self).pos),
            total_order::<T>() && found is Some ==> found.unwrap().0.index == best_of(
                old(self)@,
                min,
                old(self).pos as int,
            ),
    {
        proof {
            vstd::slice::axiom_spec_len(self.data);
        }
        let len = self.data.len();
        let here = self.pos();
        let mut best = here;
        let mut grand = false;
        if here < len / 2 {
            best = self.consider(f, best, here.child1(), Ghost(min));
            if here.child2() < len {
                best = self.consider(f, best, here.child2(), Ghost(min));
                if here.child1() < len / 2 {
                    let before = best;
                    best = self.consider(f, best, here.grandchild1(), Ghost(min));
                    if here.grandchild2() < len {
                        best = self.consider(f, best, here.grandchild2(), Ghost(min));
                        if here.grandchild3() < len {
                            best = self.consider(f, best, here.grandchild3(), Ghost(min));
                            if here.grandchild4() < len {
                                best = self.consider(f, best, here.grandchild4(), Ghost(min));
                            }
                        }
                    }
                    grand = best != before;
                }
            }
        }
        if best == here {
            None
        } else {
            let generation = if grand {
                Generation::Grandchild
            } else {
                Generation::Child
            };
            Some((HoleSwap::new(self, best), generation))
        }
    }

    /// Walk the hole down until the element on the move beats nothing
    /// below it, with `f` telling which of two elements beats the other.
    fn trickle_down_best<F>(&mut self, f: F, Ghost(min): Ghost<bool>, Ghost(lo): Ghost<int>)
        where F: Fn(&T, &T) -> bool
        requires
            old(self).wf(),
            decides(f, min),
        ensures
            final(self).wf(),
            final(self)@.len() == old(self)@.len(),
            final(self)@.to_multiset() == old(self)@.to_multiset(),
            forall|i: int| 0 <= i < old(self).pos ==> final(self)@[i] == old(self)@[i],
            total_order::<T>() && min == min_level(old(self).pos as int) && heap_below(
                old(self)@,
                lo,
                old(self).pos as int,
            ) && bridged(old(self)@, lo, old(self).pos as int) ==> heap_from(final(self)@, lo),
            total_order::<T>() ==> final(self)@ == trickled(
                old(self)@,
                min,
                old(self).pos as int,
            ),
            final(final(self).data)@ == final(old(self).data)@,
    {
        let ghost start = self@;
        let ghost first = self.pos as int;
        let ghost repairable = total_order::<T>() && min == min_level(first) && heap_below(
            start,
            lo,
            first,
        ) && bridged(start, lo, first);
        loop
            invariant
                decides(f, min),
                self.wf(),
                start == old(self)@,
                first == old(self).pos,
                repairable == (total_order::<T>() && min == min_level(first) && heap_below(
                    start,
                    lo,
                    first,
                ) && bridged(start, lo, first)),
                first <= self.pos,
                self@.len() == start.len(),
                self@.to_multiset() == start.to_multiset(),
                forall|i: int| 0 <= i < first ==> self@[i] == start[i],
                repairable ==> min == min_level(self.pos as int) && heap_below(
                    self@,
                    lo,
                    self.pos as int,
                ) && bridged(self@, lo, self.pos as int),
                total_order::<T>() ==> trickled(self@, min, self.pos as int) == trickled(
                    start,
                    min,
                    first,
                ),
                final(self.data)@ == final(old(self).data)@,
            decreases self@.len() - self.pos,
        {
            let ghost before = self@;
            let ghost pos = self.pos as int;
            match self.best_child_or_grandchild(&f, Ghost(min)) {
                None => {
                    proof {
                        if repairable {
                            lemma_trickle_done(before, lo, pos);
                        }
                    }
                    return ;
                },
                Some((best, generation)) => {
                    let ghost m = best.index as int;
                    proof {
                        lemma_swapped_contents(before, pos, m);
                    }
                    best.move_to();
                    match generation {
                        Generation::Grandchild => {
                            let parent_index = self.pos().parent();
                            let ghost moved = self@;
                            let mut parent = HoleSwap::new(self, parent_index);
                            if f(parent.other_element(), parent.hole_element()) {
                                proof {
                                    lemma_swapped_contents(moved, m, parent_index as int);
                                }
                                parent.swap_with();
                            }
                            proof {
                                lemma_levels_around(pos);
                                lemma_levels_around(parent_of(m));
                                if repairable {
                                    lemma_trickle_grandchild(before, lo, pos);
                                }
                            }
                        },
                        Generation::Child => {
                            proof {
                                if repairable {
                                    lemma_trickle_child(before, lo, pos);
                                }
                            }
                            return ;
                        },
                    }
                },
            }
        }
    }

    /// Walk the hole up from the last position of the slice, where a new
    /// element has been appended to a heap.
    pub fn bubble_up(&mut self)
        requires
            old(self).wf(),
        ensures
            final(self).wf(),
            final(self)@.len() == old(self)@.len(),
            final(self)@.to_multiset() == old(self)@.to_multiset(),
            total_order::<T>() && old(self).pos == old(self)@.len() - 1 && heap_prefix(
                old(self)@,
                old(self)@.len() - 1,
            ) ==> is_heap(final(self)@),
            total_order::<T>() ==> final(self)@ == bubbled(old(self)@, old(self).pos as int),
            final(final(self).data)@ == final(old(self).data)@,
    {
        let ghost start = self@;
        let ghost ready = total_order::<T>() && self.pos == start.len() - 1 && heap_prefix(
            start,
            start.len() - 1,
        );
        if self.on_min_level() {
            let crossed = match self.get_parent() {
                Some(parent) => {
                    if greater(parent.hole_element(), parent.other_element()) {
                        proof {
                            lemma_swapped_contents(start, parent.pos(), parent.index as int);
                            if ready {
                                lemma_bubble_start_cross(start);
                            }
                        }
                        parent.move_to();
                        true
                    } else {
                        false
                    }
                },
                None => false,
            };
            proof {
                lemma_levels_around(old(self).pos as int);
                if ready && !crossed {
                    lemma_bubble_start_stay(start);
                }
            }
            if crossed {
                self.bubble_up_max();
            } else {
                self.bubble_up_min();
            }
        } else {
            let crossed = match self.get_parent() {
                Some(parent) => {
                    if less(parent.hole_element(), parent.other_element()) {
                        proof {
                            lemma_swapped_contents(start, parent.pos(), parent.index as int);
                            if ready {
                                lemma_bubble_start_cross(start);
                            }
                        }
                        parent.move_to();
                        true
                    } else {
                        false
                    }
                },
                None => false,
            };
            proof {
                lemma_levels_around(old(self).pos as int);
                if ready && !crossed {
                    lemma_bubble_start_stay(start);
                }
            }
            if crossed {
                self.bubble_up_min();
            } else {
                self.bubble_up_max();
            }
        }
    }

    /// Walk the hole up from grandparent to grandparent while the element
    /// on the move beats the one there, with `f` telling which of two
    /// elements beats the other.
    fn bubble_up_grandparent<F>(&mut self, f: F, Ghost(min): Ghost<bool>)
        where F: Fn(&T, &T) -> bool
        requires
            old(self).wf(),
            decides(f, min),
        ensures
            final(self).wf(),
            final(self)@.len() == old(self)@.len(),
            final(self)@.to_multiset() == old(self)@.to_multiset(),
            total_order::<T>() && min == min_level(old(self).pos as int) && heap_above(
                old(self)@,
                old(self).pos as int,
            ) && bridged(old(self)@, 0, old(self).pos as int) ==> is_heap(final(self)@),
            total_order::<T>() ==> final(self)@ == bubbled_along(
                old(self)@,
                min,
                old(self).pos as int,
            ),
            final(final(self).data)@ == final(old(self).data)@,
    {
        let ghost start = self@;
        let ghost first = self.pos as int;
        let ghost ready = total_order::<T>() && min == min_level(first) && heap_above(
            start,
            first,
        ) && bridged(start, 0, first);
        loop
            invariant
                decides(f, min),
                self.wf(),
                start == old(self)@,
                self@.len() == start.len(),
                self@.to_multiset() == start.to_multiset(),
                ready == (total_order::<T>() && min == min_level(first) && heap_above(
                    start,
                    first,
                ) && bridged(start, 0, first)),
                first == old(self).pos,
                ready ==> min == min_level(self.pos as int) && heap_above(self@, self.pos as int)
                    && bridged(self@, 0, self.pos as int),
                total_order::<T>() ==> bubbled_along(self@, min, self.pos as int)
                    == bubbled_along(start, min, first),
                final(self.data)@ == final(old(self).data)@,
            decreases self.pos,
        {
            let ghost before = self@;
            let ghost pos = self.pos as int;
            match self.get_grandparent() {
                Some(grandparent) => {
                    if f(grandparent.hole_element(), grandparent.other_element()) {
                        proof {
                            lemma_swapped_contents(before, pos, grandparent.index as int);
                            lemma_levels_around(pos);
                            if ready {
                                lemma_bubble_step(before, pos);
                            }
                        }
                        grandparent.move_to();
                    } else {
                        proof {
                            if ready {
                                lemma_bubble_done(before, pos);
                            }
                        }
                        return ;
                    }
                },
                None => {
                    proof {
                        if ready {
                            lemma_bubble_done(before, pos);
                        }
                    }
                    return ;
                },
            }
        }
    }

    /// Walk the hole up among the min levels.
    fn bubble_up_min(&mut self)
        requires
            old(self).wf(),
        ensures
            final(self).wf(),
            final(self)@.len() == old(self)@.len(),
            final(self)@.to_multiset() == old(self)@.to_multiset(),
            total_order::<T>() && min_level(old(self).pos as int) && heap_above(
                old(self)@,
                old(self).pos as int,
            ) && bridged(old(self)@, 0, old(self).pos as int) ==> is_heap(final(self)@),
            total_order::<T>() ==> final(self)@ == bubbled_along(
                old(self)@,
                true,
                old(self).pos as int,
            ),
            final(final(self).data)@ == final(old(self).data)@,
    {
        self.bubble_up_grandparent(less, Ghost(true));
    }

    /// Walk the hole up among the max levels.
    fn bubble_up_max(&mut self)
        requires
            old(self).wf(),
        ensures
            final(self).wf(),
            final(self)@.len() == old(self)@.len(),
            final(self)@.to_multiset() == old(self)@.to_multiset(),
            total_order::<T>() && !min_level(old(self).pos as int) && heap_above(
                old(self)@,
                old(self).pos as int,
            ) && bridged(old(self)@, 0, old(self).pos as int) ==> is_heap(final(self)@),
            total_order::<T>() ==> final(self)@ == bubbled_along(
                old(self)@,
                false,
                old(self).pos as int,
            ),
            final(final(self).data)@ == final(old(self).data)@,
    {
        self.bubble_up_grandparent(greater, Ghost(false));
    }

    /// Walk the hole down from a position whose element may be out of
    /// place with respect to what stands below it.
    pub fn trickle_down(&mut self)
        requires
            old(self).wf(),
        ensures
            final(self).wf(),
            final(self)@.len() == old(self)@.len(),
            final(self)@.to_multiset() == old(self)@.to_multiset(),
            forall|i: int| 0 <= i < old(self).pos ==> final(self)@[i] == old(self)@[i],
            total_order::<T>() && heap_below(
                old(self)@,
                old(self).pos as int,
                old(self).pos as int,
            ) ==> heap_from(final(self)@, old(self).pos as int),
            total_order::<T>() && heap_below(old(self)@, 0, old(self).pos as int) && bridged(
                old(self)@,
                0,
                old(self).pos as int,
            ) ==> is_heap(final(self)@),
            total_order::<T>() ==> final(self)@ == trickled(
                old(self)@,
                min_level(old(self).pos as int),
                old(self).pos as int,
            ),
            final(final(self).data)@ == final(old(self).data)@,
    {
        if self.on_min_level() {
            self.trickle_down_min();
        } else {
            self.trickle_down_max();
        }
    }

    /// Walk the hole down from a position on a min level.
    pub fn trickle_down_min(&mut self)
        requires
            old(self).wf(),
        ensures
            final(self).wf(),
            final(self)@.len() == old(self)@.len(),
            final(self)@.to_multiset() == old(self)@.to_multiset(),
            forall|i: int| 0 <= i < old(self).pos ==> final(self)@[i] == old(self)@[i],
            total_order::<T>() && min_level(old(self).pos as int) && heap_below(
                old(self)@,
                old(self).pos as int,
                old(self).pos as int,
            ) ==> heap_from(final(self)@, old(self).pos as int),
            total_order::<T>() && min_level(old(self).pos as int) && heap_below(
                old(self)@,
                0,
                old(self).pos as int,
            ) && bridged(old(self)@, 0, old(self).pos as int) ==> is_heap(final(self)@),
            total_order::<T>() ==> final(self)@ == trickled(
                old(self)@,
                true,
                old(self).pos as int,
            ),
            final(final(self).data)@ == final(old(self).data)@,
    {
        let ghost start = self@;
        let ghost pos = self.pos as int;
        let ghost whole = heap_below(start, 0, pos) && bridged(start, 0, pos);
        let ghost lo = if whole {
            0
        } else {
            pos
        };
        self.trickle_down_best(less, Ghost(true), Ghost(lo));
        proof {
            lemma_heap_from_start(self@);
            if total_order::<T>() && whole && min_level(pos) {
                lemma_heap_below_later(self@, 0, pos, -1);
            }
        }
    }

    /// Walk the hole down from a position on a max level.
    pub fn trickle_down_max(&mut self)
        requires
            old(self).wf(),
        ensures
            final(self).wf(),
            final(self)@.len() == old(self)@.len(),
            final(self)@.to_multiset() == old(self)@.to_multiset(),
            forall|i: int| 0 <= i < old(self).pos ==> final(self)@[i] == old(self)@[i],
            total_order::<T>() && !min_level(old(self).pos as int) && heap_below(
                old(self)@,
                old(self).pos as int,
                old(self).pos as int,
            ) ==> heap_from(final(self)@, old(self).pos as int),
            total_order::<T>() && !min_level(old(self).pos as int) && heap_below(
                old(self)@,
                0,
                old(self).pos as int,
            ) && bridged(old(self)@, 0, old(self).pos as int) ==> is_heap(final(self)@),
            total_order::<T>() ==> final(self)@ == trickled(
                old(self)@,
                false,
                old(self).pos as int,
            ),
            final(final(self).data)@ == final(old(self).data)@,
    {
        let ghost start = self@;
        let ghost pos = self.pos as int;
        let ghost whole = heap_below(start, 0, pos) && bridged(start, 0, pos);
        let ghost lo = if whole {
            0
        } else {
            pos
        };
        self.trickle_down_best(greater, Ghost(false), Ghost(lo));
        proof {
            lemma_heap_from_start(self@);
            if total_order::<T>() && whole && !min_level(pos) {
                lemma_heap_below_later(self@, 0, pos, -1);
            }
        }
    }
}

} // verus!
