//! Sorting by taking one extreme after the other out of a heap, in the
//! heap's own array.
//!
//! The array is a heap in front and sorted behind: each step moves the
//! greatest (or smallest) value of the heap to the heap's last position,
//! which from then on belongs to the sorted part.

use crate::index::min_level;
use crate::order::{dominates, le, lemma_order_laws, total_order};
use crate::shape::{
    ascending, bridged, descending, heap_below, heap_prefix, in_place, in_place_from, is_heap,
    lemma_bounds_of_contents, lemma_heap_bounds, lemma_heap_from_start, lemma_heap_prefix_taken,
    lemma_levels_around, lemma_root_is_least, lemma_swapped_contents, max_position, swapped,
};
use crate::walk::{lemma_trickled_contents, lemma_trickled_in_order, trickled};
use vstd::prelude::*;

verus! {

/// Where the value to take out of a heap stands: the greatest when
/// sorting upwards, the smallest when sorting downwards.
pub open spec fn extreme_position<T: Ord>(live: Seq<T>, up: bool) -> int {
    if up {
        max_position(live)
    } else {
        0
    }
}

/// The values from `end` on stand where sorting leaves them: each comes
/// after every value that stands before it, in the order asked for.
pub open spec fn settled_tail<T: Ord>(s: Seq<T>, end: int, up: bool) -> bool {
    forall|i: int, j: int|
        0 <= i <= j < s.len() && end <= j ==> dominates(up, #[trigger] s[i], #[trigger] s[j])
}

/// The array after sorting on from a heap of its first `end` values: as
/// long as the heap has more than one value, its extreme changes places
/// with its last value, which then walks down in what is left of the heap.
pub open spec fn sorted_from<T: Ord>(s: Seq<T>, end: int, up: bool) -> Seq<T>
    decreases end,
{
    if 1 < end <= s.len() {
        let at = extreme_position(s.subrange(0, end), up);
        if at < end - 1 {
            let t = swapped(s, at, end - 1);
            let head = trickled(t.subrange(0, end - 1), min_level(at), at);
            sorted_from(head + t.subrange(end - 1, s.len() as int), end - 1, up)
        } else {
            sorted_from(s, end - 1, up)
        }
    } else {
        s
    }
}

/// The array of a heap after it has been sorted in place.
pub open spec fn sorted<T: Ord>(s: Seq<T>, up: bool) -> Seq<T> {
    sorted_from(s, s.len() as int, up)
}

/// Before a step of sorting that has to move a value: with the extreme
/// of the heap and the heap's last value exchanged, the heap without its
/// last position is in order but for what stands below the exchanged
/// value.
pub proof fn lemma_sort_step_ready<T: Ord>(s: Seq<T>, end: int, up: bool)
    requires
        total_order::<T>(),
        2 <= end <= s.len(),
        heap_prefix(s, end),
        extreme_position(s.subrange(0, end), up) < end - 1,
    ensures
        ({
            let at = extreme_position(s.subrange(0, end), up);
            let head = swapped(s, at, end - 1).subrange(0, end - 1);
            &&& 0 <= at <= 2
            &&& up ==> !min_level(at)
            &&& !up ==> min_level(at)
            &&& heap_below(head, 0, at)
            &&& bridged(head, 0, at)
        }),
{
    let live = s.subrange(0, end);
    let at = extreme_position(live, up);
    let head = swapped(s, at, end - 1).subrange(0, end - 1);
    lemma_order_laws::<T>();
    lemma_levels_around(0);
    lemma_heap_prefix_taken(s, end);
    lemma_root_is_least(live, end, end - 1);
    assert forall|d: int| 0 <= d < head.len() implies #[trigger] in_place_from(head, 0, at, d) by {
        assert(in_place(live, d));
    }
}

/// After a step of sorting: the sorted part has grown by the position
/// that was the heap's last, and the contents are the same.
pub proof fn lemma_sort_step_done<T: Ord>(s: Seq<T>, after: Seq<T>, end: int, up: bool)
    requires
        total_order::<T>(),
        2 <= end <= s.len(),
        heap_prefix(s, end),
        settled_tail(s, end, up),
        after.len() == s.len(),
        ({
            let at = extreme_position(s.subrange(0, end), up);
            let t = swapped(s, at, end - 1);
            &&& after.subrange(end - 1, s.len() as int) == t.subrange(end - 1, s.len() as int)
            &&& after.subrange(0, end - 1).to_multiset() == t.subrange(0, end - 1).to_multiset()
        }),
    ensures
        settled_tail(after, end - 1, up),
        after.to_multiset() == s.to_multiset(),
{
    let live = s.subrange(0, end);
    let at = extreme_position(live, up);
    let t = swapped(s, at, end - 1);
    let len = s.len() as int;
    let head = t.subrange(0, end - 1);
    let tail = t.subrange(end - 1, len);
    let front = after.subrange(0, end - 1);
    lemma_order_laws::<T>();
    lemma_heap_prefix_taken(s, end);
    lemma_heap_bounds(live);
    lemma_swapped_contents(s, at, end - 1);
    assert(t =~= head + tail);
    assert(after =~= front + tail);
    vstd::seq_lib::lemma_multiset_commutative(head, tail);
    vstd::seq_lib::lemma_multiset_commutative(front, tail);
    let top = s[at];
    assert(top == live[at]);
    // the value moved behind the heap bounds the heap on the side asked for
    if up {
        assert forall|i: int| 0 <= i < head.len() implies le(#[trigger] head[i], top) by {
            if i == at {
                assert(head[i] == live[end - 1]);
            } else {
                assert(head[i] == live[i]);
            }
        }
        lemma_bounds_of_contents(head, front, top);
    } else {
        assert forall|i: int| 0 <= i < head.len() implies le(top, #[trigger] head[i]) by {
            if i == at {
                assert(head[i] == live[end - 1]);
            } else {
                assert(head[i] == live[i]);
            }
        }
        lemma_bounds_of_contents(head, front, top);
    }
    assert forall|i: int, j: int| 0 <= i <= j < after.len() && end - 1 <= j implies dominates(
        up,
        #[trigger] after[i],
        #[trigger] after[j],
    ) by {
        assert(after[j] == tail[j - (end - 1)]);
        if j >= end {
            assert(after[j] == s[j]);
            if i >= end {
                assert(after[i] == tail[i - (end - 1)]);
                assert(after[i] == s[i]);
            } else if i == end - 1 {
                assert(after[i] == tail[0]);
                assert(after[i] == top);
                assert(dominates(up, s[at], s[j]));
            } else {
                // a value of the heap, wherever it stands now
                if up {
                    assert forall|k: int| 0 <= k < head.len() implies le(
                        #[trigger] head[k],
                        s[j],
                    ) by {
                        if k == at {
                            assert(head[k] == s[end - 1]);
                            assert(dominates(up, s[end - 1], s[j]));
                        } else {
                            assert(head[k] == s[k]);
                            assert(dominates(up, s[k], s[j]));
                        }
                    }
                    lemma_bounds_of_contents(head, front, s[j]);
                    assert(le(front[i], s[j]));
                } else {
                    assert forall|k: int| 0 <= k < head.len() implies le(
                        s[j],
                        #[trigger] head[k],
                    ) by {
                        if k == at {
                            assert(head[k] == s[end - 1]);
                            assert(dominates(up, s[end - 1], s[j]));
                        } else {
                            assert(head[k] == s[k]);
                            assert(dominates(up, s[k], s[j]));
                        }
                    }
                    lemma_bounds_of_contents(head, front, s[j]);
                    assert(le(s[j], front[i]));
                }
                assert(after[i] == front[i]);
            }
        } else {
            assert(after[j] == top);
            if i < end - 1 {
                assert(after[i] == front[i]);
            }
        }
    }
}

/// With at most one value left in the heap, the array is sorted.
pub proof fn lemma_sorted_at_last<T: Ord>(s: Seq<T>, end: int, up: bool)
    requires
        total_order::<T>(),
        end <= 1,
        settled_tail(s, end, up),
    ensures
        up ==> ascending(s),
        !up ==> descending(s),
{
    lemma_order_laws::<T>();
    if up {
        assert forall|i: int, j: int| 0 <= i <= j < s.len() implies le(
            #[trigger] s[i],
            #[trigger] s[j],
        ) by {
            if j >= end {
                assert(dominates(up, s[i], s[j]));
            }
        }
    } else {
        assert forall|i: int, j: int| 0 <= i <= j < s.len() implies le(
            #[trigger] s[j],
            #[trigger] s[i],
        ) by {
            if j >= end {
                assert(dominates(up, s[i], s[j]));
            }
        }
    }
}

/// Sorting on from a heap in front and a sorted part behind sorts the
/// array, and keeps its contents.
pub proof fn lemma_sorted_from<T: Ord>(s: Seq<T>, end: int, up: bool)
    requires
        total_order::<T>(),
        0 <= end <= s.len(),
        heap_prefix(s, end),
        settled_tail(s, end, up),
    ensures
        sorted_from(s, end, up).len() == s.len(),
        sorted_from(s, end, up).to_multiset() == s.to_multiset(),
        up ==> ascending(sorted_from(s, end, up)),
        !up ==> descending(sorted_from(s, end, up)),
    decreases end,
{
    if 1 < end {
        let len = s.len() as int;
        let at = extreme_position(s.subrange(0, end), up);
        if at < end - 1 {
            let t = swapped(s, at, end - 1);
            let before = t.subrange(0, end - 1);
            let head = trickled(before, min_level(at), at);
            let after = head + t.subrange(end - 1, len);
            lemma_sort_step_ready(s, end, up);
            lemma_trickled_contents(before, min_level(at), at);
            lemma_trickled_in_order(before, 0, at);
            lemma_heap_from_start(head);
            assert(after.subrange(0, end - 1) =~= head);
            assert(after.subrange(end - 1, len) =~= t.subrange(end - 1, len));
            lemma_sort_step_done(s, after, end, up);
            lemma_heap_prefix_taken(after, end - 1);
            lemma_sorted_from(after, end - 1, up);
        } else {
            assert(swapped(s, end - 1, end - 1) =~= s);
            lemma_sort_step_done(s, s, end, up);
            assert forall|d: int| 0 <= d < end - 1 implies #[trigger] in_place(s, d) by {}
            lemma_sorted_from(s, end - 1, up);
        }
    } else {
        lemma_sorted_at_last(s, end, up);
    }
}

/// Sorting a heap in place sorts it, and keeps its contents.
pub proof fn lemma_sorted<T: Ord>(s: Seq<T>, up: bool)
    requires
        total_order::<T>(),
        is_heap(s),
    ensures
        sorted(s, up).len() == s.len(),
        sorted(s, up).to_multiset() == s.to_multiset(),
        up ==> ascending(sorted(s, up)),
        !up ==> descending(sorted(s, up)),
{
    lemma_sorted_from(s, s.len() as int, up);
}

} // verus!
