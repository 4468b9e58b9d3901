//! What holds of every heap, stated over the heap's contents.

use crate::heap::MinMaxHeap;
use crate::index::{depth, grandparent_of, min_level, parent_of};
use crate::order::{dominates, le, lemma_order_laws, lemma_usize_order, total_order};
use crate::script::{lemma_pushed_all, pushed_all};
use crate::shape::{
    ascending, descending, in_place, is_heap, lemma_bounds_of_contents, lemma_heap_bounds,
    lemma_levels_around, max_position,
};
use crate::sorting::{lemma_sorted, sorted};
use vstd::prelude::*;

verus! {

/// The ancestor of `i` that stands `k` times two levels above it.
pub open spec fn up_by_twos(i: int, k: nat) -> int
    decreases k,
{
    if k == 0 {
        i
    } else {
        up_by_twos(grandparent_of(i), (k - 1) as nat)
    }
}

/// Equivalent elements of `T` are equal.
pub open spec fn strict_order<T: Ord>() -> bool {
    forall|a: T, b: T| le(a, b) && le(b, a) ==> a == b
}

/// The numbers below `n`, in ascending order.
pub open spec fn counting(n: nat) -> Seq<usize> {
    Seq::new(n, |i: int| i as usize)
}

/// In a heap, a value on a min level is no smaller than the value at any
/// ancestor reached by going up two levels at a time, and a value on a
/// max level no greater.
pub proof fn law_ordered_by_twos<T: Ord>(s: Seq<T>, i: int, k: nat)
    requires
        total_order::<T>(),
        is_heap(s),
        0 <= i < s.len(),
        depth(i as nat) >= 2 * k,
    ensures
        0 <= up_by_twos(i, k) <= i,
        min_level(up_by_twos(i, k)) == min_level(i),
        dominates(min_level(i), s[up_by_twos(i, k)], s[i]),
    decreases k,
{
    lemma_order_laws::<T>();
    if k > 0 {
        assert(i > 2) by {
            if i == 1 || i == 2 {
                assert(depth(i as nat) == 1 + depth(0));
                assert(depth(0nat) == 0);
            }
        }
        let g = grandparent_of(i);
        assert(depth(i as nat) == 1 + depth(parent_of(i) as nat));
        assert(depth(parent_of(i) as nat) == 1 + depth(g as nat));
        lemma_levels_around(i);
        law_ordered_by_twos(s, g, (k - 1) as nat);
        assert(in_place(s, i));
    }
}

/// The minimum and the maximum of a heap are determined by what the heap
/// holds, not by how it came about: two heaps of the same contents have
/// equivalent roots, and equivalent values at their `max_position`s, and
/// these bound the contents of either.
pub proof fn law_extrema_of_contents<T: Ord>(a: Seq<T>, b: Seq<T>)
    requires
        total_order::<T>(),
        is_heap(a),
        is_heap(b),
        a.to_multiset() == b.to_multiset(),
        a.len() > 0,
    ensures
        b.len() == a.len(),
        le(a[0], b[0]) && le(b[0], a[0]),
        le(a[max_position(a)], b[max_position(b)]) && le(b[max_position(b)], a[max_position(a)]),
{
    vstd::seq_lib::to_multiset_len(a);
    vstd::seq_lib::to_multiset_len(b);
    lemma_heap_bounds(a);
    lemma_heap_bounds(b);
    lemma_bounds_of_contents(a, b, a[0]);
    lemma_bounds_of_contents(b, a, b[0]);
    lemma_bounds_of_contents(a, b, a[max_position(a)]);
    lemma_bounds_of_contents(b, a, b[max_position(b)]);
}

/// Where equivalent elements are equal, there is one ascending order of
/// given contents, and one descending.
pub proof fn law_sorted_is_unique<T: Ord>(x: Seq<T>, y: Seq<T>)
    requires
        total_order::<T>(),
        strict_order::<T>(),
        x.to_multiset() == y.to_multiset(),
    ensures
        ascending(x) && ascending(y) ==> x == y,
        descending(x) && descending(y) ==> x == y,
{
    lemma_order_laws::<T>();
    let up = |a: T, b: T| le(a, b);
    let down = |a: T, b: T| le(b, a);
    assert(vstd::relations::total_ordering(up));
    assert(vstd::relations::total_ordering(down));
    if ascending(x) && ascending(y) {
        assert(vstd::relations::sorted_by(x, up));
        assert(vstd::relations::sorted_by(y, up));
        vstd::seq_lib::lemma_sorted_unique(x, y, up);
    }
    if descending(x) && descending(y) {
        assert(vstd::relations::sorted_by(x, down));
        assert(vstd::relations::sorted_by(y, down));
        vstd::seq_lib::lemma_sorted_unique(x, y, down);
    }
}

/// The numbers below `n`, each once, pushed onto an empty heap in
/// whatever order, come back in counting order when the heap is sorted
/// ascending, and in the reverse of it when it is sorted descending.
pub proof fn law_round_trip_sort(pushes: Seq<usize>, n: nat)
    requires
        n <= usize::MAX,
        pushes.to_multiset() == counting(n).to_multiset(),
    ensures
        sorted(pushed_all(Seq::empty(), pushes), true) == counting(n),
        sorted(pushed_all(Seq::empty(), pushes), false) == counting(n).reverse(),
{
    broadcast use vstd::multiset::group_multiset_axioms;

    let nothing = Seq::<usize>::empty();
    let s = pushed_all(nothing, pushes);
    lemma_usize_order();
    lemma_pushed_all(nothing, pushes);
    assert(nothing.to_multiset() =~= vstd::multiset::Multiset::<usize>::empty()) by {
        nothing.to_multiset_ensures();
    }
    assert(s.to_multiset() =~= counting(n).to_multiset());
    lemma_sorted(s, true);
    lemma_sorted(s, false);
    assert(ascending(counting(n)));
    assert(descending(counting(n).reverse()));
    counting(n).lemma_reverse_to_multiset();
    law_sorted_is_unique(sorted(s, true), counting(n));
    law_sorted_is_unique(sorted(s, false), counting(n).reverse());
}

/// Peeking tells the same however often it is done: what `peek_min` and
/// `peek_max` tell is determined by the elements in the order of the
/// array, which neither of them can change.
pub proof fn law_peeks_repeat<T: Ord>(first: MinMaxHeap<T>, second: MinMaxHeap<T>)
    requires
        first@ == second@,
    ensures
        first.smallest() == second.smallest(),
        first.greatest() == second.greatest(),
        first@.len() == second@.len(),
{
}

} // verus!
