//! Sequences of operations, and what holds after any of them.
//!
//! Every operation of the heap says what it makes of the array; here the
//! results are shown to be heaps of the right contents, and with that any
//! sequence of operations, begun on a heap, is shown to end in a heap.

use crate::index::{min_level, parent_of};
use crate::order::{beats, lemma_order_laws, lt, total_order};
use crate::outcome::{
    heapified, heapified_from, pushed, settled_from, with_max_replaced, with_root_replaced,
    without_max, without_root,
};
use crate::shape::{
    heap_around, heap_below, heap_from, in_place, in_place_from, is_heap, lemma_heap_bounds,
    lemma_heap_from_start, lemma_heap_with_hole, lemma_levels_around, lemma_replaced_contents,
    lemma_root_fixed, lemma_root_is_least, lemma_smaller_root, lemma_swapped_contents,
    lemma_takeout_contents, lower_bound, max_position, swapped, upper_bound,
};
use crate::walk::{
    lemma_bubble_start_cross, lemma_bubble_start_stay, lemma_bubbled_contents,
    lemma_bubbled_in_order, lemma_trickled_contents, lemma_trickled_in_order, trickled,
};
use vstd::prelude::*;

verus! {

/// An operation on a heap that changes it.
pub enum Command<T> {
    Push(T),
    PopMin,
    PopMax,
    PushPopMin(T),
    PushPopMax(T),
    ReplaceMin(T),
    ReplaceMax(T),
}

/// The array after the operation `c` on the array `s`.
pub open spec fn after<T: Ord>(s: Seq<T>, c: Command<T>) -> Seq<T> {
    match c {
        Command::Push(x) => pushed(s, x),
        Command::PopMin => without_root(s),
        Command::PopMax => without_max(s),
        Command::PushPopMin(x) => if s.len() > 0 && lt(s[0], x) {
            with_root_replaced(s, x)
        } else {
            s
        },
        Command::PushPopMax(x) => if s.len() > 0 && lt(x, s[max_position(s)]) {
            settled_from(s.update(max_position(s), x), max_position(s))
        } else {
            s
        },
        Command::ReplaceMin(x) => if s.len() > 0 {
            with_root_replaced(s, x)
        } else {
            seq![x]
        },
        Command::ReplaceMax(x) => if s.len() > 0 {
            with_max_replaced(s, x)
        } else {
            seq![x]
        },
    }
}

/// The array after the operations `script`, one after the other, on the
/// array `s`.
pub open spec fn after_all<T: Ord>(s: Seq<T>, script: Seq<Command<T>>) -> Seq<T>
    decreases script.len(),
{
    if script.len() == 0 {
        s
    } else {
        after_all(after(s, script[0]), script.drop_first())
    }
}

/// Pushing onto a heap gives a heap with one element more.
pub proof fn lemma_pushed<T: Ord>(s: Seq<T>, x: T)
    requires
        total_order::<T>(),
        is_heap(s),
    ensures
        is_heap(pushed(s, x)),
        pushed(s, x).len() == s.len() + 1,
        pushed(s, x).to_multiset() == s.to_multiset().insert(x),
{
    broadcast use vstd::seq_lib::to_multiset_build;

    let t = s.push(x);
    let pos = s.len() as int;
    let min = min_level(pos);
    assert forall|d: int| 0 <= d < pos implies #[trigger] in_place(t, d) by {
        assert(in_place(s, d));
    }
    if pos > 0 && beats(!min, t[pos], t[parent_of(pos)]) {
        let p = parent_of(pos);
        lemma_bubble_start_cross(t);
        lemma_levels_around(pos);
        lemma_swapped_contents(t, pos, p);
        lemma_bubbled_in_order(swapped(t, pos, p), p);
        lemma_bubbled_contents(swapped(t, pos, p), !min, p);
    } else {
        lemma_bubble_start_stay(t);
        lemma_bubbled_in_order(t, pos);
        lemma_bubbled_contents(t, min, pos);
    }
}

/// The array after the values `xs` have been pushed, the first of them
/// first.
pub open spec fn pushed_all<T: Ord>(s: Seq<T>, xs: Seq<T>) -> Seq<T>
    decreases xs.len(),
{
    if xs.len() == 0 {
        s
    } else {
        pushed_all(pushed(s, xs[0]), xs.drop_first())
    }
}

/// Pushing values onto a heap, in whatever order, gives a heap of what
/// was there and what was pushed.
pub proof fn lemma_pushed_all<T: Ord>(s: Seq<T>, xs: Seq<T>)
    requires
        total_order::<T>(),
        is_heap(s),
    ensures
        is_heap(pushed_all(s, xs)),
        pushed_all(s, xs).len() == s.len() + xs.len(),
        pushed_all(s, xs).to_multiset() == s.to_multiset().add(xs.to_multiset()),
    decreases xs.len(),
{
    broadcast use vstd::multiset::group_multiset_axioms;

    if xs.len() == 0 {
        assert(xs.to_multiset() =~= vstd::multiset::Multiset::<T>::empty()) by {
            xs.to_multiset_ensures();
        }
        assert(s.to_multiset().add(xs.to_multiset()) =~= s.to_multiset());
    } else {
        let rest = xs.drop_first();
        lemma_pushed(s, xs[0]);
        lemma_pushed_all(pushed(s, xs[0]), rest);
        assert(xs.to_multiset() =~= rest.to_multiset().insert(xs[0])) by {
            assert(xs =~= seq![xs[0]] + rest);
            vstd::seq_lib::lemma_multiset_commutative(seq![xs[0]], rest);
            assert(seq![xs[0]] =~= Seq::<T>::empty().push(xs[0]));
            Seq::<T>::empty().to_multiset_ensures();
        }
        assert(s.to_multiset().insert(xs[0]).add(rest.to_multiset()) =~= s.to_multiset().add(
            xs.to_multiset(),
        ));
    }
}

/// Taking the root out of an array that is in order below its root gives
/// a heap of the other elements.
pub proof fn lemma_without_root<T: Ord>(s: Seq<T>)
    requires
        total_order::<T>(),
        heap_below(s, 0, 0),
        s.len() > 0,
    ensures
        is_heap(without_root(s)),
        without_root(s).len() == s.len() - 1,
        without_root(s).to_multiset() == s.to_multiset().remove(s[0]),
{
    if s.len() == 1 {
        lemma_takeout_contents(s, s, 0);
        assert(s.drop_last() =~= Seq::<T>::empty());
    } else {
        let t = s.drop_last().update(0, s.last());
        lemma_takeout_contents(s, t, 0);
        assert forall|d: int| 0 <= d < t.len() implies #[trigger] in_place_from(t, 0, 0, d) by {
            assert(in_place_from(s, 0, 0, d));
        }
        lemma_trickled_in_order(t, 0, 0);
        lemma_trickled_contents(t, true, 0);
        lemma_heap_from_start(trickled(t, true, 0));
    }
}

/// Taking the greatest element out of a heap gives a heap of the other
/// elements.
pub proof fn lemma_without_max<T: Ord>(s: Seq<T>)
    requires
        total_order::<T>(),
        is_heap(s),
        s.len() > 0,
    ensures
        is_heap(without_max(s)),
        without_max(s).len() == s.len() - 1,
        without_max(s).to_multiset() == s.to_multiset().remove(s[max_position(s)]),
{
    let m = max_position(s);
    if m == s.len() - 1 {
        lemma_takeout_contents(s, s, m);
        assert forall|d: int| 0 <= d < s.len() - 1 implies #[trigger] in_place(
            s.drop_last(),
            d,
        ) by {
            assert(in_place(s, d));
        }
    } else {
        let t = s.drop_last().update(m, s.last());
        lemma_takeout_contents(s, t, m);
        lemma_order_laws::<T>();
        lemma_levels_around(0);
        lemma_root_is_least(s, s.len() as int, s.len() - 1);
        assert forall|d: int| 0 <= d < t.len() implies #[trigger] in_place_from(t, 0, m, d) by {
            assert(in_place(s, d));
        }
        lemma_trickled_in_order(t, 0, m);
        lemma_trickled_contents(t, false, m);
        lemma_heap_from_start(trickled(t, false, m));
    }
}

/// Writing over the root of an array that is in order below its root,
/// and letting what was written walk down, gives a heap.
pub proof fn lemma_with_root_replaced<T: Ord>(s: Seq<T>, x: T)
    requires
        total_order::<T>(),
        heap_below(s, 0, 0),
        s.len() > 0,
    ensures
        is_heap(with_root_replaced(s, x)),
        with_root_replaced(s, x).len() == s.len(),
        with_root_replaced(s, x).to_multiset() == s.to_multiset().insert(x).remove(s[0]),
{
    broadcast use vstd::seq_lib::to_multiset_update;

    let t = s.update(0, x);
    assert forall|d: int| 0 <= d < t.len() implies #[trigger] in_place_from(t, 0, 0, d) by {
        assert(in_place_from(s, 0, 0, d));
    }
    lemma_trickled_in_order(t, 0, 0);
    lemma_trickled_contents(t, true, 0);
    lemma_heap_from_start(trickled(t, true, 0));
}

/// Putting in order the value at the root of an array of one, or at a
/// child of the root of an array that is in order otherwise, gives a heap
/// of the same contents.
pub proof fn lemma_settled_from<T: Ord>(s: Seq<T>, at: int)
    requires
        total_order::<T>(),
        0 <= at < s.len(),
        at <= 2,
        at == 0 ==> s.len() == 1,
        heap_around(s, at),
    ensures
        is_heap(settled_from(s, at)),
        settled_from(s, at).len() == s.len(),
        settled_from(s, at).to_multiset() == s.to_multiset(),
{
    let fixed = if at > 0 && lt(s[at], s[0]) {
        swapped(s, at, 0)
    } else {
        s
    };
    lemma_root_fixed(s, fixed, at);
    lemma_swapped_contents(s, at, 0);
    lemma_trickled_contents(fixed, false, at);
    if at == 0 {
        assert forall|d: int| 0 <= d < s.len() implies #[trigger] in_place(
            trickled(fixed, false, at),
            d,
        ) by {}
    } else {
        lemma_levels_around(0);
        lemma_trickled_in_order(fixed, 0, at);
        lemma_heap_from_start(trickled(fixed, false, at));
    }
}

/// Putting an element in the place of the greatest of a heap gives a heap
/// of the other elements and the new one.
pub proof fn lemma_with_max_replaced<T: Ord>(s: Seq<T>, x: T)
    requires
        total_order::<T>(),
        is_heap(s),
        s.len() > 0,
    ensures
        is_heap(with_max_replaced(s, x)),
        with_max_replaced(s, x).len() == s.len(),
        with_max_replaced(s, x).to_multiset() == s.to_multiset().insert(x).remove(
            s[max_position(s)],
        ),
{
    let m = max_position(s);
    lemma_heap_with_hole(s, m);
    if s.len() > 1 && lt(x, s[0]) {
        let rooted = s.update(0, x);
        let written = rooted.update(m, s[0]);
        lemma_smaller_root(s, x);
        assert(heap_around(rooted, m));
        assert forall|d: int| 0 <= d < written.len() && d != m implies #[trigger] in_place_from(
            written,
            0,
            m,
            d,
        ) by {
            assert(in_place_from(rooted, 0, m, d));
        }
        lemma_replaced_contents(s, rooted, written, x, m);
        lemma_settled_from(written, m);
    } else {
        let written = s.update(m, x);
        assert forall|d: int| 0 <= d < written.len() && d != m implies #[trigger] in_place_from(
            written,
            0,
            m,
            d,
        ) by {
            assert(in_place_from(s, 0, m, d));
        }
        lemma_replaced_contents(s, s, written, x, m);
        lemma_settled_from(written, m);
    }
}

/// Letting the values before `n` walk down, the last of them first,
/// makes a heap of an array that is in order from `n` on.
pub proof fn lemma_heapified_from<T: Ord>(s: Seq<T>, n: int)
    requires
        total_order::<T>(),
        0 <= n <= s.len(),
        heap_from(s, n),
    ensures
        is_heap(heapified_from(s, n)),
        heapified_from(s, n).len() == s.len(),
        heapified_from(s, n).to_multiset() == s.to_multiset(),
    decreases n,
{
    if n > 0 {
        let pos = n - 1;
        let t = trickled(s, min_level(pos), pos);
        assert forall|d: int| 0 <= d < s.len() implies #[trigger] in_place_from(s, pos, pos, d) by {
            assert(in_place_from(s, n, -1, d));
        }
        lemma_trickled_in_order(s, pos, pos);
        lemma_trickled_contents(s, min_level(pos), pos);
        lemma_heapified_from(t, pos);
    } else {
        lemma_heap_from_start(s);
    }
}

/// Arranging an array as a heap from the bottom up gives a heap of the
/// same contents.
pub proof fn lemma_heapified<T: Ord>(s: Seq<T>)
    requires
        total_order::<T>(),
    ensures
        is_heap(heapified(s)),
        heapified(s).len() == s.len(),
        heapified(s).to_multiset() == s.to_multiset(),
{
    let n = s.len() as int / 2;
    assert forall|d: int| 0 <= d < s.len() implies #[trigger] in_place_from(s, n, -1, d) by {}
    lemma_heapified_from(s, n);
}

/// Every operation makes a heap of a heap.
pub proof fn law_heap_after<T: Ord>(s: Seq<T>, c: Command<T>)
    requires
        total_order::<T>(),
        is_heap(s),
    ensures
        is_heap(after(s, c)),
{
    lemma_heap_with_hole(s, 0);
    match c {
        Command::Push(x) => {
            lemma_pushed(s, x);
        },
        Command::PopMin => {
            if s.len() > 0 {
                lemma_without_root(s);
            } else {
                assert(without_root(s) =~= s);
            }
        },
        Command::PopMax => {
            if s.len() > 0 {
                lemma_without_max(s);
            }
        },
        Command::PushPopMin(x) => {
            if s.len() > 0 {
                lemma_with_root_replaced(s, x);
            }
        },
        Command::PushPopMax(x) => {
            if s.len() > 0 {
                let m = max_position(s);
                lemma_heap_with_hole(s, m);
                let written = s.update(m, x);
                assert forall|d: int|
                    0 <= d < written.len() && d != m implies #[trigger] in_place_from(
                    written,
                    0,
                    m,
                    d,
                ) by {
                    assert(in_place_from(s, 0, m, d));
                }
                lemma_settled_from(written, m);
            }
        },
        Command::ReplaceMin(x) => {
            if s.len() > 0 {
                lemma_with_root_replaced(s, x);
            } else {
                assert forall|d: int| 0 <= d < 1 implies #[trigger] in_place(seq![x], d) by {}
            }
        },
        Command::ReplaceMax(x) => {
            if s.len() > 0 {
                lemma_with_max_replaced(s, x);
            } else {
                assert forall|d: int| 0 <= d < 1 implies #[trigger] in_place(seq![x], d) by {}
            }
        },
    }
}

/// After any sequence of operations on a heap the array is a heap again,
/// and so its root is no greater, and the value at its `max_position` no
/// smaller, than any of its values.
pub proof fn law_heap_after_all<T: Ord>(s: Seq<T>, script: Seq<Command<T>>)
    requires
        total_order::<T>(),
        is_heap(s),
    ensures
        is_heap(after_all(s, script)),
        after_all(s, script).len() > 0 ==> lower_bound(
            after_all(s, script),
            after_all(s, script)[0],
        ) && upper_bound(
            after_all(s, script),
            after_all(s, script)[max_position(after_all(s, script))],
        ),
    decreases script.len(),
{
    if script.len() > 0 {
        law_heap_after(s, script[0]);
        law_heap_after_all(after(s, script[0]), script.drop_first());
    }
    if after_all(s, script).len() > 0 {
        lemma_heap_bounds(after_all(s, script));
    }
}

} // verus!
