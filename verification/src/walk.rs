//! The two walks that put a heap in order again, and why they do.
//!
//! The walk down starts where an element was put in the place of another:
//! it lets the best of the children and grandchildren come up as long as
//! one of them beats the element. The walk up starts at a new last
//! element: it lets the element rise from grandparent to grandparent as
//! long as it beats the one there. Everything here is about sequences and
//! positions; nothing is executed.

use crate::index::{child1_of, child2_of, grandparent_of, min_level, parent_of};
use crate::order::{beats, lemma_order_laws, total_order};
use crate::shape::{
    bridged, covers, heap_above, heap_below, heap_from, heap_prefix, in_place, in_place_from,
    in_place_up, is_heap, lemma_levels_around, lemma_swapped_contents, rel, swapped,
};
use vstd::prelude::*;

verus! {

/// `cand` if it is a position of `s` whose value beats the one at `best`,
/// else `best`.
pub open spec fn better<T: Ord>(s: Seq<T>, min: bool, best: int, cand: int) -> int {
    if cand < s.len() && beats(min, s[cand], s[best]) {
        cand
    } else {
        best
    }
}

/// The position, among `pos`, its children and its grandchildren, of the
/// value that beats all the others; of several such, the first in the
/// order child 1, child 2, grandchildren 1 to 4, and `pos` itself before
/// any of them.
pub open spec fn best_of<T: Ord>(s: Seq<T>, min: bool, pos: int) -> int {
    let b1 = better(s, min, pos, child1_of(pos));
    let b2 = better(s, min, b1, child2_of(pos));
    let b3 = better(s, min, b2, child1_of(child1_of(pos)));
    let b4 = better(s, min, b3, child2_of(child1_of(pos)));
    let b5 = better(s, min, b4, child1_of(child2_of(pos)));
    better(s, min, b5, child2_of(child2_of(pos)))
}

/// `m` holds the value that `best_of` looks for around `pos`.
pub open spec fn is_best<T: Ord>(s: Seq<T>, min: bool, pos: int, m: int) -> bool {
    &&& pos <= m < s.len()
    &&& m == pos || m == child1_of(pos) || m == child2_of(pos) || (child1_of(child1_of(pos)) <= m
        <= child2_of(child2_of(pos)))
    &&& m != pos ==> beats(min, s[m], s[pos])
    &&& covers(s, min, m, pos)
    &&& covers(s, min, m, child1_of(pos))
    &&& covers(s, min, m, child2_of(pos))
    &&& covers(s, min, m, child1_of(child1_of(pos)))
    &&& covers(s, min, m, child2_of(child1_of(pos)))
    &&& covers(s, min, m, child1_of(child2_of(pos)))
    &&& covers(s, min, m, child2_of(child2_of(pos)))
}

/// What `best_of` picks: the position itself, or a child or grandchild
/// whose value beats the one at the position; and a value that may stand
/// above all of them.
pub proof fn lemma_best_of<T: Ord>(s: Seq<T>, min: bool, pos: int)
    requires
        total_order::<T>(),
        0 <= pos < s.len(),
    ensures
        is_best(s, min, pos, best_of(s, min, pos)),
{
    lemma_order_laws::<T>();
}

/// The sequence after one step of the walk down through the grandchild
/// `m` of `pos`: the values at `pos` and `m` exchanged, and then those at
/// `m` and its parent where the parent's value beats the one brought down.
pub open spec fn stepped_down<T: Ord>(s: Seq<T>, min: bool, pos: int, m: int) -> Seq<T> {
    let t = swapped(s, pos, m);
    if beats(min, t[parent_of(m)], t[m]) {
        swapped(t, m, parent_of(m))
    } else {
        t
    }
}

/// The sequence after the walk down from `pos`: as long as a child or
/// grandchild holds a value that beats the one on the move, the best of
/// them changes places with it; the walk ends after a child has, and goes
/// on from a grandchild as `stepped_down` says.
pub open spec fn trickled<T: Ord>(s: Seq<T>, min: bool, pos: int) -> Seq<T>
    decreases s.len() - pos,
{
    let m = best_of(s, min, pos);
    if 0 <= pos < m < s.len() {
        if m <= child2_of(pos) {
            swapped(s, pos, m)
        } else {
            trickled(stepped_down(s, min, pos, m), min, m)
        }
    } else {
        s
    }
}

/// The sequence after the walk up from `pos` among the levels of one
/// kind: as long as the value on the move beats the one at its
/// grandparent, the two change places.
pub open spec fn bubbled_along<T: Ord>(s: Seq<T>, min: bool, pos: int) -> Seq<T>
    decreases pos,
{
    if 2 < pos < s.len() && beats(min, s[pos], s[grandparent_of(pos)]) {
        bubbled_along(swapped(s, pos, grandparent_of(pos)), min, grandparent_of(pos))
    } else {
        s
    }
}

/// The sequence after the walk up from `pos`: where the value there does
/// not respect its parent, the two change places and the walk goes on
/// from the parent among the levels of the parent's kind; else it goes on
/// from `pos` among the levels of its own kind.
pub open spec fn bubbled<T: Ord>(s: Seq<T>, pos: int) -> Seq<T> {
    let min = min_level(pos);
    if 0 < pos < s.len() && beats(!min, s[pos], s[parent_of(pos)]) {
        bubbled_along(swapped(s, pos, parent_of(pos)), !min, parent_of(pos))
    } else {
        bubbled_along(s, min, pos)
    }
}

/// Walking down ends where the value at `pos` beats nothing below it.
pub proof fn lemma_trickle_done<T: Ord>(s: Seq<T>, lo: int, pos: int)
    requires
        total_order::<T>(),
        0 <= pos < s.len(),
        heap_below(s, lo, pos),
        best_of(s, min_level(pos), pos) == pos,
    ensures
        heap_from(s, lo),
{
    lemma_order_laws::<T>();
    lemma_best_of(s, min_level(pos), pos);
    assert forall|d: int| 0 <= d < s.len() implies #[trigger] in_place_from(s, lo, -1, d) by {
        assert(in_place_from(s, lo, pos, d));
    }
}

proof fn lemma_trickle_child_at<T: Ord>(s: Seq<T>, lo: int, pos: int, m: int, d: int)
    requires
        total_order::<T>(),
        0 <= pos < s.len(),
        heap_below(s, lo, pos),
        bridged(s, lo, pos),
        is_best(s, min_level(pos), pos, m),
        m == child1_of(pos) || m == child2_of(pos),
        0 <= d < s.len(),
    ensures
        in_place_from(swapped(s, pos, m), lo, -1, d),
{
    let min = min_level(pos);
    let t = swapped(s, pos, m);
    lemma_order_laws::<T>();
    lemma_levels_around(pos);
    lemma_levels_around(m);
    assert(in_place_from(s, lo, pos, pos));
    assert(in_place_from(s, lo, pos, m));
    assert(in_place_from(s, lo, pos, d));
    if d > 0 && parent_of(d) >= lo {
        let p = parent_of(d);
        if p == pos {
            assert(rel(t, p, d));
        } else if p == m {
            assert(rel(t, p, d));
        } else if d == pos {
            assert(rel(t, p, d));
        } else {
            assert(rel(t, p, d));
        }
    }
    if d > 2 && grandparent_of(d) >= lo {
        let g = grandparent_of(d);
        if g == pos {
            assert(rel(t, g, d));
        } else if g == m {
            assert(rel(t, g, d));
        } else if d == pos {
            assert(rel(t, g, d));
        } else if d == m {
            assert(rel(t, g, d));
        } else {
            assert(rel(t, g, d));
        }
    }
}

/// Walking down ends with an exchange with a child, where a child holds
/// the best value.
pub proof fn lemma_trickle_child<T: Ord>(s: Seq<T>, lo: int, pos: int)
    requires
        total_order::<T>(),
        0 <= pos < s.len(),
        heap_below(s, lo, pos),
        bridged(s, lo, pos),
        best_of(s, min_level(pos), pos) != pos,
        best_of(s, min_level(pos), pos) <= child2_of(pos),
    ensures
        heap_from(swapped(s, pos, best_of(s, min_level(pos), pos)), lo),
{
    let min = min_level(pos);
    let m = best_of(s, min, pos);
    let t = swapped(s, pos, m);
    lemma_best_of(s, min, pos);
    assert forall|d: int| 0 <= d < t.len() implies #[trigger] in_place_from(t, lo, -1, d) by {
        lemma_trickle_child_at(s, lo, pos, m, d);
    }
}

proof fn lemma_trickle_grandchild_at<T: Ord>(s: Seq<T>, lo: int, pos: int, m: int, d: int)
    requires
        total_order::<T>(),
        0 <= pos < s.len(),
        heap_below(s, lo, pos),
        bridged(s, lo, pos),
        is_best(s, min_level(pos), pos, m),
        m > child2_of(pos),
        0 <= d < s.len(),
    ensures
        in_place_from(stepped_down(s, min_level(pos), pos, m), lo, m, d),
{
    let min = min_level(pos);
    let c = parent_of(m);
    let u = stepped_down(s, min, pos, m);
    lemma_order_laws::<T>();
    lemma_levels_around(pos);
    lemma_levels_around(c);
    assert(in_place_from(s, lo, pos, pos));
    assert(in_place_from(s, lo, pos, c));
    assert(in_place_from(s, lo, pos, m));
    assert(in_place_from(s, lo, pos, d));
    if d > 0 && parent_of(d) >= lo && parent_of(d) != m {
        let p = parent_of(d);
        if p == pos {
            assert(rel(u, p, d));
        } else if p == c {
            assert(rel(u, p, d));
        } else if d == pos {
            assert(rel(u, p, d));
        } else {
            assert(rel(u, p, d));
        }
    }
    if d > 2 && grandparent_of(d) >= lo && grandparent_of(d) != m {
        let g = grandparent_of(d);
        if g == pos {
            assert(rel(u, g, d));
        } else if g == c {
            assert(rel(u, g, d));
        } else if d == pos {
            assert(rel(u, g, d));
        } else if d == c {
            assert(rel(u, g, d));
        } else {
            assert(rel(u, g, d));
        }
    }
}

proof fn lemma_trickle_grandchild_covers<T: Ord>(s: Seq<T>, lo: int, pos: int, m: int, k: int)
    requires
        total_order::<T>(),
        0 <= pos < s.len(),
        heap_below(s, lo, pos),
        is_best(s, min_level(pos), pos, m),
        m > child2_of(pos),
        pos >= lo,
        parent_of(k) == m || grandparent_of(k) == m,
        k > m,
    ensures
        covers(stepped_down(s, min_level(pos), pos, m), min_level(pos), pos, k),
{
    let min = min_level(pos);
    lemma_levels_around(pos);
    lemma_levels_around(parent_of(m));
    if k < s.len() {
        assert(in_place_from(s, lo, pos, k));
    }
}

/// Walking down goes on from a grandchild, where a grandchild holds the
/// best value.
pub proof fn lemma_trickle_grandchild<T: Ord>(s: Seq<T>, lo: int, pos: int)
    requires
        total_order::<T>(),
        0 <= pos < s.len(),
        heap_below(s, lo, pos),
        bridged(s, lo, pos),
        best_of(s, min_level(pos), pos) > child2_of(pos),
    ensures
        ({
            let m = best_of(s, min_level(pos), pos);
            let u = stepped_down(s, min_level(pos), pos, m);
            heap_below(u, lo, m) && bridged(u, lo, m)
        }),
{
    let min = min_level(pos);
    let m = best_of(s, min, pos);
    let u = stepped_down(s, min, pos, m);
    lemma_best_of(s, min, pos);
    assert forall|d: int| 0 <= d < u.len() implies #[trigger] in_place_from(u, lo, m, d) by {
        lemma_trickle_grandchild_at(s, lo, pos, m, d);
    }
    lemma_levels_around(pos);
    lemma_levels_around(parent_of(m));
    if pos >= lo {
        lemma_trickle_grandchild_covers(s, lo, pos, m, child1_of(m));
        lemma_trickle_grandchild_covers(s, lo, pos, m, child2_of(m));
        lemma_trickle_grandchild_covers(s, lo, pos, m, child1_of(child1_of(m)));
        lemma_trickle_grandchild_covers(s, lo, pos, m, child2_of(child1_of(m)));
        lemma_trickle_grandchild_covers(s, lo, pos, m, child1_of(child2_of(m)));
        lemma_trickle_grandchild_covers(s, lo, pos, m, child2_of(child2_of(m)));
    }
}

/// A walk down keeps the length and the contents of the array.
pub proof fn lemma_trickled_contents<T: Ord>(s: Seq<T>, min: bool, pos: int)
    ensures
        trickled(s, min, pos).len() == s.len(),
        trickled(s, min, pos).to_multiset() == s.to_multiset(),
    decreases s.len() - pos,
{
    let m = best_of(s, min, pos);
    if 0 <= pos < m < s.len() {
        lemma_swapped_contents(s, pos, m);
        if m > child2_of(pos) {
            lemma_swapped_contents(swapped(s, pos, m), m, parent_of(m));
            lemma_trickled_contents(stepped_down(s, min, pos, m), min, m);
        }
    }
}

/// A walk down from `pos` puts in order what stood in order but for what
/// is below `pos`.
pub proof fn lemma_trickled_in_order<T: Ord>(s: Seq<T>, lo: int, pos: int)
    requires
        total_order::<T>(),
        0 <= pos < s.len(),
        heap_below(s, lo, pos),
        bridged(s, lo, pos),
    ensures
        heap_from(trickled(s, min_level(pos), pos), lo),
    decreases s.len() - pos,
{
    let min = min_level(pos);
    let m = best_of(s, min, pos);
    lemma_best_of(s, min, pos);
    if m == pos {
        lemma_trickle_done(s, lo, pos);
    } else if m <= child2_of(pos) {
        lemma_trickle_child(s, lo, pos);
    } else {
        lemma_trickle_grandchild(s, lo, pos);
        lemma_levels_around(pos);
        lemma_trickled_in_order(stepped_down(s, min, pos, m), lo, m);
    }
}

proof fn lemma_bubble_step_at<T: Ord>(s: Seq<T>, pos: int, d: int)
    requires
        total_order::<T>(),
        2 < pos < s.len(),
        heap_above(s, pos),
        bridged(s, 0, pos),
        beats(min_level(pos), s[pos], s[grandparent_of(pos)]),
        0 <= d < s.len(),
    ensures
        in_place_up(swapped(s, pos, grandparent_of(pos)), grandparent_of(pos), d),
{
    let min = min_level(pos);
    let g = grandparent_of(pos);
    let t = swapped(s, pos, g);
    lemma_order_laws::<T>();
    lemma_levels_around(pos);
    lemma_levels_around(g);
    assert(in_place_up(s, pos, pos));
    assert(in_place_up(s, pos, parent_of(pos)));
    assert(in_place_up(s, pos, g));
    assert(in_place_up(s, pos, d));
    if d > 0 {
        let p = parent_of(d);
        if p == pos {
            assert(rel(t, p, d));
        } else if p == g {
            assert(rel(t, p, d));
        } else if d == pos {
            assert(rel(t, p, d));
        } else if d == g {
            assert(rel(t, p, d));
        } else {
            assert(rel(t, p, d));
        }
    }
    if d > 2 && d != g {
        let gg = grandparent_of(d);
        if gg == pos {
            assert(rel(t, gg, d));
        } else if gg == g {
            assert(rel(t, gg, d));
        } else {
            assert(rel(t, gg, d));
        }
    }
}

proof fn lemma_bubble_step_covers<T: Ord>(s: Seq<T>, pos: int, k: int)
    requires
        total_order::<T>(),
        2 < pos < s.len(),
        heap_above(s, pos),
        beats(min_level(pos), s[pos], s[grandparent_of(pos)]),
        grandparent_of(pos) > 2,
        parent_of(k) == grandparent_of(pos) || grandparent_of(k) == grandparent_of(pos),
        k > grandparent_of(pos),
    ensures
        covers(
            swapped(s, pos, grandparent_of(pos)),
            min_level(pos),
            grandparent_of(grandparent_of(pos)),
            k,
        ),
{
    let g = grandparent_of(pos);
    lemma_order_laws::<T>();
    lemma_levels_around(pos);
    lemma_levels_around(g);
    assert(in_place_up(s, pos, g));
    if k < s.len() {
        assert(in_place_up(s, pos, k));
    }
}

/// Walking up goes on from the grandparent, where the value at `pos`
/// beats the one there.
pub proof fn lemma_bubble_step<T: Ord>(s: Seq<T>, pos: int)
    requires
        total_order::<T>(),
        2 < pos < s.len(),
        heap_above(s, pos),
        bridged(s, 0, pos),
        beats(min_level(pos), s[pos], s[grandparent_of(pos)]),
    ensures
        heap_above(swapped(s, pos, grandparent_of(pos)), grandparent_of(pos)),
        bridged(swapped(s, pos, grandparent_of(pos)), 0, grandparent_of(pos)),
{
    let g = grandparent_of(pos);
    let t = swapped(s, pos, g);
    assert forall|d: int| 0 <= d < t.len() implies #[trigger] in_place_up(t, g, d) by {
        lemma_bubble_step_at(s, pos, d);
    }
    lemma_levels_around(pos);
    if g > 2 {
        lemma_bubble_step_covers(s, pos, child1_of(g));
        lemma_bubble_step_covers(s, pos, child2_of(g));
        lemma_bubble_step_covers(s, pos, child1_of(child1_of(g)));
        lemma_bubble_step_covers(s, pos, child2_of(child1_of(g)));
        lemma_bubble_step_covers(s, pos, child1_of(child2_of(g)));
        lemma_bubble_step_covers(s, pos, child2_of(child2_of(g)));
    }
}

/// Walking up ends where there is no grandparent, or the value at `pos`
/// does not beat the one there.
pub proof fn lemma_bubble_done<T: Ord>(s: Seq<T>, pos: int)
    requires
        total_order::<T>(),
        0 <= pos < s.len(),
        heap_above(s, pos),
        pos <= 2 || !beats(min_level(pos), s[pos], s[grandparent_of(pos)]),
    ensures
        is_heap(s),
{
    lemma_order_laws::<T>();
    lemma_levels_around(pos);
    assert forall|d: int| 0 <= d < s.len() implies #[trigger] in_place(s, d) by {
        assert(in_place_up(s, pos, d));
    }
}

/// A value appended to a heap that respects its parent is ready to walk
/// up among the levels of its own kind.
pub proof fn lemma_bubble_start_stay<T: Ord>(s: Seq<T>)
    requires
        total_order::<T>(),
        s.len() > 0,
        heap_prefix(s, s.len() - 1),
        s.len() == 1 || !beats(
            !min_level(s.len() - 1),
            s[s.len() - 1],
            s[parent_of(s.len() - 1)],
        ),
    ensures
        heap_above(s, s.len() - 1),
        bridged(s, 0, s.len() - 1),
{
    let pos = s.len() - 1;
    lemma_order_laws::<T>();
    lemma_levels_around(pos);
    assert forall|d: int| 0 <= d < s.len() implies #[trigger] in_place_up(s, pos, d) by {
        if d < pos {
            assert(in_place(s, d));
        }
    }
}

proof fn lemma_bubble_start_cross_at<T: Ord>(s: Seq<T>, d: int)
    requires
        total_order::<T>(),
        s.len() > 1,
        heap_prefix(s, s.len() - 1),
        beats(!min_level(s.len() - 1), s[s.len() - 1], s[parent_of(s.len() - 1)]),
        0 <= d < s.len(),
    ensures
        in_place_up(
            swapped(s, s.len() - 1, parent_of(s.len() - 1)),
            parent_of(s.len() - 1),
            d,
        ),
{
    let pos = s.len() - 1;
    let p = parent_of(pos);
    let t = swapped(s, pos, p);
    lemma_order_laws::<T>();
    lemma_levels_around(pos);
    lemma_levels_around(p);
    assert(in_place(s, p));
    if d < pos {
        assert(in_place(s, d));
    }
    if d > 0 {
        let q = parent_of(d);
        if q == p {
            assert(rel(t, q, d));
        } else if d == p {
            assert(rel(t, q, d));
        } else {
            assert(rel(t, q, d));
        }
    }
    if d > 2 && d != p {
        let g = grandparent_of(d);
        if d == pos {
            assert(rel(t, g, d));
        } else {
            assert(rel(t, g, d));
        }
    }
}

/// A value appended to a heap that does not respect its parent changes
/// places with it, and is then ready to walk up among the levels of the
/// parent's kind.
pub proof fn lemma_bubble_start_cross<T: Ord>(s: Seq<T>)
    requires
        total_order::<T>(),
        s.len() > 1,
        heap_prefix(s, s.len() - 1),
        beats(!min_level(s.len() - 1), s[s.len() - 1], s[parent_of(s.len() - 1)]),
    ensures
        heap_above(swapped(s, s.len() - 1, parent_of(s.len() - 1)), parent_of(s.len() - 1)),
        bridged(swapped(s, s.len() - 1, parent_of(s.len() - 1)), 0, parent_of(s.len() - 1)),
{
    let pos = s.len() - 1;
    let p = parent_of(pos);
    let t = swapped(s, pos, p);
    assert forall|d: int| 0 <= d < t.len() implies #[trigger] in_place_up(t, p, d) by {
        lemma_bubble_start_cross_at(s, d);
    }
    lemma_order_laws::<T>();
    lemma_levels_around(pos);
    lemma_levels_around(p);
    assert(in_place(s, p));
    if child1_of(p) < pos {
        assert(in_place(s, child1_of(p)));
    }
}

/// A walk up keeps the length and the contents of the array.
pub proof fn lemma_bubbled_contents<T: Ord>(s: Seq<T>, min: bool, pos: int)
    ensures
        bubbled_along(s, min, pos).len() == s.len(),
        bubbled_along(s, min, pos).to_multiset() == s.to_multiset(),
    decreases pos,
{
    if 2 < pos < s.len() && beats(min, s[pos], s[grandparent_of(pos)]) {
        lemma_swapped_contents(s, pos, grandparent_of(pos));
        lemma_bubbled_contents(swapped(s, pos, grandparent_of(pos)), min, grandparent_of(pos));
    }
}

/// A walk up from `pos` makes a heap of what was one but for the value at
/// `pos` and its grandparent.
pub proof fn lemma_bubbled_in_order<T: Ord>(s: Seq<T>, pos: int)
    requires
        total_order::<T>(),
        0 <= pos < s.len(),
        heap_above(s, pos),
        bridged(s, 0, pos),
    ensures
        is_heap(bubbled_along(s, min_level(pos), pos)),
    decreases pos,
{
    if pos > 2 && beats(min_level(pos), s[pos], s[grandparent_of(pos)]) {
        lemma_bubble_step(s, pos);
        lemma_levels_around(pos);
        lemma_bubbled_in_order(swapped(s, pos, grandparent_of(pos)), grandparent_of(pos));
    } else {
        lemma_bubble_done(s, pos);
    }
}

} // verus!
