//! What it means for an array to be a min-max heap.
//!
//! Everything here is about sequences and positions; nothing is executed.

use crate::index::{child1_of, child2_of, grandparent_of, lemma_level_flips, min_level, parent_of};
use crate::order::{dominates, le, lemma_order_laws, lt, total_order};
use vstd::prelude::*;

verus! {

/// `s` with the values at `i` and `j` exchanged.
pub open spec fn swapped<T>(s: Seq<T>, i: int, j: int) -> Seq<T> {
    s.update(i, s[j]).update(j, s[i])
}

/// The value at `a` may stand above the value at `d`, given the level
/// that `a` is on.
pub open spec fn rel<T: Ord>(s: Seq<T>, a: int, d: int) -> bool {
    dominates(min_level(a), s[a], s[d])
}

/// The value at `d` respects both its parent and its grandparent.
pub open spec fn in_place<T: Ord>(s: Seq<T>, d: int) -> bool {
    &&& d > 0 ==> rel(s, parent_of(d), d)
    &&& d > 2 ==> rel(s, grandparent_of(d), d)
}

/// The first `n` values of `s` form a min-max heap.
pub open spec fn heap_prefix<T: Ord>(s: Seq<T>, n: int) -> bool {
    forall|d: int| 0 <= d < n ==> #[trigger] in_place(s, d)
}

/// `s` is a min-max heap: every value on a min level is no greater than
/// its children and grandchildren, every value on a max level no smaller.
pub open spec fn is_heap<T: Ord>(s: Seq<T>) -> bool {
    heap_prefix(s, s.len() as int)
}

/// No value of `s` is smaller than `x`.
pub open spec fn lower_bound<T: Ord>(s: Seq<T>, x: T) -> bool {
    forall|i: int| 0 <= i < s.len() ==> le(x, #[trigger] s[i])
}

/// No value of `s` is greater than `x`.
pub open spec fn upper_bound<T: Ord>(s: Seq<T>, x: T) -> bool {
    forall|i: int| 0 <= i < s.len() ==> le(#[trigger] s[i], x)
}

/// Where the greatest value of a heap stands: at the root of a heap of
/// one, else at the greater of the root's children, the second where
/// neither is greater.
pub open spec fn max_position<T: Ord>(s: Seq<T>) -> int {
    if s.len() <= 1 {
        0
    } else if s.len() == 2 {
        1
    } else if lt(s[2], s[1]) {
        1
    } else {
        2
    }
}

/// No value of `s` is greater than one that follows it.
pub open spec fn ascending<T: Ord>(s: Seq<T>) -> bool {
    forall|i: int, j: int| 0 <= i <= j < s.len() ==> le(#[trigger] s[i], #[trigger] s[j])
}

/// No value of `s` is smaller than one that follows it.
pub open spec fn descending<T: Ord>(s: Seq<T>) -> bool {
    forall|i: int, j: int| 0 <= i <= j < s.len() ==> le(#[trigger] s[j], #[trigger] s[i])
}

/// As [`in_place`], but only towards ancestors at or after `lo`, and not
/// towards an ancestor at `hole`.
pub open spec fn in_place_from<T: Ord>(s: Seq<T>, lo: int, hole: int, d: int) -> bool {
    &&& d > 0 && parent_of(d) >= lo && parent_of(d) != hole ==> rel(s, parent_of(d), d)
    &&& d > 2 && grandparent_of(d) >= lo && grandparent_of(d) != hole ==> rel(
        s,
        grandparent_of(d),
        d,
    )
}

/// Every value respects its ancestors at or after `lo`, except that
/// nothing is said of what stands below `hole`.
pub open spec fn heap_below<T: Ord>(s: Seq<T>, lo: int, hole: int) -> bool {
    forall|d: int| 0 <= d < s.len() ==> #[trigger] in_place_from(s, lo, hole, d)
}

/// The part of `s` from `lo` on is heap-shaped: every value respects its
/// ancestors at or after `lo`.
pub open spec fn heap_from<T: Ord>(s: Seq<T>, lo: int) -> bool {
    heap_below(s, lo, -1)
}

/// As [`in_place`], but the value at `hole` need not respect its
/// grandparent.
pub open spec fn in_place_up<T: Ord>(s: Seq<T>, hole: int, d: int) -> bool {
    &&& d > 0 ==> rel(s, parent_of(d), d)
    &&& d > 2 && d != hole ==> rel(s, grandparent_of(d), d)
}

/// `s` is a heap but for the value at `hole`, which may be out of place
/// with respect to its grandparent.
pub open spec fn heap_above<T: Ord>(s: Seq<T>, hole: int) -> bool {
    forall|d: int| 0 <= d < s.len() ==> #[trigger] in_place_up(s, hole, d)
}

/// If `d` is a position of `s`, the value at `a` may stand above it on a
/// level of the given kind.
pub open spec fn covers<T: Ord>(s: Seq<T>, min: bool, a: int, d: int) -> bool {
    0 <= d < s.len() ==> dominates(min, s[a], s[d])
}

/// The grandparent of `pos`, if it lies at or after `lo`, may stand above
/// every child and grandchild of `pos`: whatever takes the place of the
/// value at `pos` from below will respect it.
pub open spec fn bridged<T: Ord>(s: Seq<T>, lo: int, pos: int) -> bool {
    pos > 2 && grandparent_of(pos) >= lo ==> {
        let g = grandparent_of(pos);
        let m = min_level(pos);
        &&& covers(s, m, g, child1_of(pos))
        &&& covers(s, m, g, child2_of(pos))
        &&& covers(s, m, g, child1_of(child1_of(pos)))
        &&& covers(s, m, g, child2_of(child1_of(pos)))
        &&& covers(s, m, g, child1_of(child2_of(pos)))
        &&& covers(s, m, g, child2_of(child2_of(pos)))
    }
}

/// The levels of the positions around `pos` alternate.
pub proof fn lemma_levels_around(pos: int)
    requires
        0 <= pos,
    ensures
        pos > 0 ==> min_level(parent_of(pos)) == !min_level(pos),
        pos > 2 ==> min_level(grandparent_of(pos)) == min_level(pos),
        min_level(child1_of(pos)) == !min_level(pos),
        min_level(child2_of(pos)) == !min_level(pos),
        min_level(child1_of(child1_of(pos))) == min_level(pos),
        min_level(child2_of(child1_of(pos))) == min_level(pos),
        min_level(child1_of(child2_of(pos))) == min_level(pos),
        min_level(child2_of(child2_of(pos))) == min_level(pos),
{
    if pos > 0 {
        lemma_level_flips(pos);
    }
    if pos > 2 {
        lemma_level_flips(parent_of(pos));
    }
    lemma_level_flips(child1_of(pos));
    lemma_level_flips(child2_of(pos));
    lemma_level_flips(child1_of(child1_of(pos)));
    lemma_level_flips(child2_of(child1_of(pos)));
    lemma_level_flips(child1_of(child2_of(pos)));
    lemma_level_flips(child2_of(child2_of(pos)));
}

/// The plain and the scoped statement of the heap shape agree.
pub proof fn lemma_heap_from_start<T: Ord>(s: Seq<T>)
    ensures
        is_heap(s) <==> heap_from(s, 0),
{
    if is_heap(s) {
        assert forall|d: int| 0 <= d < s.len() implies #[trigger] in_place_from(s, 0, -1, d) by {
            assert(in_place(s, d));
        }
    }
    if heap_from(s, 0) {
        assert forall|d: int| 0 <= d < s.len() implies #[trigger] in_place(s, d) by {
            assert(in_place_from(s, 0, -1, d));
        }
    }
}

/// What holds from `lo` on holds from any later position on.
pub proof fn lemma_heap_below_later<T: Ord>(s: Seq<T>, lo: int, later: int, hole: int)
    requires
        heap_below(s, lo, hole),
        lo <= later,
    ensures
        heap_below(s, later, hole),
{
    assert forall|d: int| 0 <= d < s.len() implies #[trigger] in_place_from(s, later, hole, d) by {
        assert(in_place_from(s, lo, hole, d));
    }
}

/// A heap is in order whichever position is left out of account.
pub proof fn lemma_heap_with_hole<T: Ord>(s: Seq<T>, hole: int)
    requires
        is_heap(s),
    ensures
        heap_below(s, 0, hole),
{
    assert forall|d: int| 0 <= d < s.len() implies #[trigger] in_place_from(s, 0, hole, d) by {
        assert(in_place(s, d));
    }
}

/// The first `n` values of `s` form a heap exactly when they do so taken
/// by themselves.
pub proof fn lemma_heap_prefix_taken<T: Ord>(s: Seq<T>, n: int)
    requires
        0 <= n <= s.len(),
    ensures
        heap_prefix(s, n) <==> is_heap(s.subrange(0, n)),
{
    let p = s.subrange(0, n);
    if heap_prefix(s, n) {
        assert forall|d: int| 0 <= d < p.len() implies #[trigger] in_place(p, d) by {
            assert(in_place(s, d));
        }
    }
    if is_heap(p) {
        assert forall|d: int| 0 <= d < n implies #[trigger] in_place(s, d) by {
            assert(in_place(p, d));
        }
    }
}

/// The root of a heap is no greater than the value at any position.
pub proof fn lemma_root_is_least<T: Ord>(s: Seq<T>, n: int, i: int)
    requires
        total_order::<T>(),
        heap_prefix(s, n),
        0 <= i < n,
    ensures
        le(s[0], s[i]),
    decreases i,
{
    lemma_order_laws::<T>();
    assert(in_place(s, i));
    if i > 0 {
        lemma_levels_around(i);
        if i > 2 && min_level(grandparent_of(i)) {
            lemma_root_is_least(s, n, grandparent_of(i));
        } else {
            lemma_root_is_least(s, n, parent_of(i));
        }
    }
}

/// The value at `max_position` is no smaller than the value at any
/// position.
pub proof fn lemma_max_position_is_greatest<T: Ord>(s: Seq<T>, i: int)
    requires
        total_order::<T>(),
        is_heap(s),
        0 <= i < s.len(),
    ensures
        le(s[i], s[max_position(s)]),
    decreases i,
{
    lemma_order_laws::<T>();
    assert(in_place(s, i));
    lemma_levels_around(0);
    if s.len() > 1 {
        assert(in_place(s, 1));
    }
    if s.len() > 2 {
        assert(in_place(s, 2));
    }
    if i > 2 {
        lemma_levels_around(i);
        if min_level(grandparent_of(i)) {
            lemma_max_position_is_greatest(s, parent_of(i));
        } else {
            lemma_max_position_is_greatest(s, grandparent_of(i));
        }
    }
}

/// The root of a heap is a lower bound of it, and the value at
/// `max_position` an upper bound.
pub proof fn lemma_heap_bounds<T: Ord>(s: Seq<T>)
    requires
        total_order::<T>(),
        is_heap(s),
        s.len() > 0,
    ensures
        lower_bound(s, s[0]),
        upper_bound(s, s[max_position(s)]),
{
    assert forall|i: int| 0 <= i < s.len() implies le(s[0], #[trigger] s[i]) by {
        lemma_root_is_least(s, s.len() as int, i);
    }
    assert forall|i: int| 0 <= i < s.len() implies le(#[trigger] s[i], s[max_position(s)]) by {
        lemma_max_position_is_greatest(s, i);
    }
}

/// Bounds of a sequence are bounds of any sequence with the same contents.
pub proof fn lemma_bounds_of_contents<T: Ord>(a: Seq<T>, b: Seq<T>, x: T)
    requires
        a.to_multiset() == b.to_multiset(),
    ensures
        lower_bound(a, x) ==> lower_bound(b, x),
        upper_bound(a, x) ==> upper_bound(b, x),
{
    broadcast use vstd::seq_lib::to_multiset_contains;

    assert forall|i: int| 0 <= i < b.len() implies a.contains(#[trigger] b[i]) by {
        assert(b.contains(b[i]));
        assert(b.to_multiset().count(b[i]) > 0);
        assert(a.to_multiset().count(b[i]) > 0);
    }
    if lower_bound(a, x) {
        assert forall|i: int| 0 <= i < b.len() implies le(x, #[trigger] b[i]) by {
            assert(a.contains(b[i]));
            let k = choose|k: int| 0 <= k < a.len() && a[k] == b[i];
            assert(le(x, a[k]));
        }
    }
    if upper_bound(a, x) {
        assert forall|i: int| 0 <= i < b.len() implies le(#[trigger] b[i], x) by {
            assert(a.contains(b[i]));
            let k = choose|k: int| 0 <= k < a.len() && a[k] == b[i];
            assert(le(a[k], x));
        }
    }
}

/// Exchanging two values keeps the contents.
pub proof fn lemma_swapped_contents<T>(s: Seq<T>, i: int, j: int)
    requires
        0 <= i < s.len(),
        0 <= j < s.len(),
    ensures
        swapped(s, i, j).to_multiset() == s.to_multiset(),
        swapped(s, i, j).len() == s.len(),
{
    broadcast use vstd::seq_lib::to_multiset_update, vstd::seq_lib::to_multiset_contains;
    broadcast use vstd::multiset::group_multiset_axioms;

    let s1 = s.update(i, s[j]);
    assert(s.contains(s[i]));
    assert(s.contains(s[j]));
    assert(s1.to_multiset() == s.to_multiset().insert(s[j]).remove(s[i]));
    assert(swapped(s, i, j).to_multiset() == s1.to_multiset().insert(s[i]).remove(s1[j]));
    assert(swapped(s, i, j).to_multiset() =~= s.to_multiset());
}

/// Taking the last value away from `before` and putting it in the place
/// of the one at `at` leaves the contents of `before` without the value
/// that stood at `at`.
pub proof fn lemma_takeout_contents<T>(before: Seq<T>, after: Seq<T>, at: int)
    requires
        0 <= at < before.len(),
        at == before.len() - 1 || after == before.drop_last().update(at, before.last()),
    ensures
        at == before.len() - 1 ==> before.drop_last().to_multiset()
            == before.to_multiset().remove(before[at]),
        at < before.len() - 1 ==> after.to_multiset() == before.to_multiset().remove(before[at]),
{
    broadcast use vstd::seq_lib::to_multiset_update, vstd::seq_lib::to_multiset_build;
    broadcast use vstd::seq_lib::to_multiset_contains;
    broadcast use vstd::multiset::group_multiset_axioms;

    let rest = before.drop_last();
    assert(before =~= rest.push(before.last()));
    assert(before.to_multiset() == rest.to_multiset().insert(before.last()));
    if at == before.len() - 1 {
        assert(rest.to_multiset() =~= before.to_multiset().remove(before[at]));
    } else {
        assert(rest.contains(rest[at]));
        assert(after.to_multiset() == rest.to_multiset().insert(before.last()).remove(rest[at]));
        assert(after.to_multiset() =~= before.to_multiset().remove(before[at]));
    }
}

/// Taking the last value away from `before` and putting it in the place
/// of the first leaves the contents of `before` without its first value.
pub proof fn lemma_rest_contents<T>(before: Seq<T>, after: Seq<T>)
    requires
        before.len() > 0,
        before.len() == 1 || after == before.drop_last().update(0, before.last()),
    ensures
        before.len() == 1 ==> before.drop_last().to_multiset() == before.to_multiset().remove(
            before[0],
        ),
        before.len() > 1 ==> after.to_multiset() == before.to_multiset().remove(before[0]),
{
    lemma_takeout_contents(before, after, 0);
}

/// Every value of `s` but the one at `at` respects its ancestors other
/// than `at`.
pub open spec fn heap_around<T: Ord>(s: Seq<T>, at: int) -> bool {
    forall|d: int| 0 <= d < s.len() && d != at ==> #[trigger] in_place_from(s, 0, at, d)
}

/// With the value at a child `at` of the root rewritten, and exchanged
/// with the root where it was smaller, only what stands below `at` may
/// be out of place.
pub proof fn lemma_root_fixed<T: Ord>(written: Seq<T>, fixed: Seq<T>, at: int)
    requires
        total_order::<T>(),
        0 <= at < written.len(),
        at <= 2,
        heap_around(written, at),
        at == 0 ==> fixed == written,
        at > 0 ==> fixed == if lt(written[at], written[0]) {
            swapped(written, at, 0)
        } else {
            written
        },
    ensures
        heap_below(fixed, 0, at),
        bridged(fixed, 0, at),
{
    lemma_order_laws::<T>();
    lemma_levels_around(0);
    if at > 0 {
        if 1 < written.len() && at != 1 {
            assert(in_place_from(written, 0, at, 1));
        }
        if 2 < written.len() && at != 2 {
            assert(in_place_from(written, 0, at, 2));
        }
    }
    assert forall|d: int| 0 <= d < fixed.len() implies #[trigger] in_place_from(
        fixed,
        0,
        at,
        d,
    ) by {
        if d != at {
            assert(in_place_from(written, 0, at, d));
        }
    }
}

/// Whatever is written at `at`, the other values stay in place with
/// respect to one another.
pub proof fn lemma_slot_rewritten<T: Ord>(s: Seq<T>, at: int)
    requires
        heap_around(s, at),
        0 <= at < s.len(),
    ensures
        forall|v: T| heap_around(#[trigger] s.update(at, v), at),
{
    assert forall|v: T| heap_around(#[trigger] s.update(at, v), at) by {
        let t = s.update(at, v);
        assert forall|d: int| 0 <= d < t.len() && d != at implies #[trigger] in_place_from(
            t,
            0,
            at,
            d,
        ) by {
            assert(in_place_from(s, 0, at, d));
        }
    }
}

/// Whatever is written at the root, the other values stay in place.
pub proof fn lemma_root_rewritten<T: Ord>(s: Seq<T>)
    requires
        heap_below(s, 0, 0),
        s.len() > 0,
    ensures
        forall|v: T| heap_below(#[trigger] s.update(0, v), 0, 0),
{
    assert forall|v: T| heap_below(#[trigger] s.update(0, v), 0, 0) by {
        let t = s.update(0, v);
        assert forall|d: int| 0 <= d < t.len() implies #[trigger] in_place_from(t, 0, 0, d) by {
            assert(in_place_from(s, 0, 0, d));
        }
    }
}

/// A value smaller than the root of a heap may take the root's place.
pub proof fn lemma_smaller_root<T: Ord>(s: Seq<T>, v: T)
    requires
        total_order::<T>(),
        is_heap(s),
        s.len() > 1,
        lt(v, s[0]),
    ensures
        is_heap(s.update(0, v)),
        max_position(s.update(0, v)) == max_position(s),
        forall|at: int| heap_around(s.update(0, v), at),
{
    let t = s.update(0, v);
    lemma_order_laws::<T>();
    lemma_levels_around(0);
    assert forall|d: int| 0 <= d < t.len() implies #[trigger] in_place(t, d) by {
        assert(in_place(s, d));
    }
    assert forall|at: int| heap_around(t, at) by {
        lemma_heap_with_hole(t, at);
    }
}

/// The contents after a replacement of the maximum: `given` was put at
/// the root where it was smaller than the root, and what it drove out, or
/// else `given` itself, was put at `at`.
pub proof fn lemma_replaced_contents<T: Ord>(
    before: Seq<T>,
    rooted: Seq<T>,
    after: Seq<T>,
    given: T,
    at: int,
)
    requires
        0 <= at < before.len(),
        rooted == before || (at > 0 && rooted == before.update(0, given)),
        after == rooted.update(at, if rooted == before {
            given
        } else {
            before[0]
        }),
    ensures
        after.to_multiset() == before.to_multiset().insert(given).remove(before[at]),
{
    broadcast use vstd::seq_lib::to_multiset_update, vstd::seq_lib::to_multiset_contains;
    broadcast use vstd::multiset::group_multiset_axioms;

    assert(before.contains(before[0]));
    assert(before.contains(before[at]));
    if rooted == before {
        assert(after.to_multiset() == before.to_multiset().insert(given).remove(before[at]));
    } else {
        assert(rooted.to_multiset() == before.to_multiset().insert(given).remove(before[0]));
        assert(rooted[at] == before[at]);
        assert(after.to_multiset() == rooted.to_multiset().insert(before[0]).remove(before[at]));
        assert(after.to_multiset() =~= before.to_multiset().insert(given).remove(before[at]));
    }
}

} // verus!
