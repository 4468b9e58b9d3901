//! What each operation of the heap makes of the array, position by
//! position.

use crate::index::min_level;
use crate::order::lt;
use crate::shape::{max_position, swapped};
use crate::walk::{bubbled, trickled};
use vstd::prelude::*;

verus! {

/// The array after `x` has been pushed: `x` is appended and walks up.
pub open spec fn pushed<T: Ord>(s: Seq<T>, x: T) -> Seq<T> {
    bubbled(s.push(x), s.len() as int)
}

/// The array after the root has been taken out: the last value takes
/// its place and walks down.
pub open spec fn without_root<T: Ord>(s: Seq<T>) -> Seq<T> {
    if s.len() <= 1 {
        Seq::empty()
    } else {
        trickled(s.drop_last().update(0, s.last()), true, 0)
    }
}

/// The array after the value at `max_position` has been taken out: the
/// last value, unless it is the one taken, takes its place and walks
/// down.
pub open spec fn without_max<T: Ord>(s: Seq<T>) -> Seq<T> {
    let m = max_position(s);
    if s.len() == 0 {
        s
    } else if m == s.len() - 1 {
        s.drop_last()
    } else {
        trickled(s.drop_last().update(m, s.last()), false, m)
    }
}

/// The array after `x` has been written over the root and has walked
/// down.
pub open spec fn with_root_replaced<T: Ord>(s: Seq<T>, x: T) -> Seq<T> {
    trickled(s.update(0, x), true, 0)
}

/// The array after the value at `at`, the root or one of its children,
/// has been put in order: it changes places with the root where it is
/// smaller, and what then stands at `at` walks down.
pub open spec fn settled_from<T: Ord>(s: Seq<T>, at: int) -> Seq<T> {
    if at > 0 && lt(s[at], s[0]) {
        trickled(swapped(s, at, 0), false, at)
    } else {
        trickled(s, false, at)
    }
}

/// The array after `x` has taken the place of the value at
/// `max_position`: where `x` is smaller than the root of a heap of more
/// than one, `x` becomes the root and the old root takes that place
/// instead; what stands there is then put in order.
pub open spec fn with_max_replaced<T: Ord>(s: Seq<T>, x: T) -> Seq<T> {
    let m = max_position(s);
    if s.len() > 1 && lt(x, s[0]) {
        settled_from(s.update(0, x).update(m, s[0]), m)
    } else {
        settled_from(s.update(m, x), m)
    }
}

/// The array after the values at the positions before `n` have walked
/// down, the last of them first.
pub open spec fn heapified_from<T: Ord>(s: Seq<T>, n: int) -> Seq<T>
    decreases n,
{
    if n <= 0 {
        s
    } else {
        heapified_from(trickled(s, min_level(n - 1), n - 1), n - 1)
    }
}

/// The array after it has been arranged as a heap from the bottom up.
pub open spec fn heapified<T: Ord>(s: Seq<T>) -> Seq<T> {
    heapified_from(s, s.len() as int / 2)
}

} // verus!
