//! The element order, as the heap sees it.
//!
//! Elements are compared through `Ord`. The heap is only meaningful when
//! that implementation is a total order; [`total_order`] says so, and the
//! lemmas here draw from it the few facts the heap proofs rest on.

use vstd::prelude::*;
use vstd::std_specs::cmp::{OrdSpec, PartialEqSpec, PartialOrdSpec};

verus! {

/// `T`'s comparison operators agree with one another and form a total
/// order (in which distinct values may still compare as equal).
pub open spec fn total_order<T: Ord>() -> bool {
    vstd::laws_cmp::obeys_cmp::<T>()
}

/// `a` is strictly smaller than `b`.
pub open spec fn lt<T: Ord>(a: T, b: T) -> bool {
    a.cmp_spec(&b) == core::cmp::Ordering::Less
}

/// `a` is smaller than or equivalent to `b`.
pub open spec fn le<T: Ord>(a: T, b: T) -> bool {
    a.cmp_spec(&b) != core::cmp::Ordering::Greater
}

/// `a` may stand above `b` in the tree when `a` sits on a level of the
/// given kind: no greater on a min level, no smaller on a max level.
pub open spec fn dominates<T: Ord>(min: bool, a: T, b: T) -> bool {
    if min {
        le(a, b)
    } else {
        le(b, a)
    }
}

/// `a` is strictly better than `b` as the top of a level of the given
/// kind: smaller on a min level, greater on a max level.
pub open spec fn beats<T: Ord>(min: bool, a: T, b: T) -> bool {
    if min {
        lt(a, b)
    } else {
        lt(b, a)
    }
}

/// The comparison `f` can be called on any two elements, and where `T`
/// is totally ordered it decides [`beats`] for the given kind of level.
pub open spec fn decides<T: Ord, F: Fn(&T, &T) -> bool>(f: F, min: bool) -> bool {
    &&& forall|a: &T, b: &T| #[trigger] f.requires((a, b))
    &&& total_order::<T>() ==> forall|a: &T, b: &T, r: bool| #[trigger]
        f.ensures((a, b), r) ==> r == beats(min, *a, *b)
}

/// What a total order gives for `le` and `lt`.
pub proof fn lemma_order_laws<T: Ord>()
    requires
        total_order::<T>(),
    ensures
        forall|a: T| #[trigger] le(a, a),
        forall|a: T, b: T| #[trigger] le(a, b) || le(b, a),
        forall|a: T, b: T| #[trigger] lt(a, b) <==> !le(b, a),
        forall|a: T, b: T, c: T| #[trigger] le(a, b) && #[trigger] le(b, c) ==> le(a, c),
{
    reveal(vstd::laws_cmp::obeys_cmp_partial_ord);
    reveal(vstd::laws_cmp::obeys_cmp_ord);
    reveal(vstd::laws_cmp::obeys_partial_cmp_spec_properties);
    reveal(vstd::laws_eq::obeys_eq_spec_properties);
    assert forall|a: T, b: T| #[trigger] lt(a, b) <==> !le(b, a) by {
        assert(a.partial_cmp_spec(&b) == Some(a.cmp_spec(&b)));
        assert(b.partial_cmp_spec(&a) == Some(b.cmp_spec(&a)));
    }
    assert forall|a: T| #[trigger] le(a, a) by {
        assert(a.partial_cmp_spec(&a) == Some(a.cmp_spec(&a)));
    }
    assert forall|a: T, b: T| #[trigger] le(a, b) || le(b, a) by {
        assert(a.partial_cmp_spec(&b) == Some(a.cmp_spec(&b)));
        assert(b.partial_cmp_spec(&a) == Some(b.cmp_spec(&a)));
    }
    assert forall|a: T, b: T, c: T| #[trigger] le(a, b) && #[trigger] le(b, c) implies le(a, c) by {
        assert(a.partial_cmp_spec(&b) == Some(a.cmp_spec(&b)));
        assert(b.partial_cmp_spec(&a) == Some(b.cmp_spec(&a)));
        assert(b.partial_cmp_spec(&c) == Some(b.cmp_spec(&c)));
        assert(c.partial_cmp_spec(&b) == Some(c.cmp_spec(&b)));
        assert(a.partial_cmp_spec(&c) == Some(a.cmp_spec(&c)));
        assert(c.partial_cmp_spec(&a) == Some(c.cmp_spec(&a)));
        assert(a.eq_spec(&b) <==> b.eq_spec(&a));
        assert(b.eq_spec(&c) <==> c.eq_spec(&b));
        assert(a.eq_spec(&c) <==> c.eq_spec(&a));
    }
}

/// What `<` and `>` on `T` compute, in terms of the order.
pub proof fn lemma_operators<T: Ord>()
    requires
        total_order::<T>(),
    ensures
        T::obeys_partial_cmp_spec(),
        forall|a: T, b: T|
            #![trigger a.partial_cmp_spec(&b)]
            (a.partial_cmp_spec(&b) == Some(core::cmp::Ordering::Less) <==> lt(a, b)) && (
            a.partial_cmp_spec(&b) == Some(core::cmp::Ordering::Greater) <==> lt(b, a)),
{
    reveal(vstd::laws_cmp::obeys_cmp_partial_ord);
    reveal(vstd::laws_cmp::obeys_cmp_ord);
    reveal(vstd::laws_cmp::obeys_partial_cmp_spec_properties);
    assert forall|a: T, b: T|
        #![trigger a.partial_cmp_spec(&b)]
        (a.partial_cmp_spec(&b) == Some(core::cmp::Ordering::Less) <==> lt(a, b)) && (
        a.partial_cmp_spec(&b) == Some(core::cmp::Ordering::Greater) <==> lt(b, a)) by {
        assert(a.partial_cmp_spec(&b) == Some(a.cmp_spec(&b)));
        assert(b.partial_cmp_spec(&a) == Some(b.cmp_spec(&a)));
    }
}

/// `<` on elements, with its meaning in the order.
pub fn less<T: Ord>(a: &T, b: &T) -> (r: bool)
    ensures
        total_order::<T>() ==> r == lt(*a, *b),
{
    proof {
        if total_order::<T>() {
            lemma_operators::<T>();
        }
    }
    *a < *b
}

/// `>` on elements, with its meaning in the order.
pub fn greater<T: Ord>(a: &T, b: &T) -> (r: bool)
    ensures
        total_order::<T>() ==> r == lt(*b, *a),
{
    proof {
        if total_order::<T>() {
            lemma_operators::<T>();
        }
    }
    *a > *b
}

/// The built-in integers are totally ordered, and `le` on them is `<=`.
pub proof fn lemma_usize_order()
    ensures
        total_order::<usize>(),
        forall|a: usize, b: usize| #[trigger] le(a, b) <==> a <= b,
        forall|a: usize, b: usize| #[trigger] lt(a, b) <==> a < b,
{
    broadcast use vstd::laws_cmp::group_laws_cmp;

}

} // verus!
