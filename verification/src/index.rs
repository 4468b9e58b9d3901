//! Position arithmetic for a complete binary tree stored in an array.
//!
//! ```text
//!                       0
//!           1                        2
//!      3         4             5           6
//!    7   8     9   10       11   12     13   14
//! ```

use vstd::prelude::*;

verus! {

/// Position of the parent of `i`; meaningful for `i > 0`.
pub open spec fn parent_of(i: int) -> int {
    (i - 1) / 2
}

/// Position of the grandparent of `i`; meaningful for `i > 2`.
pub open spec fn grandparent_of(i: int) -> int {
    parent_of(parent_of(i))
}

/// Position of the first child of `i`.
pub open spec fn child1_of(i: int) -> int {
    2 * i + 1
}

/// Position of the second child of `i`.
pub open spec fn child2_of(i: int) -> int {
    2 * i + 2
}

/// Depth of position `i` in the tree; the root has depth 0.
pub open spec fn depth(i: nat) -> nat
    decreases i,
{
    if i == 0 {
        0
    } else {
        1 + depth(((i - 1) / 2) as nat)
    }
}

/// Whether position `i` lies at an even depth, where nodes are no greater
/// than their descendants.
pub open spec fn min_level(i: int) -> bool {
    i >= 0 && depth(i as nat) % 2 == 0
}

/// Children sit one level below their parent, so the level role flips.
pub proof fn lemma_level_flips(i: int)
    requires
        i > 0,
    ensures
        min_level(i) == !min_level(parent_of(i)),
{
}

/// The number of leading zero bits of `i + 1` determines the depth of `i`.
proof fn lemma_leading_zeros_depth(i: u64)
    requires
        i < u64::MAX,
    ensures
        vstd::std_specs::bits::u64_leading_zeros((i + 1) as u64) == 63 - depth(i as nat),
    decreases i,
{
    reveal(vstd::std_specs::bits::u64_leading_zeros);
    if i == 0 {
        assert(vstd::std_specs::bits::u64_leading_zeros(0) == 64);
        assert(1u64 / 2 == 0);
    } else {
        let p: u64 = ((i - 1) / 2) as u64;
        lemma_leading_zeros_depth(p);
        assert((i + 1) / 2 == p + 1);
    }
}

/// A position in the array of a heap.
pub trait HeapIndex: Sized {
    /// The position as a mathematical integer.
    spec fn pos(self) -> int;

    /// Whether the mathematical position `i` can be held in `Self`.
    spec fn in_range(i: int) -> bool;

    /// The position of the parent.
    fn parent(self) -> (r: Self)
        requires
            self.pos() > 0,
        ensures
            r.pos() == parent_of(self.pos()),
    ;

    /// The position of the grandparent.
    fn grandparent(self) -> (r: Self)
        requires
            self.pos() > 2,
        ensures
            r.pos() == grandparent_of(self.pos()),
    ;

    /// The position of the first child.
    fn child1(self) -> (r: Self)
        requires
            Self::in_range(child1_of(self.pos())),
        ensures
            r.pos() == child1_of(self.pos()),
    ;

    /// The position of the second child.
    fn child2(self) -> (r: Self)
        requires
            Self::in_range(child2_of(self.pos())),
        ensures
            r.pos() == child2_of(self.pos()),
    ;

    /// The position of the first child of the first child.
    fn grandchild1(self) -> (r: Self)
        requires
            Self::in_range(child1_of(child1_of(self.pos()))),
        ensures
            r.pos() == child1_of(child1_of(self.pos())),
    ;

    /// The position of the second child of the first child.
    fn grandchild2(self) -> (r: Self)
        requires
            Self::in_range(child2_of(child1_of(self.pos()))),
        ensures
            r.pos() == child2_of(child1_of(self.pos())),
    ;

    /// The position of the first child of the second child.
    fn grandchild3(self) -> (r: Self)
        requires
            Self::in_range(child1_of(child2_of(self.pos()))),
        ensures
            r.pos() == child1_of(child2_of(self.pos())),
    ;

    /// The position of the second child of the second child.
    fn grandchild4(self) -> (r: Self)
        requires
            Self::in_range(child2_of(child2_of(self.pos()))),
        ensures
            r.pos() == child2_of(child2_of(self.pos())),
    ;

    /// Whether the position has a parent: all but the root have.
    fn has_parent(self) -> (r: bool)
        ensures
            r == (self.pos() > 0),
    ;

    /// Whether the position has a grandparent: all but the root and its
    /// children have.
    fn has_grandparent(self) -> (r: bool)
        ensures
            r == (self.pos() > 2),
    ;

    /// Whether the position lies on a min level: the root does, its
    /// children do not, and so on by turns.
    fn is_min_level(self) -> (r: bool)
        requires
            Self::in_range(self.pos() + 1),
        ensures
            r == min_level(self.pos()),
    ;
}

impl HeapIndex for usize {
    open spec fn pos(self) -> int {
        self as int
    }

    open spec fn in_range(i: int) -> bool {
        0 <= i <= usize::MAX
    }

    #[inline]
    fn parent(self) -> (r: Self) {
        (self - 1) / 2
    }

    #[inline]
    fn grandparent(self) -> (r: Self) {
        self.parent().parent()
    }

    #[inline]
    fn child1(self) -> (r: Self) {
        2 * self + 1
    }

    #[inline]
    fn child2(self) -> (r: Self) {
        2 * self + 2
    }

    #[inline]
    fn grandchild1(self) -> (r: Self) {
        self.child1().child1()
    }

    #[inline]
    fn grandchild2(self) -> (r: Self) {
        self.child1().child2()
    }

    #[inline]
    fn grandchild3(self) -> (r: Self) {
        self.child2().child1()
    }

    #[inline]
    fn grandchild4(self) -> (r: Self) {
        self.child2().child2()
    }

    #[inline]
    fn has_parent(self) -> (r: bool) {
        self > 0
    }

    #[inline]
    fn has_grandparent(self) -> (r: bool) {
        self > 2
    }

    #[inline]
    fn is_min_level(self) -> (r: bool) {
        let wide: u64 = self as u64 + 1;
        let zeros: u32 = wide.leading_zeros();
        proof {
            lemma_leading_zeros_depth(self as u64);
            assert(zeros & 1 == 1 <==> zeros % 2 == 1) by (bit_vector);
        }
        zeros & 1 == 1
    }
}

} // verus!
