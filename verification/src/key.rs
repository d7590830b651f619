//! Keys: totally ordered identifiers with a least and a greatest fencepost.

use vstd::prelude::*;

verus! {

/// An identifier that a store orders its records by.
///
/// The order is strict and total. `min_value` and `max_value` bound every key
/// and serve as the fenceposts of an unbounded range.
pub trait Key: Sized {
    /// `self` sorts strictly before `other`.
    spec fn precedes(self, other: Self) -> bool;

    /// The least key.
    spec fn lowest() -> Self;

    /// The greatest key.
    spec fn highest() -> Self;

    /// No key sorts before itself.
    proof fn lemma_irreflexive(a: Self)
        ensures
            !a.precedes(a),
    ;

    /// The order is transitive.
    proof fn lemma_transitive(a: Self, b: Self, c: Self)
        requires
            a.precedes(b),
            b.precedes(c),
        ensures
            a.precedes(c),
    ;

    /// Two different keys are ordered one way or the other.
    proof fn lemma_connected(a: Self, b: Self)
        ensures
            a.precedes(b) || a == b || b.precedes(a),
    ;

    /// Nothing sorts before the least key, nothing after the greatest.
    proof fn lemma_bounds(a: Self)
        ensures
            !a.precedes(Self::lowest()),
            !Self::highest().precedes(a),
    ;

    /// The fencepost below every key.
    fn min_value() -> (k: Self)
        ensures
            k == Self::lowest(),
    ;

    /// The fencepost above every key.
    fn max_value() -> (k: Self)
        ensures
            k == Self::highest(),
    ;

    /// Decides the order of two keys.
    fn is_before(&self, other: &Self) -> (b: bool)
        ensures
            b == self.precedes(*other),
    ;

    /// Decides whether two keys are the same key.
    fn is_same(&self, other: &Self) -> (b: bool)
        ensures
            b == (*self == *other),
    ;

    /// A copy of the key.
    fn duplicate(&self) -> (k: Self)
        ensures
            k == *self,
    ;
}

impl Key for u64 {
    open spec fn precedes(self, other: Self) -> bool {
        self < other
    }

    open spec fn lowest() -> Self {
        0
    }

    open spec fn highest() -> Self {
        u64::MAX
    }

    proof fn lemma_irreflexive(a: Self) {
    }

    proof fn lemma_transitive(a: Self, b: Self, c: Self) {
    }

    proof fn lemma_connected(a: Self, b: Self) {
    }

    proof fn lemma_bounds(a: Self) {
    }

    fn min_value() -> (k: Self) {
        0
    }

    fn max_value() -> (k: Self) {
        u64::MAX
    }

    fn is_before(&self, other: &Self) -> (b: bool) {
        *self < *other
    }

    fn is_same(&self, other: &Self) -> (b: bool) {
        *self == *other
    }

    fn duplicate(&self) -> (k: Self) {
        *self
    }
}

} // verus!
