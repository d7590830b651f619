//! Order-independent hashes of sets of keys.

use crate::key::Key;
use vstd::prelude::*;

verus! {

/// A hash of a set of keys that does not depend on the order in which the keys
/// were combined.
///
/// `plus` is associative and commutative, and `zero` is its identity: the hash
/// of no key at all.
pub trait AssociativeHash<K: Key>: Sized {
    /// The hash of the empty set.
    spec fn zero() -> Self;

    /// The hash of one key.
    spec fn of_key(key: K) -> Self;

    /// The hash of the union of two disjoint sets, from their hashes.
    spec fn plus(self, other: Self) -> Self;

    /// Combining is commutative.
    proof fn lemma_commutative(a: Self, b: Self)
        ensures
            a.plus(b) == b.plus(a),
    ;

    /// Combining is associative.
    proof fn lemma_associative(a: Self, b: Self, c: Self)
        ensures
            a.plus(b).plus(c) == a.plus(b.plus(c)),
    ;

    /// The hash of the empty set changes nothing.
    proof fn lemma_identity(a: Self)
        ensures
            a.plus(Self::zero()) == a,
    ;

    /// The hash of the empty set.
    fn identity() -> (h: Self)
        ensures
            h == Self::zero(),
    ;

    /// The hash of one key.
    fn digest(key: &K) -> (h: Self)
        ensures
            h == Self::of_key(*key),
    ;

    /// Combines two hashes.
    fn combine(&self, other: &Self) -> (h: Self)
        ensures
            h == self.plus(*other),
    ;
}

/// The hash of a run of keys: their hashes combined from the left.
pub open spec fn aggregate<K: Key, H: AssociativeHash<K>>(keys: Seq<K>) -> H
    decreases keys.len(),
{
    if keys.len() == 0 {
        H::zero()
    } else {
        aggregate::<K, H>(keys.drop_last()).plus(H::of_key(keys.last()))
    }
}

/// A hash together with the number of keys that went into it.
#[derive(Debug)]
pub struct HashCount<H> {
    /// The combined hash of the keys.
    pub hash: H,
    /// How many keys were combined.
    pub count: u64,
}

/// The sum of a set of `u64` keys, wrapping round at 2^64: the plainest hash
/// that combines in any order.
#[derive(Clone, Copy, Debug, PartialEq, Eq, Structural)]
pub struct KeySum {
    /// The wrapped sum of the keys.
    pub sum: u64,
}

impl AssociativeHash<u64> for KeySum {
    open spec fn zero() -> Self {
        KeySum { sum: 0 }
    }

    open spec fn of_key(key: u64) -> Self {
        KeySum { sum: key }
    }

    open spec fn plus(self, other: Self) -> Self {
        KeySum {
            sum: if self.sum + other.sum > u64::MAX {
                (self.sum + other.sum - 0x1_0000_0000_0000_0000) as u64
            } else {
                (self.sum + other.sum) as u64
            },
        }
    }

    proof fn lemma_commutative(a: Self, b: Self) {
    }

    proof fn lemma_associative(a: Self, b: Self, c: Self) {
    }

    proof fn lemma_identity(a: Self) {
    }

    fn identity() -> (h: Self) {
        KeySum { sum: 0 }
    }

    fn digest(key: &u64) -> (h: Self) {
        KeySum { sum: *key }
    }

    fn combine(&self, other: &Self) -> (h: Self) {
        KeySum { sum: self.sum.wrapping_add(other.sum) }
    }
}

/// The hash of two runs laid end to end is the combination of their hashes.
pub proof fn lemma_aggregate_concat<K: Key, H: AssociativeHash<K>>(a: Seq<K>, b: Seq<K>)
    ensures
        aggregate::<K, H>(a + b) == aggregate::<K, H>(a).plus(aggregate::<K, H>(b)),
    decreases b.len(),
{
    if b.len() == 0 {
        assert(a + b =~= a);
        H::lemma_identity(aggregate::<K, H>(a));
    } else {
        assert((a + b).drop_last() =~= a + b.drop_last());
        assert((a + b).last() == b.last());
        lemma_aggregate_concat::<K, H>(a, b.drop_last());
        H::lemma_associative(
            aggregate::<K, H>(a),
            aggregate::<K, H>(b.drop_last()),
            H::of_key(b.last()),
        );
    }
}

/// Taking one key out of a run and combining its hash back in gives the hash
/// of the whole run.
pub proof fn lemma_aggregate_remove<K: Key, H: AssociativeHash<K>>(keys: Seq<K>, i: int)
    requires
        0 <= i < keys.len(),
    ensures
        aggregate::<K, H>(keys) == aggregate::<K, H>(keys.remove(i)).plus(H::of_key(keys[i])),
{
    let front = keys.subrange(0, i);
    let back = keys.subrange(i + 1, keys.len() as int);
    let one = seq![keys[i]];
    assert(keys =~= (front + one) + back);
    assert(keys.remove(i) =~= front + back);
    lemma_aggregate_concat::<K, H>(front + one, back);
    lemma_aggregate_concat::<K, H>(front, one);
    lemma_aggregate_concat::<K, H>(front, back);
    assert(one.drop_last() =~= Seq::<K>::empty());
    assert(one.last() == keys[i]);
    assert(aggregate::<K, H>(one.drop_last()) == H::zero());
    assert(aggregate::<K, H>(one) == H::zero().plus(H::of_key(keys[i])));
    let f = aggregate::<K, H>(front);
    let b = aggregate::<K, H>(back);
    let h = H::of_key(keys[i]);
    H::lemma_commutative(H::zero(), h);
    H::lemma_identity(h);
    assert(aggregate::<K, H>(one) == h);
    // (f + h) + b == (f + b) + h
    H::lemma_associative(f, h, b);
    H::lemma_commutative(h, b);
    H::lemma_associative(f, b, h);
}

/// The hash of a run of keys depends only on which keys it holds, and how
/// often, not on their order.
pub proof fn lemma_aggregate_order_independent<K: Key, H: AssociativeHash<K>>(
    a: Seq<K>,
    b: Seq<K>,
)
    requires
        a.to_multiset() == b.to_multiset(),
    ensures
        aggregate::<K, H>(a) == aggregate::<K, H>(b),
    decreases a.len(),
{
    broadcast use vstd::seq_lib::group_to_multiset_ensures;

    a.to_multiset_ensures();
    b.to_multiset_ensures();
    if a.len() == 0 {
        assert(b.len() == 0);
    } else {
        let x = a.last();
        assert(a.to_multiset().count(x) > 0) by {
            assert(a.contains(x));
        }
        assert(b.contains(x));
        let j = choose|j: int| 0 <= j < b.len() && b[j] == x;
        assert(a.drop_last() =~= a.remove(a.len() - 1));
        assert(a.drop_last().to_multiset() =~= a.to_multiset().remove(x));
        assert(b.remove(j).to_multiset() =~= b.to_multiset().remove(x));
        lemma_aggregate_order_independent::<K, H>(a.drop_last(), b.remove(j));
        lemma_aggregate_remove::<K, H>(b, j);
    }
}

} // verus!
