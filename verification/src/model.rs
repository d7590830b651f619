//! The mathematical model of a store: a run of records in ascending key order.

use crate::key::Key;
use vstd::prelude::*;

verus! {

/// One record of a store: a key, and its value once that has arrived.
pub ghost struct Entry<K> {
    /// The record's key.
    pub key: K,
    /// The record's value; `None` while the store holds the key alone.
    pub value: Option<Seq<u8>>,
}

/// The run is in strictly ascending key order, so no key occurs twice.
pub open spec fn ascending<K: Key>(s: Seq<Entry<K>>) -> bool {
    forall|i: int, j: int| 0 <= i < j < s.len() ==> (#[trigger] s[i]).key.precedes((#[trigger] s[j]).key)
}

/// `key` lies strictly between the two fenceposts.
pub open spec fn inside<K: Key>(left: K, right: K, key: K) -> bool {
    left.precedes(key) && key.precedes(right)
}

/// The records whose keys lie strictly between the two fenceposts, in the
/// order of the run. It is empty where `left` does not sort before `right`.
pub open spec fn between<K: Key>(s: Seq<Entry<K>>, left: K, right: K) -> Seq<Entry<K>> {
    s.filter(in_range(left, right))
}

/// Tells whether a record's key lies strictly between the two fenceposts.
pub open spec fn in_range<K: Key>(left: K, right: K) -> spec_fn(Entry<K>) -> bool {
    |e: Entry<K>| inside(left, right, e.key)
}

/// Tells whether a record has its value.
pub open spec fn with_value<K>() -> spec_fn(Entry<K>) -> bool {
    |e: Entry<K>| e.value is Some
}

/// Tells whether a record's value has not arrived.
pub open spec fn without_value<K>() -> spec_fn(Entry<K>) -> bool {
    |e: Entry<K>| e.value is None
}

/// Tells whether a record's key sorts before `key`.
pub open spec fn below<K: Key>(key: K) -> spec_fn(Entry<K>) -> bool {
    |e: Entry<K>| e.key.precedes(key)
}

/// Tells whether a record's key sorts after `key`.
pub open spec fn above<K: Key>(key: K) -> spec_fn(Entry<K>) -> bool {
    |e: Entry<K>| key.precedes(e.key)
}

/// The keys of the records, in the order of the run.
pub open spec fn keys_of<K>(s: Seq<Entry<K>>) -> Seq<K> {
    s.map_values(|e: Entry<K>| e.key)
}

/// The records that have a value, each as its key and value.
pub open spec fn valued<K>(s: Seq<Entry<K>>) -> Seq<(K, Seq<u8>)> {
    s.filter(with_value()).map_values(|e: Entry<K>| (e.key, e.value->0))
}

/// The records whose value has not arrived.
pub open spec fn unvalued<K>(s: Seq<Entry<K>>) -> Seq<Entry<K>> {
    s.filter(without_value())
}

/// What is left of a run after skipping `offset` items, cut to at most
/// `limit` items.
pub open spec fn page<A>(s: Seq<A>, offset: nat, limit: nat) -> Seq<A> {
    let from = if offset <= s.len() { offset } else { s.len() };
    let to = if from + limit <= s.len() { from + limit } else { s.len() };
    s.subrange(from as int, to as int)
}

/// Some record of the run has this key.
pub open spec fn has_key<K>(s: Seq<Entry<K>>, key: K) -> bool {
    exists|i: int| 0 <= i < s.len() && (#[trigger] s[i]).key == key
}

/// The place of a record with this key; meaningful where `has_key` holds.
pub open spec fn index_of<K>(s: Seq<Entry<K>>, key: K) -> int {
    choose|i: int| 0 <= i < s.len() && (#[trigger] s[i]).key == key
}

/// The value stored under the key; `None` where the key is absent or its
/// value has not arrived.
pub open spec fn value_of<K>(s: Seq<Entry<K>>, key: K) -> Option<Seq<u8>> {
    if has_key(s, key) {
        s[index_of(s, key)].value
    } else {
        None
    }
}

/// The run after one record has been offered to it.
///
/// A new key takes its place in the order, with the offered value. A key that
/// is present without a value takes the offered value. A key that is present
/// with a value keeps it.
pub open spec fn put<K: Key>(s: Seq<Entry<K>>, e: Entry<K>) -> Seq<Entry<K>> {
    if has_key(s, e.key) {
        let i = index_of(s, e.key);
        if s[i].value is None {
            s.update(i, e)
        } else {
            s
        }
    } else {
        s.filter(below(e.key)).push(e) + s.filter(above(e.key))
    }
}

/// The run after a batch of records has been offered to it, one after the
/// other.
pub open spec fn put_all<K: Key>(s: Seq<Entry<K>>, batch: Seq<Entry<K>>) -> Seq<Entry<K>>
    decreases batch.len(),
{
    if batch.len() == 0 {
        s
    } else {
        put(put_all(s, batch.drop_last()), batch.last())
    }
}

/// For each record of a batch, whether its key was new when its turn came:
/// absent from the run and from the batch before it.
pub open spec fn fresh_flags<K: Key>(s: Seq<Entry<K>>, batch: Seq<Entry<K>>) -> Seq<bool> {
    Seq::new(batch.len(), |i: int| !has_key(put_all(s, batch.take(i)), batch[i].key))
}

} // verus!
