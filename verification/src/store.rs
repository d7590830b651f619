//! The store interface that range reconciliation runs against.

use crate::hash::{aggregate, AssociativeHash, HashCount};
use crate::key::Key;
use crate::model::{
    ascending, between, fresh_flags, has_key, keys_of, page, put, put_all, unvalued, value_of,
    valued, Entry,
};
use anyhow::Error;
use vstd::prelude::*;

verus! {

/// `anyhow::Error`: the error of a store whose backing medium is unavailable
/// or corrupt. The library carries it from the store to the caller unread.
#[verifier::external_type_specification]
#[verifier::external_body]
pub struct ExError(anyhow::Error);

/// One candidate record: a key, and its value where the sender has it.
#[derive(Debug)]
pub struct ReconItem<'a, K> {
    /// The record's key.
    pub key: &'a K,
    /// The record's value, if it is known.
    pub value: Option<&'a [u8]>,
}

impl<'a, K> ReconItem<'a, K> {
    /// The record as the model sees it.
    pub open spec fn entry(self) -> Entry<K> {
        Entry {
            key: *self.key,
            value: match self.value {
                Some(bytes) => Some(bytes@),
                None => None,
            },
        }
    }

    /// An item of a key and, possibly, its value.
    pub fn new(key: &'a K, value: Option<&'a [u8]>) -> (item: Self)
        ensures
            item.key == key,
            item.value == value,
    {
        ReconItem { key, value }
    }
}

/// The records of a batch as the model sees them.
pub open spec fn entries_of<K>(items: Seq<ReconItem<'_, K>>) -> Seq<Entry<K>> {
    items.map_values(|item: ReconItem<'_, K>| item.entry())
}

/// The outcome of inserting a batch: for each item, in the batch's order,
/// whether its key was new.
#[derive(Debug)]
pub struct InsertResult {
    /// `keys[i]` is true where item `i` brought a key the store did not hold.
    pub keys: Vec<bool>,
}

/// The keys strictly between `start` and `end`.
#[derive(Debug)]
pub struct RangeOpen<K> {
    /// The fencepost below the range; not part of it.
    pub start: K,
    /// The fencepost above the range; not part of it.
    pub end: K,
}

/// The pairs of keys and values as a sequence of keys and byte sequences.
pub open spec fn pairs_view<K>(pairs: Seq<(K, Vec<u8>)>) -> Seq<(K, Seq<u8>)> {
    pairs.map_values(|p: (K, Vec<u8>)| (p.0, p.1@))
}

/// A key-value store that keeps its keys in order and answers questions about
/// the keys strictly between two fenceposts.
///
/// `contents` is what the store holds: its records in ascending key order.
/// Every operation may fail when the backing medium does; the contracts say
/// what a successful answer is. A query never changes the contents, whether
/// it succeeds or not. Sequences are handed out whole.
pub trait Store: Sized {
    /// The keys of the store.
    type Key: Key;

    /// The hashes of sets of its keys.
    type Hash: AssociativeHash<Self::Key>;

    /// The records held, in ascending key order.
    spec fn contents(&self) -> Seq<Entry<Self::Key>>;

    /// Offers one record. The answer is true where its key was new.
    ///
    /// A value that is stored is never replaced on success: a store that
    /// takes a differing value for a fault says so by failing. After a
    /// failure the contents are what the store made of the attempt.
    fn insert(&mut self, item: ReconItem<'_, Self::Key>) -> (r: Result<bool, Error>)
        ensures
            ascending(final(self).contents()),
            r matches Ok(fresh) ==> {
                &&& fresh == !has_key(old(self).contents(), *item.key)
                &&& final(self).contents() == put(old(self).contents(), item.entry())
            },
    ;

    /// Offers a batch of records, in order, and reports for each whether its
    /// key was new.
    fn insert_many(&mut self, items: &[ReconItem<'_, Self::Key>]) -> (r: Result<
        InsertResult,
        Error,
    >)
        ensures
            ascending(final(self).contents()),
            r matches Ok(res) ==> {
                &&& res.keys@ == fresh_flags(old(self).contents(), entries_of(items@))
                &&& final(self).contents() == put_all(old(self).contents(), entries_of(items@))
            },
    ;

    /// The combined hash and the number of the keys between the fenceposts.
    fn hash_range(&mut self, left_fencepost: &Self::Key, right_fencepost: &Self::Key) -> (r:
        Result<HashCount<Self::Hash>, Error>)
        ensures
            ascending(final(self).contents()),
            final(self).contents() == old(self).contents(),
            r matches Ok(hc) ==> {
                let found = between(old(self).contents(), *left_fencepost, *right_fencepost);
                &&& hc.count == found.len()
                &&& hc.hash == aggregate::<Self::Key, Self::Hash>(keys_of(found))
            },
    ;

    /// The keys between the fenceposts in ascending order, without the first
    /// `offset` of them and cut to at most `limit`.
    fn range(
        &mut self,
        left_fencepost: &Self::Key,
        right_fencepost: &Self::Key,
        offset: usize,
        limit: usize,
    ) -> (r: Result<Vec<Self::Key>, Error>)
        ensures
            ascending(final(self).contents()),
            final(self).contents() == old(self).contents(),
            r matches Ok(keys) ==> keys@ == keys_of(
                page(
                    between(old(self).contents(), *left_fencepost, *right_fencepost),
                    offset as nat,
                    limit as nat,
                ),
            ),
    ;

    /// The keys that `range` gives for the same arguments, each with its
    /// value. A key whose value has not arrived is left out.
    fn range_with_values(
        &mut self,
        left_fencepost: &Self::Key,
        right_fencepost: &Self::Key,
        offset: usize,
        limit: usize,
    ) -> (r: Result<Vec<(Self::Key, Vec<u8>)>, Error>)
        ensures
            ascending(final(self).contents()),
            final(self).contents() == old(self).contents(),
            r matches Ok(pairs) ==> pairs_view(pairs@) == valued(
                page(
                    between(old(self).contents(), *left_fencepost, *right_fencepost),
                    offset as nat,
                    limit as nat,
                ),
            ),
    ;

    /// All keys in ascending order.
    fn full_range(&mut self) -> (r: Result<Vec<Self::Key>, Error>)
        ensures
            ascending(final(self).contents()),
            final(self).contents() == old(self).contents(),
            r matches Ok(keys) ==> keys@ == keys_of(old(self).contents()),
    ;

    /// A key from the middle of those between the fenceposts; none where
    /// there is no key between them.
    fn middle(&mut self, left_fencepost: &Self::Key, right_fencepost: &Self::Key) -> (r: Result<
        Option<Self::Key>,
        Error,
    >)
        ensures
            ascending(final(self).contents()),
            final(self).contents() == old(self).contents(),
            r matches Ok(found) ==> {
                let keys = between(old(self).contents(), *left_fencepost, *right_fencepost);
                match found {
                    Some(key) => has_key(keys, key),
                    None => keys.len() == 0,
                }
            },
    ;

    /// The number of keys between the fenceposts.
    fn count(&mut self, left_fencepost: &Self::Key, right_fencepost: &Self::Key) -> (r: Result<
        usize,
        Error,
    >)
        ensures
            ascending(final(self).contents()),
            final(self).contents() == old(self).contents(),
            r matches Ok(n) ==> n == between(
                old(self).contents(),
                *left_fencepost,
                *right_fencepost,
            ).len(),
    ;

    /// The least key between the fenceposts.
    fn first(&mut self, left_fencepost: &Self::Key, right_fencepost: &Self::Key) -> (r: Result<
        Option<Self::Key>,
        Error,
    >)
        ensures
            ascending(final(self).contents()),
            final(self).contents() == old(self).contents(),
            r matches Ok(found) ==> found == first_of(
                between(old(self).contents(), *left_fencepost, *right_fencepost),
            ),
    ;

    /// The greatest key between the fenceposts.
    fn last(&mut self, left_fencepost: &Self::Key, right_fencepost: &Self::Key) -> (r: Result<
        Option<Self::Key>,
        Error,
    >)
        ensures
            ascending(final(self).contents()),
            final(self).contents() == old(self).contents(),
            r matches Ok(found) ==> found == last_of(
                between(old(self).contents(), *left_fencepost, *right_fencepost),
            ),
    ;

    /// The least and the greatest key between the fenceposts.
    fn first_and_last(&mut self, left_fencepost: &Self::Key, right_fencepost: &Self::Key) -> (r:
        Result<Option<(Self::Key, Self::Key)>, Error>)
        ensures
            ascending(final(self).contents()),
            final(self).contents() == old(self).contents(),
            r matches Ok(found) ==> found == ends_of(
                between(old(self).contents(), *left_fencepost, *right_fencepost),
            ),
    ;

    /// The number of keys held.
    fn len(&mut self) -> (r: Result<usize, Error>)
        ensures
            ascending(final(self).contents()),
            final(self).contents() == old(self).contents(),
            r matches Ok(n) ==> n == old(self).contents().len(),
    ;

    /// Whether no key is held.
    fn is_empty(&mut self) -> (r: Result<bool, Error>)
        ensures
            ascending(final(self).contents()),
            final(self).contents() == old(self).contents(),
            r matches Ok(empty) ==> empty == (old(self).contents().len() == 0),
    ;

    /// The value stored under the key; none where the key is absent or its
    /// value has not arrived.
    fn value_for_key(&mut self, key: &Self::Key) -> (r: Result<Option<Vec<u8>>, Error>)
        ensures
            ascending(final(self).contents()),
            final(self).contents() == old(self).contents(),
            r matches Ok(found) ==> bytes_view(found) == value_of(old(self).contents(), *key),
    ;

    /// The keys inside the range whose value has not arrived, in ascending
    /// order.
    fn keys_with_missing_values(&mut self, range: RangeOpen<Self::Key>) -> (r: Result<
        Vec<Self::Key>,
        Error,
    >)
        ensures
            ascending(final(self).contents()),
            final(self).contents() == old(self).contents(),
            r matches Ok(keys) ==> keys@ == keys_of(
                unvalued(between(old(self).contents(), range.start, range.end)),
            ),
    ;
}

/// The key of the first record of a run.
pub open spec fn first_of<K>(s: Seq<Entry<K>>) -> Option<K> {
    if s.len() == 0 {
        None
    } else {
        Some(s.first().key)
    }
}

/// The key of the last record of a run.
pub open spec fn last_of<K>(s: Seq<Entry<K>>) -> Option<K> {
    if s.len() == 0 {
        None
    } else {
        Some(s.last().key)
    }
}

/// The keys of the first and the last record of a run.
pub open spec fn ends_of<K>(s: Seq<Entry<K>>) -> Option<(K, K)> {
    if s.len() == 0 {
        None
    } else {
        Some((s.first().key, s.last().key))
    }
}

/// An optional value as an optional byte sequence.
pub open spec fn bytes_view(value: Option<Vec<u8>>) -> Option<Seq<u8>> {
    match value {
        Some(bytes) => Some(bytes@),
        None => None,
    }
}

} // verus!
