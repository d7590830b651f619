//! A store that times every operation of the store it wraps.

use crate::hash::HashCount;
use crate::metrics::{Metrics, Operation, StoreQuery};
use crate::model::Entry;
use crate::store::{InsertResult, RangeOpen, ReconItem, Store};
use anyhow::Error;
use tokio::time::Instant;
use vstd::prelude::*;

verus! {

/// The log `after` is the log `before` with exactly one more event, and that
/// event carries the fixed name of `op`.
pub open spec fn logged_once(before: Seq<StoreQuery>, after: Seq<StoreQuery>, op: Operation) -> bool {
    &&& after.len() == before.len() + 1
    &&& after.drop_last() == before
    &&& after.last().name@ == op.name_spec()
}

/// A store that forwards every operation to the store it wraps, unchanged,
/// and records how long each call took.
#[derive(Debug)]
pub struct StoreMetricsMiddleware<S> {
    store: S,
    metrics: Metrics,
}

impl<S> StoreMetricsMiddleware<S> {
    /// The wrapped store.
    pub closed spec fn inner(&self) -> S {
        self.store
    }

    /// The timing events recorded so far, oldest first.
    pub closed spec fn log(&self) -> Seq<StoreQuery> {
        self.metrics@
    }

    /// Wraps `store`; timing events go to `metrics`, after those it holds.
    pub fn new(store: S, metrics: Metrics) -> (middleware: Self)
        ensures
            middleware.inner() == store,
            middleware.log() == metrics@,
    {
        StoreMetricsMiddleware { store, metrics }
    }

    /// Closes the timing of one call: measures the time since `start`,
    /// records it under the name of `op`, and hands back what the call
    /// returned, untouched, whether it succeeded or failed.
    pub fn record<T>(metrics: &mut Metrics, op: Operation, start: Instant, outcome: T) -> (ret: T)
        ensures
            ret == outcome,
            logged_once(old(metrics)@, final(metrics)@, op),
    {
        let duration = start.elapsed();
        let event = StoreQuery { name: op.name(), duration };
        metrics.record(&event);
        assert(metrics@.drop_last() =~= old(metrics)@);
        outcome
    }

    /// The sink that holds the timing events.
    pub fn metrics(&self) -> (metrics: &Metrics)
        ensures
            metrics@ == self.log(),
    {
        &self.metrics
    }
}

/// The decorator is a store with the contents of the store it wraps.
///
/// Beside what the interface promises of every store, each operation states
/// two things. The log grows by exactly one event, named after the
/// operation, whether the call succeeded or failed. And the answer, with the
/// change to the wrapped store, is that of one call of the same operation on
/// the wrapped store with the same arguments: nothing is added, dropped or
/// turned into something else, an error least of all.
impl<S: Store> Store for StoreMetricsMiddleware<S> {
    type Key = S::Key;

    type Hash = S::Hash;

    open spec fn contents(&self) -> Seq<Entry<Self::Key>> {
        self.inner().contents()
    }

    fn insert(&mut self, item: ReconItem<'_, Self::Key>) -> (r: Result<bool, Error>)
        ensures
            logged_once(old(self).log(), final(self).log(), Operation::Insert),
            exists|store: &mut S|
                {
                    &&& mut_ref_current(store) == old(self).inner()
                    &&& mut_ref_future(store) == final(self).inner()
                    &&& call_ensures(S::insert, (store, item), r)
                },
    {
        let start = Instant::now();
        let outcome = self.store.insert(item);
        Self::record(&mut self.metrics, Operation::Insert, start, outcome)
    }

    fn insert_many(&mut self, items: &[ReconItem<'_, Self::Key>]) -> (r: Result<
        InsertResult,
        Error,
    >)
        ensures
            logged_once(old(self).log(), final(self).log(), Operation::InsertMany),
            exists|store: &mut S|
                {
                    &&& mut_ref_current(store) == old(self).inner()
                    &&& mut_ref_future(store) == final(self).inner()
                    &&& call_ensures(S::insert_many, (store, items), r)
                },
    {
        let start = Instant::now();
        let outcome = self.store.insert_many(items);
        Self::record(&mut self.metrics, Operation::InsertMany, start, outcome)
    }

    fn hash_range(&mut self, left_fencepost: &Self::Key, right_fencepost: &Self::Key) -> (r:
        Result<HashCount<Self::Hash>, Error>)
        ensures
            logged_once(old(self).log(), final(self).log(), Operation::HashRange),
            exists|store: &mut S|
                {
                    &&& mut_ref_current(store) == old(self).inner()
                    &&& mut_ref_future(store) == final(self).inner()
                    &&& call_ensures(S::hash_range, (store, left_fencepost, right_fencepost), r)
                },
    {
        let start = Instant::now();
        let outcome = self.store.hash_range(left_fencepost, right_fencepost);
        Self::record(&mut self.metrics, Operation::HashRange, start, outcome)
    }

    fn range(
        &mut self,
        left_fencepost: &Self::Key,
        right_fencepost: &Self::Key,
        offset: usize,
        limit: usize,
    ) -> (r: Result<Vec<Self::Key>, Error>)
        ensures
            logged_once(old(self).log(), final(self).log(), Operation::Range),
            exists|store: &mut S|
                {
                    &&& mut_ref_current(store) == old(self).inner()
                    &&& mut_ref_future(store) == final(self).inner()
                    &&& call_ensures(S::range, (store, left_fencepost, right_fencepost, offset, limit), r)
                },
    {
        let start = Instant::now();
        let outcome = self.store.range(left_fencepost, right_fencepost, offset, limit);
        Self::record(&mut self.metrics, Operation::Range, start, outcome)
    }

    fn range_with_values(
        &mut self,
        left_fencepost: &Self::Key,
        right_fencepost: &Self::Key,
        offset: usize,
        limit: usize,
    ) -> (r: Result<Vec<(Self::Key, Vec<u8>)>, Error>)
        ensures
            logged_once(old(self).log(), final(self).log(), Operation::RangeWithValues),
            exists|store: &mut S|
                {
                    &&& mut_ref_current(store) == old(self).inner()
                    &&& mut_ref_future(store) == final(self).inner()
                    &&& call_ensures(S::range_with_values, (store, left_fencepost, right_fencepost, offset, limit), r)
                },
    {
        let start = Instant::now();
        let outcome = self.store.range_with_values(left_fencepost, right_fencepost, offset, limit);
        Self::record(&mut self.metrics, Operation::RangeWithValues, start, outcome)
    }

    fn full_range(&mut self) -> (r: Result<Vec<Self::Key>, Error>)
        ensures
            logged_once(old(self).log(), final(self).log(), Operation::FullRange),
            exists|store: &mut S|
                {
                    &&& mut_ref_current(store) == old(self).inner()
                    &&& mut_ref_future(store) == final(self).inner()
                    &&& call_ensures(S::full_range, (store,), r)
                },
    {
        let start = Instant::now();
        let outcome = self.store.full_range();
        Self::record(&mut self.metrics, Operation::FullRange, start, outcome)
    }

    fn middle(&mut self, left_fencepost: &Self::Key, right_fencepost: &Self::Key) -> (r: Result<
        Option<Self::Key>,
        Error,
    >)
        ensures
            logged_once(old(self).log(), final(self).log(), Operation::Middle),
            exists|store: &mut S|
                {
                    &&& mut_ref_current(store) == old(self).inner()
                    &&& mut_ref_future(store) == final(self).inner()
                    &&& call_ensures(S::middle, (store, left_fencepost, right_fencepost), r)
                },
    {
        let start = Instant::now();
        let outcome = self.store.middle(left_fencepost, right_fencepost);
        Self::record(&mut self.metrics, Operation::Middle, start, outcome)
    }

    fn count(&mut self, left_fencepost: &Self::Key, right_fencepost: &Self::Key) -> (r: Result<
        usize,
        Error,
    >)
        ensures
            logged_once(old(self).log(), final(self).log(), Operation::Count),
            exists|store: &mut S|
                {
                    &&& mut_ref_current(store) == old(self).inner()
                    &&& mut_ref_future(store) == final(self).inner()
                    &&& call_ensures(S::count, (store, left_fencepost, right_fencepost), r)
                },
    {
        let start = Instant::now();
        let outcome = self.store.count(left_fencepost, right_fencepost);
        Self::record(&mut self.metrics, Operation::Count, start, outcome)
    }

    fn first(&mut self, left_fencepost: &Self::Key, right_fencepost: &Self::Key) -> (r: Result<
        Option<Self::Key>,
        Error,
    >)
        ensures
            logged_once(old(self).log(), final(self).log(), Operation::First),
            exists|store: &mut S|
                {
                    &&& mut_ref_current(store) == old(self).inner()
                    &&& mut_ref_future(store) == final(self).inner()
                    &&& call_ensures(S::first, (store, left_fencepost, right_fencepost), r)
                },
    {
        let start = Instant::now();
        let outcome = self.store.first(left_fencepost, right_fencepost);
        Self::record(&mut self.metrics, Operation::First, start, outcome)
    }

    fn last(&mut self, left_fencepost: &Self::Key, right_fencepost: &Self::Key) -> (r: Result<
        Option<Self::Key>,
        Error,
    >)
        ensures
            logged_once(old(self).log(), final(self).log(), Operation::Last),
            exists|store: &mut S|
                {
                    &&& mut_ref_current(store) == old(self).inner()
                    &&& mut_ref_future(store) == final(self).inner()
                    &&& call_ensures(S::last, (store, left_fencepost, right_fencepost), r)
                },
    {
        let start = Instant::now();
        let outcome = self.store.last(left_fencepost, right_fencepost);
        Self::record(&mut self.metrics, Operation::Last, start, outcome)
    }

    fn first_and_last(&mut self, left_fencepost: &Self::Key, right_fencepost: &Self::Key) -> (r:
        Result<Option<(Self::Key, Self::Key)>, Error>)
        ensures
            logged_once(old(self).log(), final(self).log(), Operation::FirstAndLast),
            exists|store: &mut S|
                {
                    &&& mut_ref_current(store) == old(self).inner()
                    &&& mut_ref_future(store) == final(self).inner()
                    &&& call_ensures(S::first_and_last, (store, left_fencepost, right_fencepost), r)
                },
    {
        let start = Instant::now();
        let outcome = self.store.first_and_last(left_fencepost, right_fencepost);
        Self::record(&mut self.metrics, Operation::FirstAndLast, start, outcome)
    }

    fn len(&mut self) -> (r: Result<usize, Error>)
        ensures
            logged_once(old(self).log(), final(self).log(), Operation::Len),
            exists|store: &mut S|
                {
                    &&& mut_ref_current(store) == old(self).inner()
                    &&& mut_ref_future(store) == final(self).inner()
                    &&& call_ensures(S::len, (store,), r)
                },
    {
        let start = Instant::now();
        let outcome = self.store.len();
        Self::record(&mut self.metrics, Operation::Len, start, outcome)
    }

    fn is_empty(&mut self) -> (r: Result<bool, Error>)
        ensures
            logged_once(old(self).log(), final(self).log(), Operation::IsEmpty),
            exists|store: &mut S|
                {
                    &&& mut_ref_current(store) == old(self).inner()
                    &&& mut_ref_future(store) == final(self).inner()
                    &&& call_ensures(S::is_empty, (store,), r)
                },
    {
        let start = Instant::now();
        let outcome = self.store.is_empty();
        Self::record(&mut self.metrics, Operation::IsEmpty, start, outcome)
    }

    fn value_for_key(&mut self, key: &Self::Key) -> (r: Result<Option<Vec<u8>>, Error>)
        ensures
            logged_once(old(self).log(), final(self).log(), Operation::ValueForKey),
            exists|store: &mut S|
                {
                    &&& mut_ref_current(store) == old(self).inner()
                    &&& mut_ref_future(store) == final(self).inner()
                    &&& call_ensures(S::value_for_key, (store, key), r)
                },
    {
        let start = Instant::now();
        let outcome = self.store.value_for_key(key);
        Self::record(&mut self.metrics, Operation::ValueForKey, start, outcome)
    }

    fn keys_with_missing_values(&mut self, range: RangeOpen<Self::Key>) -> (r: Result<
        Vec<Self::Key>,
        Error,
    >)
        ensures
            logged_once(old(self).log(), final(self).log(), Operation::KeysWithMissingValues),
            exists|store: &mut S|
                {
                    &&& mut_ref_current(store) == old(self).inner()
                    &&& mut_ref_future(store) == final(self).inner()
                    &&& call_ensures(S::keys_with_missing_values, (store, range), r)
                },
    {
        let start = Instant::now();
        let outcome = self.store.keys_with_missing_values(range);
        Self::record(&mut self.metrics, Operation::KeysWithMissingValues, start, outcome)
    }
}

} // verus!
