//! A store that keeps its records in memory, in one ordered vector.

use crate::hash::{aggregate, AssociativeHash, HashCount};
use crate::key::Key;
use crate::model::{
    above, ascending, below, between, fresh_flags, has_key, in_range, index_of, inside, keys_of,
    page, put_all, unvalued, valued, with_value, without_value, Entry,
};
use crate::store::{bytes_view, entries_of, pairs_view, InsertResult, RangeOpen, ReconItem, Store};
use anyhow::Error;
use std::marker::PhantomData;
use vstd::prelude::*;
use vstd::slice::slice_to_vec;

verus! {

/// One record as it is held: a key and, once it has arrived, its value.
struct Record<K> {
    key: K,
    value: Option<Vec<u8>>,
}

impl<K> Record<K> {
    /// The record as the model sees it.
    spec fn entry(self) -> Entry<K> {
        Entry { key: self.key, value: bytes_view(self.value) }
    }
}

/// The records of a vector as the model sees them.
spec fn entries<K>(records: Seq<Record<K>>) -> Seq<Entry<K>> {
    records.map_values(|r: Record<K>| r.entry())
}

/// A predicate that holds exactly on the places from `lo` up to `hi` picks
/// out that stretch of the run.
proof fn lemma_filter_span<A>(s: Seq<A>, p: spec_fn(A) -> bool, lo: int, hi: int)
    requires
        0 <= lo <= hi <= s.len(),
        forall|i: int| 0 <= i < s.len() ==> (#[trigger] p(s[i]) <==> lo <= i < hi),
    ensures
        s.filter(p) == s.subrange(lo, hi),
    decreases s.len(),
{
    reveal(Seq::filter);
    if s.len() == 0 {
        assert(s.filter(p) =~= s.subrange(lo, hi));
    } else {
        let front = s.drop_last();
        let n = front.len() as int;
        assert forall|i: int| 0 <= i < front.len() implies front[i] == s[i] by {}
        if hi <= n {
            assert forall|i: int| 0 <= i < front.len() implies (#[trigger] p(front[i]) <==> lo <= i
                < hi) by {
                assert(p(s[i]) <==> lo <= i < hi);
            }
            lemma_filter_span(front, p, lo, hi);
            assert(!p(s[n]));
            assert(front.subrange(lo, hi) =~= s.subrange(lo, hi));
        } else if lo <= n {
            assert forall|i: int| 0 <= i < front.len() implies (#[trigger] p(front[i]) <==> lo <= i
                < n) by {
                assert(p(s[i]) <==> lo <= i < hi);
            }
            lemma_filter_span(front, p, lo, n);
            assert(p(s[n]));
            assert(front.subrange(lo, n).push(s.last()) =~= s.subrange(lo, hi));
        } else {
            assert forall|i: int| 0 <= i < front.len() implies (#[trigger] p(front[i]) <==> n <= i
                < n) by {
                assert(p(s[i]) <==> lo <= i < hi);
            }
            lemma_filter_span(front, p, n, n);
            assert(!p(s[n]));
            assert(front.subrange(n, n) =~= s.subrange(lo, hi));
        }
    }
}

/// In an ascending run a key stands at one place only.
proof fn lemma_place_of_key<K: Key>(c: Seq<Entry<K>>, p: int)
    requires
        ascending(c),
        0 <= p < c.len(),
    ensures
        has_key(c, c[p].key),
        index_of(c, c[p].key) == p,
{
    let k = c[p].key;
    assert(has_key(c, k));
    let q = index_of(c, k);
    K::lemma_irreflexive(k);
    if q < p {
        assert(c[q].key.precedes(c[p].key));
    } else if p < q {
        assert(c[p].key.precedes(c[q].key));
    }
}

/// Where the records from `lo` up to `hi` are those above `left` and below
/// `right`, they are the records between the two fenceposts.
proof fn lemma_span_is_between<K: Key>(c: Seq<Entry<K>>, left: K, right: K, lo: int, hi: int)
    requires
        0 <= lo <= hi <= c.len(),
        forall|i: int| 0 <= i < c.len() ==> (left.precedes((#[trigger] c[i]).key) <==> lo <= i),
        forall|i: int|
            0 <= i < c.len() && lo <= i ==> ((#[trigger] c[i]).key.precedes(right) <==> i < hi),
    ensures
        between(c, left, right) == c.subrange(lo, hi),
{
    let p = in_range(left, right);
    assert forall|i: int| 0 <= i < c.len() implies (#[trigger] p(c[i]) <==> lo <= i < hi) by {
        assert(p(c[i]) == inside(left, right, c[i].key));
    }
    lemma_filter_span(c, p, lo, hi);
}

/// The key that `MemoryStore` takes for the middle of a run: with an odd
/// number of records the one in the middle, with an even number the one
/// just before the middle.
pub open spec fn middle_of<K>(s: Seq<Entry<K>>) -> Option<K> {
    if s.len() == 0 {
        None
    } else {
        Some(s[(s.len() - 1) / 2].key)
    }
}

/// A store in memory. It never fails, and it keeps the value that came
/// first for a key.
pub struct MemoryStore<K: Key, H: AssociativeHash<K>> {
    records: Vec<Record<K>>,
    hash: PhantomData<H>,
}

impl<K: Key, H: AssociativeHash<K>> MemoryStore<K, H> {
    #[verifier::type_invariant]
    spec fn in_order(self) -> bool {
        ascending(entries(self.records@))
    }

    /// The records held, in ascending key order.
    pub closed spec fn held(&self) -> Seq<Entry<K>> {
        entries(self.records@)
    }

    /// A store that holds nothing.
    pub fn new() -> (store: Self)
        ensures
            store.held() == Seq::<Entry<K>>::empty(),
    {
        let store = MemoryStore { records: Vec::new(), hash: PhantomData };
        assert(store.held() =~= Seq::<Entry<K>>::empty());
        store
    }

    /// The place of the first record whose key sorts after `key`.
    fn first_after(&self, key: &K) -> (p: usize)
        ensures
            p <= self.held().len(),
            forall|i: int|
                0 <= i < self.held().len() ==> (key.precedes((#[trigger] self.held()[i]).key) <==> p
                    <= i),
    {
        proof {
            use_type_invariant(self);
        }
        let mut p: usize = 0;
        while p < self.records.len() && !key.is_before(&self.records[p].key)
            invariant
                p <= self.records.len(),
                forall|i: int| 0 <= i < p ==> !key.precedes((#[trigger] self.held()[i]).key),
            decreases self.records.len() - p,
        {
            p += 1;
        }
        proof {
            let c = self.held();
            assert forall|i: int| 0 <= i < c.len() && p <= i implies key.precedes(
                (#[trigger] c[i]).key,
            ) by {
                assert(key.precedes(c[p as int].key));
                if p < i {
                    assert(c[p as int].key.precedes(c[i].key));
                    K::lemma_transitive(*key, c[p as int].key, c[i].key);
                }
            }
        }
        p
    }

    /// The place of the first record whose key does not sort before `key`.
    fn first_not_before(&self, key: &K) -> (p: usize)
        ensures
            p <= self.held().len(),
            forall|i: int|
                0 <= i < self.held().len() ==> ((#[trigger] self.held()[i]).key.precedes(*key) <==> i
                    < p),
    {
        proof {
            use_type_invariant(self);
        }
        let mut p: usize = 0;
        while p < self.records.len() && self.records[p].key.is_before(key)
            invariant
                p <= self.records.len(),
                forall|i: int| 0 <= i < p ==> (#[trigger] self.held()[i]).key.precedes(*key),
            decreases self.records.len() - p,
        {
            p += 1;
        }
        proof {
            let c = self.held();
            assert forall|i: int| 0 <= i < c.len() && p <= i implies !(#[trigger] c[i]).key.precedes(
                *key,
            ) by {
                assert(!c[p as int].key.precedes(*key));
                if p < i && c[i].key.precedes(*key) {
                    assert(c[p as int].key.precedes(c[i].key));
                    K::lemma_transitive(c[p as int].key, c[i].key, *key);
                }
            }
        }
        p
    }

    /// The stretch of records between two fenceposts: from place `lo` up to
    /// place `hi`.
    fn span(&self, left: &K, right: &K) -> (ends: (usize, usize))
        ensures
            ends.0 <= ends.1 <= self.held().len(),
            between(self.held(), *left, *right) == self.held().subrange(
                ends.0 as int,
                ends.1 as int,
            ),
    {
        let lo = self.first_after(left);
        let stop = self.first_not_before(right);
        let hi = if stop < lo {
            lo
        } else {
            stop
        };
        proof {
            lemma_span_is_between(self.held(), *left, *right, lo as int, hi as int);
        }
        (lo, hi)
    }
}

impl<K: Key, H: AssociativeHash<K>> MemoryStore<K, H> {
    /// The stretch of records that makes up one page of those between two
    /// fenceposts: from place `from` up to place `to`.
    fn window(&self, left: &K, right: &K, offset: usize, limit: usize) -> (ends: (usize, usize))
        ensures
            ends.0 <= ends.1 <= self.held().len(),
            page(between(self.held(), *left, *right), offset as nat, limit as nat)
                == self.held().subrange(ends.0 as int, ends.1 as int),
    {
        let (lo, hi) = self.span(left, right);
        let skipped = if offset <= hi - lo {
            offset
        } else {
            hi - lo
        };
        let from = lo + skipped;
        let taken = if limit <= hi - from {
            limit
        } else {
            hi - from
        };
        let to = from + taken;
        proof {
            let found = self.held().subrange(lo as int, hi as int);
            assert(page(found, offset as nat, limit as nat) =~= self.held().subrange(
                from as int,
                to as int,
            ));
        }
        (from, to)
    }

    /// Copies of the keys of the records from place `from` up to place `to`.
    fn keys_in(&self, from: usize, to: usize) -> (keys: Vec<K>)
        requires
            from <= to <= self.held().len(),
        ensures
            keys@ == keys_of(self.held().subrange(from as int, to as int)),
    {
        let mut keys: Vec<K> = Vec::new();
        let mut i: usize = from;
        while i < to
            invariant
                from <= i <= to <= self.records.len(),
                keys@ == keys_of(self.held().subrange(from as int, i as int)),
            decreases to - i,
        {
            keys.push(self.records[i].key.duplicate());
            i += 1;
        }
        keys
    }
}

/// A key that is not at the place where the order would have it is not in
/// the run at all.
proof fn lemma_key_absent<K: Key>(c: Seq<Entry<K>>, key: K, p: int)
    requires
        ascending(c),
        0 <= p <= c.len(),
        forall|i: int| 0 <= i < c.len() ==> ((#[trigger] c[i]).key.precedes(key) <==> i < p),
        p < c.len() ==> c[p].key != key,
    ensures
        !has_key(c, key),
        c.filter(below(key)) == c.subrange(0, p),
        c.filter(above(key)) == c.subrange(p, c.len() as int),
{
    K::lemma_irreflexive(key);
    assert forall|i: int| 0 <= i < c.len() implies (#[trigger] c[i]).key != key by {
        if c[i].key == key {
            if i < p {
                assert(c[i].key.precedes(key));
            } else if i > p {
                assert(c[p].key.precedes(c[i].key));
                assert(!c[p].key.precedes(key));
            }
        }
    }
    let lower = below(key);
    assert forall|i: int| 0 <= i < c.len() implies (#[trigger] lower(c[i]) <==> 0 <= i < p) by {
        assert(lower(c[i]) == c[i].key.precedes(key));
    }
    lemma_filter_span(c, lower, 0, p);
    let upper = above(key);
    assert forall|i: int| 0 <= i < c.len() implies (#[trigger] upper(c[i]) <==> p <= i < c.len()) by {
        assert(upper(c[i]) == key.precedes(c[i].key));
        assert(c[i].key != key);
        K::lemma_connected(key, c[i].key);
        if key.precedes(c[i].key) && c[i].key.precedes(key) {
            K::lemma_transitive(key, c[i].key, key);
        }
        assert(c[i].key.precedes(key) <==> i < p);
    }
    lemma_filter_span(c, upper, p, c.len() as int);
}

impl<K: Key, H: AssociativeHash<K>> Store for MemoryStore<K, H> {
    type Key = K;

    type Hash = H;

    open spec fn contents(&self) -> Seq<Entry<K>> {
        self.held()
    }

    fn insert(&mut self, item: ReconItem<'_, K>) -> (r: Result<bool, Error>)
        ensures
            r is Ok,
    {
        proof {
            use_type_invariant(&*self);
        }
        let ghost before = self.held();
        let ghost offered = item.entry();
        let p = self.first_not_before(item.key);
        if p < self.records.len() && self.records[p].key.is_same(item.key) {
            proof {
                lemma_place_of_key(before, p as int);
            }
            if self.records[p].value.is_none() {
                let value = match item.value {
                    Some(bytes) => Some(slice_to_vec(bytes)),
                    None => None,
                };
                let record = Record { key: item.key.duplicate(), value };
                proof {
                    let after = entries(self.records@.update(p as int, record));
                    assert(after =~= before.update(p as int, offered));
                    assert forall|i: int, j: int| 0 <= i < j < after.len() implies (
                    #[trigger] after[i]).key.precedes((#[trigger] after[j]).key) by {
                        assert(before[i].key.precedes(before[j].key));
                    }
                }
                let mut records: Vec<Record<K>> = Vec::new();
                std::mem::swap(&mut self.records, &mut records);
                records.set(p, record);
                std::mem::swap(&mut self.records, &mut records);
            }
            Ok(false)
        } else {
            let value = match item.value {
                Some(bytes) => Some(slice_to_vec(bytes)),
                None => None,
            };
            let record = Record { key: item.key.duplicate(), value };
            proof {
                lemma_key_absent(before, *item.key, p as int);
                let after = entries(self.records@.insert(p as int, record));
                assert(after =~= before.subrange(0, p as int).push(offered) + before.subrange(
                    p as int,
                    before.len() as int,
                ));
                assert forall|i: int, j: int| 0 <= i < j < after.len() implies (
                #[trigger] after[i]).key.precedes((#[trigger] after[j]).key) by {
                    let k = *item.key;
                    if j < p {
                        assert(before[i].key.precedes(before[j].key));
                    } else if j == p {
                        assert(before[i].key.precedes(k));
                    } else if i < p {
                        assert(before[i].key.precedes(before[j - 1].key));
                    } else if i == p {
                        assert(!before[j - 1].key.precedes(k));
                        assert(before[j - 1].key != k);
                        K::lemma_connected(k, before[j - 1].key);
                    } else {
                        assert(before[i - 1].key.precedes(before[j - 1].key));
                    }
                }
            }
            let mut records: Vec<Record<K>> = Vec::new();
            std::mem::swap(&mut self.records, &mut records);
            records.insert(p, record);
            std::mem::swap(&mut self.records, &mut records);
            Ok(true)
        }
    }

    fn insert_many(&mut self, items: &[ReconItem<'_, K>]) -> (r: Result<InsertResult, Error>)
        ensures
            r is Ok,
    {
        proof {
            use_type_invariant(&*self);
        }
        let ghost before = self.held();
        let ghost batch = entries_of(items@);
        let mut keys: Vec<bool> = Vec::new();
        let mut i: usize = 0;
        assert(batch.take(0) =~= Seq::<Entry<K>>::empty());
        while i < items.len()
            invariant
                i <= items.len(),
                batch == entries_of(items@),
                keys@.len() == i,
                forall|j: int|
                    0 <= j < i ==> (#[trigger] keys@[j]) == !has_key(
                        put_all(before, batch.take(j)),
                        batch[j].key,
                    ),
                self.held() == put_all(before, batch.take(i as int)),
                ascending(self.held()),
            decreases items.len() - i,
        {
            let item = ReconItem { key: items[i].key, value: items[i].value };
            assert(item.entry() == batch[i as int]);
            assert(batch.take(i + 1).drop_last() =~= batch.take(i as int));
            match self.insert(item) {
                Ok(fresh) => {
                    keys.push(fresh);
                },
                Err(e) => {
                    return Err(e);
                },
            }
            i += 1;
        }
        assert(batch.take(i as int) =~= batch);
        assert(keys@ =~= fresh_flags(before, batch));
        Ok(InsertResult { keys })
    }

    fn hash_range(&mut self, left_fencepost: &K, right_fencepost: &K) -> (r: Result<
        HashCount<H>,
        Error,
    >)
        ensures
            r is Ok,
    {
        proof {
            use_type_invariant(&*self);
        }
        let (lo, hi) = self.span(left_fencepost, right_fencepost);
        let mut hash = H::identity();
        let mut i: usize = lo;
        assert(keys_of(self.held().subrange(lo as int, lo as int)) =~= Seq::<K>::empty());
        while i < hi
            invariant
                lo <= i <= hi <= self.records.len(),
                hash == aggregate::<K, H>(keys_of(self.held().subrange(lo as int, i as int))),
            decreases hi - i,
        {
            let digest = H::digest(&self.records[i].key);
            proof {
                let next = keys_of(self.held().subrange(lo as int, i + 1));
                assert(next.drop_last() =~= keys_of(self.held().subrange(lo as int, i as int)));
                assert(next.last() == self.held()[i as int].key);
            }
            hash = hash.combine(&digest);
            i += 1;
        }
        Ok(HashCount { hash, count: (hi - lo) as u64 })
    }

    fn range(&mut self, left_fencepost: &K, right_fencepost: &K, offset: usize, limit: usize) -> (r:
        Result<Vec<K>, Error>)
        ensures
            r is Ok,
    {
        proof {
            use_type_invariant(&*self);
        }
        let (from, to) = self.window(left_fencepost, right_fencepost, offset, limit);
        Ok(self.keys_in(from, to))
    }

    fn range_with_values(
        &mut self,
        left_fencepost: &K,
        right_fencepost: &K,
        offset: usize,
        limit: usize,
    ) -> (r: Result<Vec<(K, Vec<u8>)>, Error>)
        ensures
            r is Ok,
    {
        proof {
            use_type_invariant(&*self);
        }
        let (from, to) = self.window(left_fencepost, right_fencepost, offset, limit);
        let mut pairs: Vec<(K, Vec<u8>)> = Vec::new();
        let mut i: usize = from;
        proof {
            reveal(Seq::filter);
            assert(pairs_view(pairs@) =~= valued(self.held().subrange(from as int, from as int)));
        }
        while i < to
            invariant
                from <= i <= to <= self.records.len(),
                pairs_view(pairs@) == valued(self.held().subrange(from as int, i as int)),
            decreases to - i,
        {
            let ghost done = self.held().subrange(from as int, i as int);
            let ghost seen = pairs@;
            proof {
                assert(self.held().subrange(from as int, i + 1) =~= done.push(
                    self.held()[i as int],
                ));
                done.lemma_filter_push(self.held()[i as int], with_value());
            }
            match &self.records[i].value {
                Some(bytes) => {
                    let value = bytes.clone();
                    assert(value@ =~= bytes@);
                    let key = self.records[i].key.duplicate();
                    pairs.push((key, value));
                    proof {
                        let e = self.held()[i as int];
                        assert(pairs_view(pairs@) =~= pairs_view(seen).push((e.key, e.value->0)));
                        assert(valued(done.push(e)) =~= valued(done).push((e.key, e.value->0)));
                    }
                },
                None => {},
            }
            i += 1;
        }
        Ok(pairs)
    }

    fn full_range(&mut self) -> (r: Result<Vec<K>, Error>)
        ensures
            r is Ok,
    {
        proof {
            use_type_invariant(&*self);
        }
        let n = self.records.len();
        assert(self.held().subrange(0, n as int) =~= self.held());
        Ok(self.keys_in(0, n))
    }

    fn middle(&mut self, left_fencepost: &K, right_fencepost: &K) -> (r: Result<Option<K>, Error>)
        ensures
            r is Ok,
            r->Ok_0 == middle_of(between(old(self).contents(), *left_fencepost, *right_fencepost)),
    {
        proof {
            use_type_invariant(&*self);
        }
        let (lo, hi) = self.span(left_fencepost, right_fencepost);
        if lo == hi {
            Ok(None)
        } else {
            let at = lo + (hi - lo - 1) / 2;
            let key = self.records[at].key.duplicate();
            proof {
                let found = between(self.held(), *left_fencepost, *right_fencepost);
                assert(found[at - lo].key == key);
            }
            Ok(Some(key))
        }
    }

    fn count(&mut self, left_fencepost: &K, right_fencepost: &K) -> (r: Result<usize, Error>)
        ensures
            r is Ok,
    {
        proof {
            use_type_invariant(&*self);
        }
        let (lo, hi) = self.span(left_fencepost, right_fencepost);
        Ok(hi - lo)
    }

    fn first(&mut self, left_fencepost: &K, right_fencepost: &K) -> (r: Result<Option<K>, Error>)
        ensures
            r is Ok,
    {
        proof {
            use_type_invariant(&*self);
        }
        let (lo, hi) = self.span(left_fencepost, right_fencepost);
        if lo == hi {
            Ok(None)
        } else {
            Ok(Some(self.records[lo].key.duplicate()))
        }
    }

    fn last(&mut self, left_fencepost: &K, right_fencepost: &K) -> (r: Result<Option<K>, Error>)
        ensures
            r is Ok,
    {
        proof {
            use_type_invariant(&*self);
        }
        let (lo, hi) = self.span(left_fencepost, right_fencepost);
        if lo == hi {
            Ok(None)
        } else {
            Ok(Some(self.records[hi - 1].key.duplicate()))
        }
    }

    fn first_and_last(&mut self, left_fencepost: &K, right_fencepost: &K) -> (r: Result<
        Option<(K, K)>,
        Error,
    >)
        ensures
            r is Ok,
    {
        proof {
            use_type_invariant(&*self);
        }
        let (lo, hi) = self.span(left_fencepost, right_fencepost);
        if lo == hi {
            Ok(None)
        } else {
            let first = self.records[lo].key.duplicate();
            let last = self.records[hi - 1].key.duplicate();
            Ok(Some((first, last)))
        }
    }

    fn len(&mut self) -> (r: Result<usize, Error>)
        ensures
            r is Ok,
    {
        proof {
            use_type_invariant(&*self);
        }
        Ok(self.records.len())
    }

    fn is_empty(&mut self) -> (r: Result<bool, Error>)
        ensures
            r is Ok,
    {
        proof {
            use_type_invariant(&*self);
        }
        Ok(self.records.len() == 0)
    }

    fn value_for_key(&mut self, key: &K) -> (r: Result<Option<Vec<u8>>, Error>)
        ensures
            r is Ok,
    {
        proof {
            use_type_invariant(&*self);
        }
        let p = self.first_not_before(key);
        if p < self.records.len() && self.records[p].key.is_same(key) {
            proof {
                lemma_place_of_key(self.held(), p as int);
            }
            match &self.records[p].value {
                Some(bytes) => {
                    let value = bytes.clone();
                    assert(value@ =~= bytes@);
                    Ok(Some(value))
                },
                None => Ok(None),
            }
        } else {
            proof {
                lemma_key_absent(self.held(), *key, p as int);
            }
            Ok(None)
        }
    }

    fn keys_with_missing_values(&mut self, range: RangeOpen<K>) -> (r: Result<Vec<K>, Error>)
        ensures
            r is Ok,
    {
        proof {
            use_type_invariant(&*self);
        }
        let (lo, hi) = self.span(&range.start, &range.end);
        let mut keys: Vec<K> = Vec::new();
        let mut i: usize = lo;
        proof {
            reveal(Seq::filter);
            assert(keys@ =~= keys_of(unvalued(self.held().subrange(lo as int, lo as int))));
        }
        while i < hi
            invariant
                lo <= i <= hi <= self.records.len(),
                keys@ == keys_of(unvalued(self.held().subrange(lo as int, i as int))),
            decreases hi - i,
        {
            let ghost done = self.held().subrange(lo as int, i as int);
            let ghost seen = keys@;
            proof {
                assert(self.held().subrange(lo as int, i + 1) =~= done.push(self.held()[i as int]));
                done.lemma_filter_push(self.held()[i as int], without_value());
            }
            if self.records[i].value.is_none() {
                keys.push(self.records[i].key.duplicate());
                proof {
                    let e = self.held()[i as int];
                    assert(keys_of(unvalued(done.push(e))) =~= keys_of(unvalued(done)).push(e.key));
                }
            }
            i += 1;
        }
        Ok(keys)
    }
}

} // verus!
