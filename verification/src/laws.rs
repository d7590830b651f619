//! What holds between the answers of a store's operations.

use crate::hash::HashCount;
use crate::key::Key;
use crate::model::{ascending, between, in_range, inside, keys_of, page, Entry};
use crate::store::Store;
use vstd::prelude::*;

verus! {

/// `count` and `hash_range` agree. Asked about the same fenceposts of stores
/// that hold the same records (one store at two moments, or a store and the
/// decorator around it), a count that succeeds is the count in a hash that
/// succeeds.
pub proof fn lemma_count_agrees_with_hash_range<S: Store, T: Store<Key = S::Key>>(
    counting: &mut S,
    hashing: &mut T,
    left: &S::Key,
    right: &S::Key,
    n: usize,
    hc: HashCount<T::Hash>,
)
    requires
        mut_ref_current(counting).contents() == mut_ref_current(hashing).contents(),
        call_ensures(S::count, (counting, left, right), Ok(n)),
        call_ensures(T::hash_range, (hashing, left, right), Ok(hc)),
    ensures
        n == hc.count,
{
}

/// `is_empty` and `len` agree. Asked of stores that hold the same records,
/// an `is_empty` that succeeds says yes exactly where a `len` that succeeds
/// says zero.
pub proof fn lemma_is_empty_agrees_with_len<S: Store, T: Store<Key = S::Key>>(
    asking: &mut S,
    measuring: &mut T,
    empty: bool,
    n: usize,
)
    requires
        mut_ref_current(asking).contents() == mut_ref_current(measuring).contents(),
        call_ensures(S::is_empty, (asking,), Ok(empty)),
        call_ensures(T::len, (measuring,), Ok(n)),
    ensures
        empty <==> n == 0,
{
}

/// `first_and_last` agrees with `first` and `last`. Asked about the same
/// fenceposts of stores that hold the same records, the pair is the two
/// single answers, and there is a pair exactly where there are single
/// answers.
pub proof fn lemma_first_and_last_agrees<S: Store>(
    both: &mut S,
    low: &mut S,
    high: &mut S,
    left: &S::Key,
    right: &S::Key,
    ends: Option<(S::Key, S::Key)>,
    first: Option<S::Key>,
    last: Option<S::Key>,
)
    requires
        mut_ref_current(both).contents() == mut_ref_current(low).contents(),
        mut_ref_current(both).contents() == mut_ref_current(high).contents(),
        call_ensures(S::first_and_last, (both, left, right), Ok(ends)),
        call_ensures(S::first, (low, left, right), Ok(first)),
        call_ensures(S::last, (high, left, right), Ok(last)),
    ensures
        match ends {
            Some((a, b)) => first == Some(a) && last == Some(b),
            None => first is None && last is None,
        },
{
}

/// Two pages that follow one another make up the one page that spans both.
pub proof fn lemma_pages_join<A>(s: Seq<A>, offset: nat, first: nat, second: nat)
    ensures
        page(s, offset, first) + page(s, offset + first, second) == page(
            s,
            offset,
            first + second,
        ),
{
    assert(page(s, offset, first) + page(s, offset + first, second) =~= page(
        s,
        offset,
        first + second,
    ));
}

/// A page from the start that is at least as long as the run is the run.
pub proof fn lemma_page_covers<A>(s: Seq<A>, limit: nat)
    requires
        limit >= s.len(),
    ensures
        page(s, 0, limit) == s,
{
    assert(page(s, 0, limit) =~= s);
}

/// A page past the end of the run is empty.
pub proof fn lemma_page_past_end<A>(s: Seq<A>, offset: nat, limit: nat)
    requires
        offset >= s.len(),
    ensures
        page(s, offset, limit) == Seq::<A>::empty(),
{
    assert(page(s, offset, limit) =~= Seq::<A>::empty());
}

/// The keys between two fenceposts are the keys of the whole store with
/// those outside the fenceposts left out.
pub proof fn lemma_between_restricts_all<K: Key>(s: Seq<Entry<K>>, left: K, right: K)
    ensures
        keys_of(between(s, left, right)) == keys_of(s).filter(|k: K| inside(left, right, k)),
    decreases s.len(),
{
    reveal(Seq::filter);
    let by_entry = in_range(left, right);
    let by_key = |k: K| inside(left, right, k);
    if s.len() == 0 {
        assert(keys_of(between(s, left, right)) =~= keys_of(s).filter(by_key));
    } else {
        lemma_between_restricts_all(s.drop_last(), left, right);
        assert(keys_of(s).drop_last() =~= keys_of(s.drop_last()));
        assert(keys_of(s).last() == s.last().key);
        if inside(left, right, s.last().key) {
            assert(keys_of(s.drop_last().filter(by_entry).push(s.last())) =~= keys_of(
                s.drop_last().filter(by_entry),
            ).push(s.last().key));
        }
        assert(keys_of(between(s, left, right)) =~= keys_of(s).filter(by_key));
    }
}

/// In a store's ascending run, the keys between two fenceposts are ascending
/// too: the first is the least of them and the last the greatest.
pub proof fn lemma_between_ascending<K: Key>(s: Seq<Entry<K>>, left: K, right: K)
    requires
        ascending(s),
    ensures
        ascending(between(s, left, right)),
        forall|i: int|
            0 <= i < between(s, left, right).len() ==> inside(
                left,
                right,
                (#[trigger] between(s, left, right)[i]).key,
            ),
    decreases s.len(),
{
    reveal(Seq::filter);
    let by_entry = in_range(left, right);
    if s.len() > 0 {
        let front = s.drop_last();
        lemma_between_ascending(front, left, right);
        if inside(left, right, s.last().key) {
            let found = between(s, left, right);
            assert(found == between(front, left, right).push(s.last()));
            assert forall|i: int, j: int| 0 <= i < j < found.len() implies (#[trigger] found[i]).key.precedes(
                (#[trigger] found[j]).key,
            ) by {
                if j == found.len() - 1 {
                    front.lemma_filter_contains_rev(by_entry, found[i]);
                    let k = choose|k: int| 0 <= k < front.len() && front[k] == found[i];
                    assert(s[k] == found[i]);
                    assert(s[s.len() - 1] == found[j]);
                }
            }
        }
    }
}

} // verus!
