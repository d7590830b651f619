use recon::hash::{AssociativeHash, KeySum};
use recon::key::Key;
use recon::memory::MemoryStore;
use recon::store::{RangeOpen, ReconItem, Store};

type Plain = MemoryStore<u64, KeySum>;

fn store_of(keys: &[u64]) -> Plain {
    let mut store = Plain::new();
    for key in keys {
        store.insert(ReconItem::new(key, None)).unwrap();
    }
    store
}

#[test]
fn count_is_the_count_of_hash_range() {
    let mut store = store_of(&[7, 3, 9, 1, 5]);
    for l in 0..11u64 {
        for r in 0..11u64 {
            let n = store.count(&l, &r).unwrap();
            let hc = store.hash_range(&l, &r).unwrap();
            assert_eq!(n as u64, hc.count);
        }
    }
}

#[test]
fn empty_exactly_when_length_is_zero() {
    let mut store = Plain::new();
    assert!(store.is_empty().unwrap());
    assert_eq!(store.len().unwrap(), 0);
    store.insert(ReconItem::new(&4, None)).unwrap();
    assert!(!store.is_empty().unwrap());
    assert_eq!(store.len().unwrap(), 1);
}

#[test]
fn insert_tells_new_keys_from_known_ones() {
    let mut store = Plain::new();
    assert!(store.insert(ReconItem::new(&2, None)).unwrap());
    assert!(!store.insert(ReconItem::new(&2, None)).unwrap());
    assert!(store.insert(ReconItem::new(&1, None)).unwrap());
    assert!(store.insert(ReconItem::new(&3, None)).unwrap());
    assert_eq!(store.full_range().unwrap(), vec![1, 2, 3]);
}

#[test]
fn full_range_is_ascending_whatever_the_order_of_arrival() {
    let mut store = store_of(&[50, 10, 40, 20, 30, 10, 50]);
    assert_eq!(store.full_range().unwrap(), vec![10, 20, 30, 40, 50]);
    assert_eq!(store.len().unwrap(), 5);
}

#[test]
fn fenceposts_are_not_part_of_the_range() {
    let mut store = store_of(&[10, 20, 30]);
    assert_eq!(store.range(&10, &30, 0, usize::MAX).unwrap(), vec![20]);
    assert_eq!(store.count(&10, &30).unwrap(), 1);
    assert_eq!(store.first(&10, &30).unwrap(), Some(20));
    assert_eq!(store.last(&10, &30).unwrap(), Some(20));
    assert_eq!(store.count(&9, &31).unwrap(), 3);
    assert_eq!(store.count(&20, &30).unwrap(), 0);
}

#[test]
fn a_range_that_is_empty_or_reversed_holds_nothing() {
    let mut store = store_of(&[10, 20, 30]);
    for (l, r) in [(20u64, 20u64), (30, 10), (u64::MAX, 0), (20, 21), (31, 100)] {
        assert_eq!(store.count(&l, &r).unwrap(), 0);
        assert_eq!(store.range(&l, &r, 0, usize::MAX).unwrap(), Vec::<u64>::new());
        assert_eq!(store.first(&l, &r).unwrap(), None);
        assert_eq!(store.last(&l, &r).unwrap(), None);
        assert_eq!(store.first_and_last(&l, &r).unwrap(), None);
        assert_eq!(store.middle(&l, &r).unwrap(), None);
        let hc = store.hash_range(&l, &r).unwrap();
        assert_eq!(hc.count, 0);
        assert_eq!(hc.hash, KeySum::identity());
    }
}

#[test]
fn hash_range_sums_the_keys_in_range() {
    let mut store = store_of(&[1, 2, 3, 4, 5]);
    let hc = store.hash_range(&1, &5).unwrap();
    assert_eq!(hc.count, 3);
    assert_eq!(hc.hash, KeySum { sum: 9 });
    let all = store.hash_range(&0, &u64::MAX).unwrap();
    assert_eq!(all.count, 5);
    assert_eq!(all.hash, KeySum { sum: 15 });
}

#[test]
fn hash_of_adjacent_ranges_combines_to_the_hash_of_the_whole() {
    let mut store = store_of(&[1, 2, 3, 4, 5, 6]);
    let left = store.hash_range(&0, &4).unwrap();
    let right = store.hash_range(&3, &7).unwrap();
    let whole = store.hash_range(&0, &7).unwrap();
    assert_eq!(left.hash.combine(&right.hash), whole.hash);
    assert_eq!(left.count + right.count, whole.count);
}

#[test]
fn range_skips_the_offset_and_stops_at_the_limit() {
    let mut store = store_of(&[10, 20, 30, 40, 50]);
    let (l, r) = (0u64, 100u64);
    assert_eq!(store.range(&l, &r, 0, 2).unwrap(), vec![10, 20]);
    assert_eq!(store.range(&l, &r, 2, 2).unwrap(), vec![30, 40]);
    assert_eq!(store.range(&l, &r, 4, 2).unwrap(), vec![50]);
    assert_eq!(store.range(&l, &r, 5, 2).unwrap(), Vec::<u64>::new());
    assert_eq!(store.range(&l, &r, 6, 2).unwrap(), Vec::<u64>::new());
    assert_eq!(store.range(&l, &r, usize::MAX, usize::MAX).unwrap(), Vec::<u64>::new());
    assert_eq!(store.range(&l, &r, 1, 0).unwrap(), Vec::<u64>::new());
    assert_eq!(store.range(&l, &r, 1, usize::MAX).unwrap(), vec![20, 30, 40, 50]);
    assert_eq!(store.range(&15, &45, 1, 5).unwrap(), vec![30, 40]);
}

#[test]
fn pages_in_sequence_make_up_the_range() {
    let keys: Vec<u64> = (1..=23).map(|k| k * 3).collect();
    let mut store = store_of(&keys);
    let (l, r) = (10u64, 60u64);
    let whole: Vec<u64> = store
        .full_range()
        .unwrap()
        .into_iter()
        .filter(|k| l < *k && *k < r)
        .collect();
    for size in 1..8usize {
        let mut swept = Vec::new();
        let mut offset = 0;
        loop {
            let part = store.range(&l, &r, offset, size).unwrap();
            if part.is_empty() {
                break;
            }
            offset += part.len();
            swept.extend(part);
        }
        assert_eq!(swept, whole);
    }
    assert_eq!(whole.len(), store.count(&l, &r).unwrap());
}

#[test]
fn middle_is_a_key_from_the_middle_of_the_range() {
    let mut store = store_of(&[10, 20, 30, 40, 50]);
    assert_eq!(store.middle(&0, &100).unwrap(), Some(30));
    assert_eq!(store.middle(&0, &45).unwrap(), Some(20));
    assert_eq!(store.middle(&25, &35).unwrap(), Some(30));
    assert_eq!(store.middle(&30, &40).unwrap(), None);
}

#[test]
fn first_and_last_are_the_two_single_answers() {
    let mut store = store_of(&[10, 20, 30, 40, 50]);
    for (l, r) in [(0u64, 100u64), (10, 50), (20, 30), (35, 45), (50, 10)] {
        let first = store.first(&l, &r).unwrap();
        let last = store.last(&l, &r).unwrap();
        let both = store.first_and_last(&l, &r).unwrap();
        assert_eq!(both, first.zip(last));
        assert_eq!(both.is_none(), first.is_none());
    }
    assert_eq!(store.first_and_last(&10, &50).unwrap(), Some((20, 40)));
    assert_eq!(store.first_and_last(&35, &45).unwrap(), Some((40, 40)));
}

#[test]
fn least_and_greatest_key_bound_all_others() {
    let lo = <u64 as Key>::min_value();
    let hi = <u64 as Key>::max_value();
    assert_eq!((lo, hi), (0, u64::MAX));
    let mut store = store_of(&[1, u64::MAX - 1]);
    assert_eq!(store.first_and_last(&lo, &hi).unwrap(), Some((1, u64::MAX - 1)));
}

#[test]
fn values_arrive_with_the_key_or_later_and_are_kept() {
    let mut store = Plain::new();
    assert!(store.insert(ReconItem::new(&1, Some(b"first".as_slice()))).unwrap());
    assert!(store.insert(ReconItem::new(&2, None)).unwrap());
    assert_eq!(store.value_for_key(&1).unwrap(), Some(b"first".to_vec()));
    assert_eq!(store.value_for_key(&2).unwrap(), None);
    assert_eq!(store.value_for_key(&3).unwrap(), None);

    assert!(!store.insert(ReconItem::new(&2, Some(b"late".as_slice()))).unwrap());
    assert_eq!(store.value_for_key(&2).unwrap(), Some(b"late".to_vec()));

    assert!(!store.insert(ReconItem::new(&1, Some(b"other".as_slice()))).unwrap());
    assert_eq!(store.value_for_key(&1).unwrap(), Some(b"first".to_vec()));
    assert!(!store.insert(ReconItem::new(&1, None)).unwrap());
    assert_eq!(store.value_for_key(&1).unwrap(), Some(b"first".to_vec()));

    assert!(store.insert(ReconItem::new(&4, Some(b"".as_slice()))).unwrap());
    assert_eq!(store.value_for_key(&4).unwrap(), Some(Vec::new()));
}

#[test]
fn range_with_values_leaves_out_keys_without_a_value() {
    let mut store = Plain::new();
    store.insert(ReconItem::new(&1, Some(b"a".as_slice()))).unwrap();
    store.insert(ReconItem::new(&2, None)).unwrap();
    store.insert(ReconItem::new(&3, Some(b"c".as_slice()))).unwrap();
    store.insert(ReconItem::new(&4, None)).unwrap();
    store.insert(ReconItem::new(&5, Some(b"e".as_slice()))).unwrap();

    let all = store.range_with_values(&0, &9, 0, usize::MAX).unwrap();
    assert_eq!(all, vec![(1, b"a".to_vec()), (3, b"c".to_vec()), (5, b"e".to_vec())]);
    let page = store.range_with_values(&0, &9, 1, 2).unwrap();
    assert_eq!(page, vec![(3, b"c".to_vec())]);
    assert_eq!(store.range(&0, &9, 1, 2).unwrap(), vec![2, 3]);
    let inner = store.range_with_values(&1, &5, 0, 10).unwrap();
    assert_eq!(inner, vec![(3, b"c".to_vec())]);
}

#[test]
fn keys_with_missing_values_are_those_inside_the_open_range() {
    let mut store = Plain::new();
    store.insert(ReconItem::new(&1, None)).unwrap();
    store.insert(ReconItem::new(&2, Some(b"b".as_slice()))).unwrap();
    store.insert(ReconItem::new(&3, None)).unwrap();
    store.insert(ReconItem::new(&4, None)).unwrap();
    store.insert(ReconItem::new(&5, None)).unwrap();

    let inside = store.keys_with_missing_values(RangeOpen { start: 1, end: 5 }).unwrap();
    assert_eq!(inside, vec![3, 4]);
    let all = store.keys_with_missing_values(RangeOpen { start: 0, end: 9 }).unwrap();
    assert_eq!(all, vec![1, 3, 4, 5]);
    let none = store.keys_with_missing_values(RangeOpen { start: 5, end: 1 }).unwrap();
    assert_eq!(none, Vec::<u64>::new());

    store.insert(ReconItem::new(&3, Some(b"c".as_slice()))).unwrap();
    let fewer = store.keys_with_missing_values(RangeOpen { start: 0, end: 9 }).unwrap();
    assert_eq!(fewer, vec![1, 4, 5]);
}

#[test]
fn insert_many_fills_in_values_and_reports_each_item() {
    let mut store = Plain::new();
    store.insert(ReconItem::new(&2, None)).unwrap();
    let batch = [
        ReconItem::new(&3, Some(b"c".as_slice())),
        ReconItem::new(&2, Some(b"b".as_slice())),
        ReconItem::new(&1, None),
        ReconItem::new(&3, None),
    ];
    let result = store.insert_many(&batch).unwrap();
    assert_eq!(result.keys, vec![true, false, true, false]);
    assert_eq!(store.full_range().unwrap(), vec![1, 2, 3]);
    assert_eq!(store.value_for_key(&2).unwrap(), Some(b"b".to_vec()));
    assert_eq!(store.value_for_key(&3).unwrap(), Some(b"c".to_vec()));
    assert_eq!(store.value_for_key(&1).unwrap(), None);
}

#[test]
fn an_empty_batch_changes_nothing() {
    let mut store = store_of(&[1]);
    let result = store.insert_many(&[]).unwrap();
    assert!(result.keys.is_empty());
    assert_eq!(store.len().unwrap(), 1);
}
