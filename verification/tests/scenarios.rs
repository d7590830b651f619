use recon::hash::{AssociativeHash, KeySum};
use recon::key::Key;
use recon::memory::MemoryStore;
use recon::metrics::Metrics;
use recon::store::{ReconItem, Store};
use recon::store_metrics::StoreMetricsMiddleware;

const A: u64 = 10;
const B: u64 = 20;
const C: u64 = 30;

fn wrapped() -> StoreMetricsMiddleware<MemoryStore<u64, KeySum>> {
    StoreMetricsMiddleware::new(MemoryStore::new(), Metrics::new())
}

fn with_abc() -> StoreMetricsMiddleware<MemoryStore<u64, KeySum>> {
    let mut store = wrapped();
    for key in [A, B, C] {
        assert!(store.insert(ReconItem::new(&key, None)).unwrap());
    }
    store
}

fn names(store: &StoreMetricsMiddleware<MemoryStore<u64, KeySum>>) -> Vec<&'static str> {
    store.metrics().events().iter().map(|e| e.name).collect()
}

#[test]
fn three_keys_bounds_count_and_hash() {
    let mut store = with_abc();
    let lo = <u64 as Key>::min_value();
    let hi = <u64 as Key>::max_value();

    assert_eq!(store.first_and_last(&lo, &hi).unwrap(), Some((A, C)));
    assert_eq!(store.count(&lo, &hi).unwrap(), 3);

    let hc = store.hash_range(&lo, &hi).unwrap();
    assert_eq!(hc.count, 3);
    let (a, b, c) = (KeySum::digest(&A), KeySum::digest(&B), KeySum::digest(&C));
    let forward = a.combine(&b).combine(&c);
    let backward = c.combine(&b).combine(&a);
    assert_eq!(forward, backward);
    assert_eq!(hc.hash, forward);
    assert_eq!(hc.hash, KeySum { sum: 60 });
}

#[test]
fn second_key_of_three_is_the_page_at_offset_one() {
    let mut store = with_abc();
    let keys = store.range(&5, &35, 1, 1).unwrap();
    assert_eq!(keys, vec![B]);
}

#[test]
fn value_of_unknown_key_is_none_and_timed_once() {
    let mut store = wrapped();
    assert_eq!(store.value_for_key(&77).unwrap(), None);
    assert_eq!(names(&store), vec!["value_for_key"]);
}

#[test]
fn batch_with_one_duplicate_reports_two_new() {
    let mut store = wrapped();
    assert!(store.insert(ReconItem::new(&B, None)).unwrap());
    let before = store.metrics().events().len();

    let batch = [
        ReconItem::new(&A, None),
        ReconItem::new(&B, None),
        ReconItem::new(&C, None),
    ];
    let result = store.insert_many(&batch).unwrap();
    assert_eq!(result.keys, vec![true, false, true]);
    assert_eq!(result.keys.iter().filter(|fresh| **fresh).count(), 2);
    assert_eq!(result.keys.iter().filter(|fresh| !**fresh).count(), 1);

    let events = store.metrics().events();
    assert_eq!(events.len(), before + 1);
    assert_eq!(events[before].name, "insert_many");
    assert_eq!(store.full_range().unwrap(), vec![A, B, C]);
}

#[test]
fn batch_of_any_size_is_timed_once() {
    for size in [0u64, 1, 7, 100] {
        let mut store = wrapped();
        let keys: Vec<u64> = (1..=size).collect();
        let batch: Vec<ReconItem<u64>> = keys.iter().map(|k| ReconItem::new(k, None)).collect();
        let result = store.insert_many(&batch).unwrap();
        assert_eq!(result.keys.len(), size as usize);
        assert!(result.keys.iter().all(|fresh| *fresh));
        assert_eq!(names(&store), vec!["insert_many"]);
    }
}

#[test]
fn batch_repeating_its_own_key_counts_it_once() {
    let mut store = wrapped();
    let batch = [
        ReconItem::new(&A, None),
        ReconItem::new(&A, None),
        ReconItem::new(&B, None),
    ];
    let result = store.insert_many(&batch).unwrap();
    assert_eq!(result.keys, vec![true, false, true]);
    assert_eq!(store.len().unwrap(), 2);
}
