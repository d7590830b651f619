use recon::hash::KeySum;
use recon::memory::MemoryStore;
use recon::metrics::{Metrics, Operation};
use recon::store::{RangeOpen, ReconItem, Store};
use recon::store_metrics::StoreMetricsMiddleware;
use std::time::Duration;
use tokio::time::Instant;

type Plain = MemoryStore<u64, KeySum>;

fn filled<S: Store<Key = u64>>(mut store: S) -> S {
    let values: [&[u8]; 3] = [b"one", b"three", b"five"];
    store.insert(ReconItem::new(&1, Some(values[0]))).unwrap();
    store.insert(ReconItem::new(&2, None)).unwrap();
    store.insert(ReconItem::new(&3, Some(values[1]))).unwrap();
    store.insert(ReconItem::new(&4, None)).unwrap();
    store.insert(ReconItem::new(&5, Some(values[2]))).unwrap();
    store
}

#[test]
fn every_operation_answers_as_the_wrapped_store_does() {
    let mut plain = filled(Plain::new());
    let mut timed = filled(StoreMetricsMiddleware::new(Plain::new(), Metrics::new()));

    for (l, r) in [(0u64, u64::MAX), (1, 5), (2, 4), (3, 3), (5, 1), (0, 1), (5, 9)] {
        let (p, t) = (plain.hash_range(&l, &r).unwrap(), timed.hash_range(&l, &r).unwrap());
        assert_eq!((p.hash, p.count), (t.hash, t.count));
        assert_eq!(plain.count(&l, &r).unwrap(), timed.count(&l, &r).unwrap());
        assert_eq!(plain.first(&l, &r).unwrap(), timed.first(&l, &r).unwrap());
        assert_eq!(plain.last(&l, &r).unwrap(), timed.last(&l, &r).unwrap());
        assert_eq!(plain.middle(&l, &r).unwrap(), timed.middle(&l, &r).unwrap());
        assert_eq!(
            plain.first_and_last(&l, &r).unwrap(),
            timed.first_and_last(&l, &r).unwrap()
        );
        for (offset, limit) in [(0usize, usize::MAX), (0, 2), (1, 1), (2, 10), (9, 1), (0, 0)] {
            assert_eq!(
                plain.range(&l, &r, offset, limit).unwrap(),
                timed.range(&l, &r, offset, limit).unwrap()
            );
            assert_eq!(
                plain.range_with_values(&l, &r, offset, limit).unwrap(),
                timed.range_with_values(&l, &r, offset, limit).unwrap()
            );
        }
        assert_eq!(
            plain.keys_with_missing_values(RangeOpen { start: l, end: r }).unwrap(),
            timed.keys_with_missing_values(RangeOpen { start: l, end: r }).unwrap()
        );
    }
    assert_eq!(plain.full_range().unwrap(), timed.full_range().unwrap());
    assert_eq!(plain.len().unwrap(), timed.len().unwrap());
    assert_eq!(plain.is_empty().unwrap(), timed.is_empty().unwrap());
    for key in 0..7u64 {
        assert_eq!(plain.value_for_key(&key).unwrap(), timed.value_for_key(&key).unwrap());
        assert_eq!(
            plain.insert(ReconItem::new(&key, None)).unwrap(),
            timed.insert(ReconItem::new(&key, None)).unwrap()
        );
    }
    let batch = [ReconItem::new(&6, None), ReconItem::new(&8, None), ReconItem::new(&7, None)];
    assert_eq!(
        plain.insert_many(&batch).unwrap().keys,
        timed.insert_many(&batch).unwrap().keys
    );
    assert_eq!(plain.full_range().unwrap(), timed.full_range().unwrap());
}

#[test]
fn each_operation_is_timed_once_under_its_own_name() {
    let mut store = StoreMetricsMiddleware::new(Plain::new(), Metrics::new());
    let (l, r) = (0u64, 100u64);

    store.insert(ReconItem::new(&1, None)).unwrap();
    store.insert_many(&[ReconItem::new(&2, None)]).unwrap();
    store.hash_range(&l, &r).unwrap();
    store.range(&l, &r, 0, 10).unwrap();
    store.range_with_values(&l, &r, 0, 10).unwrap();
    store.full_range().unwrap();
    store.middle(&l, &r).unwrap();
    store.count(&l, &r).unwrap();
    store.first(&l, &r).unwrap();
    store.last(&l, &r).unwrap();
    store.first_and_last(&l, &r).unwrap();
    store.len().unwrap();
    store.is_empty().unwrap();
    store.value_for_key(&1).unwrap();
    store.keys_with_missing_values(RangeOpen { start: l, end: r }).unwrap();

    let names: Vec<&str> = store.metrics().events().iter().map(|e| e.name).collect();
    assert_eq!(
        names,
        vec![
            "insert",
            "insert_many",
            "hash_range",
            "range",
            "range_with_values",
            "full_range",
            "middle",
            "count",
            "first",
            "last",
            "first_and_last",
            "len",
            "is_empty",
            "value_for_key",
            "keys_with_missing_values",
        ]
    );
}

#[test]
fn events_follow_those_the_sink_already_held() {
    let mut metrics = Metrics::new();
    let start = Instant::now();
    StoreMetricsMiddleware::<Plain>::record(&mut metrics, Operation::Len, start, ());
    let mut store = StoreMetricsMiddleware::new(Plain::new(), metrics);
    store.is_empty().unwrap();
    let names: Vec<&str> = store.metrics().events().iter().map(|e| e.name).collect();
    assert_eq!(names, vec!["len", "is_empty"]);
}

#[test]
fn record_hands_back_a_failure_and_logs_one_event() {
    let mut metrics = Metrics::new();
    let failed: Result<bool, anyhow::Error> = Err(anyhow::Error::msg("medium unavailable"));
    let ret =
        StoreMetricsMiddleware::<Plain>::record(&mut metrics, Operation::Insert, Instant::now(), failed);
    assert_eq!(ret.unwrap_err().to_string(), "medium unavailable");
    assert_eq!(metrics.events().len(), 1);
    assert_eq!(metrics.events()[0].name, "insert");
}

#[test]
fn record_hands_back_a_success_untouched() {
    let mut metrics = Metrics::new();
    let ret = StoreMetricsMiddleware::<Plain>::record(
        &mut metrics,
        Operation::Range,
        Instant::now(),
        vec![3u64, 1, 2],
    );
    assert_eq!(ret, vec![3, 1, 2]);
    assert_eq!(metrics.events().len(), 1);
    assert_eq!(metrics.events()[0].name, "range");
}

#[test]
fn recorded_duration_covers_the_time_since_the_start() {
    let mut metrics = Metrics::new();
    let start = Instant::now();
    let wait = Duration::from_millis(3);
    while start.elapsed() < wait {}
    StoreMetricsMiddleware::<Plain>::record(&mut metrics, Operation::Count, start, ());
    let measured = metrics.events()[0].duration;
    assert!(measured >= wait);
    assert!(measured < Duration::from_secs(10));
}
