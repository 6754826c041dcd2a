//! The store's write path and its three read projections.

use telemetry::store::{Collector, DataPoint, Store};

const A: u128 = 0xaaaa_0000_0000_0000_0000_0000_0000_0001;
const B: u128 = 0xbbbb_0000_0000_0000_0000_0000_0000_0002;

fn point(id: u64, collector_id: u128, received: u64) -> DataPoint {
    DataPoint {
        id,
        collector_id,
        received,
        total_memory: 100,
        used_memory: 50,
        average_cpu_bits: 0,
    }
}

#[test]
fn inserts_append_in_order_with_one_based_keys() {
    let mut store = Store::new();
    assert!(store.insert_sample(A, 10, 100, 50, 0).is_ok());
    assert!(store.insert_sample(B, 11, 100, 50, 0).is_ok());
    assert!(store.insert_sample(A, 12, 100, 50, 0).is_ok());
    let all = store.list_all();
    assert_eq!(all, vec![point(1, A, 10), point(2, B, 11), point(3, A, 12)]);
}

#[test]
fn empty_store_lists_nothing() {
    let store = Store::new();
    assert!(store.list_all().is_empty());
    assert!(store.list_collectors().is_empty());
    assert!(store.list_by_collector(A).is_empty());
}

#[test]
fn ordering_per_collector_survives_interleaved_writers() {
    let mut store = Store::new();
    store.insert_sample(A, 10, 100, 50, 0).unwrap();
    store.insert_sample(B, 500, 100, 50, 0).unwrap();
    store.insert_sample(A, 20, 100, 50, 0).unwrap();
    store.insert_sample(B, 1, 100, 50, 0).unwrap();
    store.insert_sample(A, 30, 100, 50, 0).unwrap();
    let of_a = store.list_by_collector(A);
    assert_eq!(of_a, vec![point(1, A, 10), point(3, A, 20), point(5, A, 30)]);
}

#[test]
fn listing_sorts_ascending_by_arrival() {
    let mut store = Store::new();
    store.insert_sample(A, 300, 100, 50, 0).unwrap();
    store.insert_sample(A, 100, 100, 50, 0).unwrap();
    store.insert_sample(A, 200, 100, 50, 0).unwrap();
    let of_a = store.list_by_collector(A);
    assert_eq!(
        of_a,
        vec![point(2, A, 100), point(3, A, 200), point(1, A, 300)]
    );
}

#[test]
fn listing_is_stable_for_equal_arrivals() {
    let mut store = Store::new();
    store.insert_sample(A, 100, 1, 1, 0).unwrap();
    store.insert_sample(A, 100, 2, 2, 0).unwrap();
    let of_a = store.list_by_collector(A);
    assert_eq!(of_a.len(), 2);
    assert_eq!((of_a[0].id, of_a[0].total_memory), (1, 1));
    assert_eq!((of_a[1].id, of_a[1].total_memory), (2, 2));
}

#[test]
fn three_records_report_their_greatest_arrival() {
    let mut store = Store::new();
    store.insert_sample(A, 100, 100, 50, 0).unwrap();
    store.insert_sample(A, 300, 100, 50, 0).unwrap();
    store.insert_sample(A, 200, 100, 50, 0).unwrap();
    let collectors = store.list_collectors();
    assert_eq!(
        collectors,
        vec![Collector {
            id: 1,
            collector_id: A,
            last_seen: 300
        }]
    );
}

#[test]
fn one_entry_per_collector_in_first_seen_order() {
    let mut store = Store::new();
    store.insert_sample(B, 7, 100, 50, 0).unwrap();
    store.insert_sample(A, 9, 100, 50, 0).unwrap();
    store.insert_sample(B, 8, 100, 50, 0).unwrap();
    let collectors = store.list_collectors();
    assert_eq!(
        collectors,
        vec![
            Collector {
                id: 1,
                collector_id: B,
                last_seen: 8
            },
            Collector {
                id: 2,
                collector_id: A,
                last_seen: 9
            },
        ]
    );
}

#[test]
fn unknown_collector_lists_nothing() {
    let mut store = Store::new();
    store.insert_sample(A, 10, 100, 50, 0).unwrap();
    assert!(store.list_by_collector(B).is_empty());
}

#[test]
fn other_collectors_are_unaffected_by_unrelated_writes() {
    let mut store = Store::new();
    store.insert_sample(A, 10, 100, 50, 0).unwrap();
    let before = store.list_by_collector(A);
    store.insert_sample(B, 999, 100, 50, 0).unwrap();
    store.insert_sample(B, 1, 100, 50, 0).unwrap();
    assert_eq!(store.list_by_collector(A), before);
}
