//! End-to-end ingestion scenarios and the collector-id text form.

use telemetry::codec::{encode_v1, CollectorCommandV1};
use telemetry::conn::{ingest, ConnectionStep};
use telemetry::store::Store;
use telemetry::uuid_text::{format_uuid, parse_uuid};

const SAMPLE_UUID: u128 = 0x11111111_1111_1111_1111_111111111111;

#[test]
fn one_message_lands_as_one_row_with_its_stamp() {
    let cmd = CollectorCommandV1::SubmitData {
        collector_id: SAMPLE_UUID,
        total_memory: 16_000_000_000,
        used_memory: 8_000_000_000,
        average_cpu_bits: 42.5f32.to_bits(),
    };
    let bytes = encode_v1(&cmd);
    let mut store = Store::new();
    let sent_at: u64 = 1_700_000_000;
    let step = ingest(&mut store, sent_at, &bytes);
    assert_eq!(step, ConnectionStep::Accepted { command: cmd });

    let rows = store.list_by_collector(SAMPLE_UUID);
    assert_eq!(rows.len(), 1);
    assert_eq!(rows[0].total_memory, 16_000_000_000);
    assert_eq!(rows[0].used_memory, 8_000_000_000);
    assert_eq!(f32::from_bits(rows[0].average_cpu_bits), 42.5);
    assert_eq!(rows[0].received, sent_at);

    let all = store.list_all();
    assert_eq!(all, rows);
    assert_eq!(
        String::from_utf8(format_uuid(SAMPLE_UUID)).unwrap(),
        "11111111-1111-1111-1111-111111111111"
    );
}

#[test]
fn zero_byte_connection_stores_nothing() {
    let mut store = Store::new();
    let step = ingest(&mut store, 123, &[]);
    assert_eq!(step, ConnectionStep::Closed);
    assert!(store.list_all().is_empty());
}

#[test]
fn rejected_read_stores_nothing() {
    let mut store = Store::new();
    let step = ingest(&mut store, 123, &[1, 2, 3]);
    assert!(matches!(step, ConnectionStep::Rejected { .. }));
    assert!(store.list_all().is_empty());
}

#[test]
fn reconnect_cycles_leave_other_collectors_alone() {
    let other: u128 = 42;
    let mut store = Store::new();
    let cmd = CollectorCommandV1::SubmitData {
        collector_id: other,
        total_memory: 1,
        used_memory: 1,
        average_cpu_bits: 0,
    };
    ingest(&mut store, 10, &encode_v1(&cmd));
    let before = store.list_by_collector(other);
    for _ in 0..5 {
        assert_eq!(ingest(&mut store, 11, &[]), ConnectionStep::Closed);
    }
    let noise = CollectorCommandV1::SubmitData {
        collector_id: SAMPLE_UUID,
        total_memory: 2,
        used_memory: 2,
        average_cpu_bits: 0,
    };
    ingest(&mut store, 12, &encode_v1(&noise));
    assert_eq!(store.list_by_collector(other), before);
}

#[test]
fn uuid_text_renders_lowercase_hyphenated() {
    assert_eq!(
        String::from_utf8(format_uuid(0)).unwrap(),
        "00000000-0000-0000-0000-000000000000"
    );
    assert_eq!(
        String::from_utf8(format_uuid(0x01234567_89ab_cdef_0f1e_2d3c4b5a6978)).unwrap(),
        "01234567-89ab-cdef-0f1e-2d3c4b5a6978"
    );
    assert_eq!(
        String::from_utf8(format_uuid(u128::MAX)).unwrap(),
        "ffffffff-ffff-ffff-ffff-ffffffffffff"
    );
}

#[test]
fn uuid_text_parses_back_to_the_same_value() {
    for id in [0u128, 7, SAMPLE_UUID, 0x01234567_89ab_cdef_0f1e_2d3c4b5a6978, u128::MAX] {
        assert_eq!(parse_uuid(&format_uuid(id)), Some(id));
    }
    assert_eq!(
        parse_uuid(b"01234567-89ab-cdef-0f1e-2d3c4b5a6978"),
        Some(0x01234567_89ab_cdef_0f1e_2d3c4b5a6978)
    );
}

#[test]
fn non_canonical_uuid_text_is_refused() {
    assert_eq!(parse_uuid(b""), None);
    assert_eq!(parse_uuid(b"11111111-1111-1111-1111-11111111111"), None);
    assert_eq!(parse_uuid(b"11111111-1111-1111-1111-1111111111111"), None);
    assert_eq!(parse_uuid(b"11111111x1111-1111-1111-111111111111"), None);
    assert_eq!(parse_uuid(b"1111111g-1111-1111-1111-111111111111"), None);
    assert_eq!(parse_uuid(b"11111111-1111-1111-1111-11111111111G"), None);
    assert_eq!(parse_uuid(b"ABCDEF11-1111-1111-1111-111111111111"), None);
}
