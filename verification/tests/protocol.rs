//! The wire codec and the per-read connection decisions, exercised on
//! concrete messages.

use telemetry::codec::{decode_v1, encode_v1, CollectorCommandV1, ProtocolDecodeError};
use telemetry::conn::{handle_read, ConnectionStep};

const SAMPLE_UUID: u128 = 0x11111111_1111_1111_1111_111111111111;

fn sample_command() -> CollectorCommandV1 {
    CollectorCommandV1::SubmitData {
        collector_id: SAMPLE_UUID,
        total_memory: 16_000_000_000,
        used_memory: 8_000_000_000,
        average_cpu_bits: 42.5f32.to_bits(),
    }
}

#[test]
fn round_trip_preserves_every_field() {
    let cmd = sample_command();
    let bytes = encode_v1(&cmd);
    assert_eq!(decode_v1(&bytes), Ok(cmd));
}

#[test]
fn round_trip_arbitrary_values() {
    let cases = [
        (0u128, 0u64, 0u64, 0.0f32),
        (u128::MAX, u64::MAX, u64::MAX, f32::MAX),
        (0x0123_4567_89ab_cdef_0123_4567_89ab_cdef, 1, 2, -1.25),
        (7, 1024, 512, 99.875),
    ];
    for (collector_id, total_memory, used_memory, cpu) in cases {
        let cmd = CollectorCommandV1::SubmitData {
            collector_id,
            total_memory,
            used_memory,
            average_cpu_bits: cpu.to_bits(),
        };
        let bytes = encode_v1(&cmd);
        assert_eq!(bytes.len(), 37);
        let decoded = decode_v1(&bytes).expect("a full message decodes");
        assert_eq!(decoded, cmd);
        let CollectorCommandV1::SubmitData { average_cpu_bits, .. } = decoded;
        assert_eq!(f32::from_bits(average_cpu_bits), cpu);
    }
}

#[test]
fn encoding_is_the_documented_byte_layout() {
    let bytes = encode_v1(&sample_command());
    let mut expected = vec![1u8];
    expected.extend_from_slice(&SAMPLE_UUID.to_be_bytes());
    expected.extend_from_slice(&16_000_000_000u64.to_be_bytes());
    expected.extend_from_slice(&8_000_000_000u64.to_be_bytes());
    expected.extend_from_slice(&42.5f32.to_bits().to_be_bytes());
    assert_eq!(bytes, expected);
}

#[test]
fn truncated_buffers_never_decode() {
    let bytes = encode_v1(&sample_command());
    for n in 0..37 {
        assert!(decode_v1(&bytes[..n]).is_err());
    }
}

#[test]
fn empty_buffer_is_its_own_error() {
    assert_eq!(decode_v1(&[]), Err(ProtocolDecodeError::EmptyBuffer));
}

#[test]
fn unknown_tag_is_rejected_with_the_tag() {
    let mut bytes = encode_v1(&sample_command());
    bytes[0] = 2;
    assert_eq!(
        decode_v1(&bytes),
        Err(ProtocolDecodeError::UnknownTag { tag: 2 })
    );
}

#[test]
fn wrong_length_reports_expected_and_actual() {
    let bytes = encode_v1(&sample_command());
    assert_eq!(
        decode_v1(&bytes[..10]),
        Err(ProtocolDecodeError::WrongLength {
            expected: 37,
            actual: 10
        })
    );
    let mut long = bytes.clone();
    long.push(0);
    assert_eq!(
        decode_v1(&long),
        Err(ProtocolDecodeError::WrongLength {
            expected: 37,
            actual: 38
        })
    );
}

#[test]
fn tag_is_judged_before_length() {
    assert_eq!(decode_v1(&[9]), Err(ProtocolDecodeError::UnknownTag { tag: 9 }));
    assert_eq!(
        decode_v1(&[1]),
        Err(ProtocolDecodeError::WrongLength {
            expected: 37,
            actual: 1
        })
    );
}

#[test]
fn zero_length_read_closes_cleanly() {
    assert_eq!(handle_read(&[]), ConnectionStep::Closed);
}

#[test]
fn good_read_is_accepted_bad_read_is_rejected() {
    let cmd = sample_command();
    let bytes = encode_v1(&cmd);
    assert_eq!(handle_read(&bytes), ConnectionStep::Accepted { command: cmd });
    assert_eq!(
        handle_read(&bytes[..5]),
        ConnectionStep::Rejected {
            error: ProtocolDecodeError::WrongLength {
                expected: 37,
                actual: 5
            }
        }
    );
}
