//! Wire codec for the collector protocol.
//!
//! A message is a self-describing binary record: a one-byte command tag
//! followed by a tag-specific fixed-size payload. The single defined command,
//! `SubmitData`, carries a 16-byte collector identifier, two 8-byte unsigned
//! memory values and a 4-byte average-CPU value, all big-endian, 37 bytes in
//! all. The buffer must be exactly that long: the decoder tolerates neither
//! trailing nor missing bytes.

use vstd::prelude::*;

verus! {

/// Command tag identifying a version-1 `SubmitData` message.
pub const TAG_SUBMIT_DATA_V1: u8 = 1;

/// Exact wire size of a version-1 `SubmitData` message: a tag byte, a 16-byte
/// collector id, two 8-byte memory values and a 4-byte CPU value.
pub const SUBMIT_DATA_V1_LEN: usize = 37;

/// A decoded protocol command, keyed on the leading tag byte.
///
/// The average-CPU field travels as the raw bits of an IEEE-754 single; the
/// codec neither inspects nor computes with them, so they are carried as a
/// plain 32-bit word and turned back into a float only at the service edge.
#[derive(Clone, Copy, Debug, PartialEq, Eq, Structural)]
pub enum CollectorCommandV1 {
    SubmitData {
        collector_id: u128,
        total_memory: u64,
        used_memory: u64,
        average_cpu_bits: u32,
    },
}

/// Why a buffer failed to decode.
#[derive(Clone, Copy, Debug, PartialEq, Eq, Structural)]
pub enum ProtocolDecodeError {
    /// The read produced bytes, but not even a tag byte survived framing.
    EmptyBuffer,
    /// The leading tag byte names no known command.
    UnknownTag { tag: u8 },
    /// The buffer is shorter or longer than the tag's fixed message size.
    WrongLength { expected: usize, actual: usize },
}

/// The big-endian bytes of a 32-bit word, most significant first.
pub open spec fn spec_u32_to_be(x: u32) -> Seq<u8> {
    seq![
        ((x >> 24) & 0xff) as u8,
        ((x >> 16) & 0xff) as u8,
        ((x >> 8) & 0xff) as u8,
        (x & 0xff) as u8,
    ]
}

/// The 32-bit word read from four big-endian bytes.
pub open spec fn spec_u32_from_be(s: Seq<u8>) -> u32
    recommends
        s.len() == 4,
{
    ((s[0] as u32) << 24) | ((s[1] as u32) << 16) | ((s[2] as u32) << 8) | (s[3] as u32)
}

/// The big-endian bytes of a 64-bit word, most significant first.
pub open spec fn spec_u64_to_be(x: u64) -> Seq<u8> {
    seq![
        ((x >> 56) & 0xff) as u8,
        ((x >> 48) & 0xff) as u8,
        ((x >> 40) & 0xff) as u8,
        ((x >> 32) & 0xff) as u8,
        ((x >> 24) & 0xff) as u8,
        ((x >> 16) & 0xff) as u8,
        ((x >> 8) & 0xff) as u8,
        (x & 0xff) as u8,
    ]
}

/// The 64-bit word read from eight big-endian bytes.
pub open spec fn spec_u64_from_be(s: Seq<u8>) -> u64
    recommends
        s.len() == 8,
{
    ((s[0] as u64) << 56) | ((s[1] as u64) << 48) | ((s[2] as u64) << 40)
        | ((s[3] as u64) << 32) | ((s[4] as u64) << 24) | ((s[5] as u64) << 16)
        | ((s[6] as u64) << 8) | (s[7] as u64)
}

/// The big-endian bytes of a 128-bit word, most significant first.
pub open spec fn spec_u128_to_be(x: u128) -> Seq<u8> {
    seq![
        ((x >> 120) & 0xff) as u8,
        ((x >> 112) & 0xff) as u8,
        ((x >> 104) & 0xff) as u8,
        ((x >> 96) & 0xff) as u8,
        ((x >> 88) & 0xff) as u8,
        ((x >> 80) & 0xff) as u8,
        ((x >> 72) & 0xff) as u8,
        ((x >> 64) & 0xff) as u8,
        ((x >> 56) & 0xff) as u8,
        ((x >> 48) & 0xff) as u8,
        ((x >> 40) & 0xff) as u8,
        ((x >> 32) & 0xff) as u8,
        ((x >> 24) & 0xff) as u8,
        ((x >> 16) & 0xff) as u8,
        ((x >> 8) & 0xff) as u8,
        (x & 0xff) as u8,
    ]
}

/// The 128-bit word read from sixteen big-endian bytes.
pub open spec fn spec_u128_from_be(s: Seq<u8>) -> u128
    recommends
        s.len() == 16,
{
    ((s[0] as u128) << 120) | ((s[1] as u128) << 112) | ((s[2] as u128) << 104)
        | ((s[3] as u128) << 96) | ((s[4] as u128) << 88) | ((s[5] as u128) << 80)
        | ((s[6] as u128) << 72) | ((s[7] as u128) << 64) | ((s[8] as u128) << 56)
        | ((s[9] as u128) << 48) | ((s[10] as u128) << 40) | ((s[11] as u128) << 32)
        | ((s[12] as u128) << 24) | ((s[13] as u128) << 16) | ((s[14] as u128) << 8)
        | (s[15] as u128)
}

/// Reading back the big-endian bytes of a 32-bit word gives the word.
pub proof fn lemma_u32_be_round_trip(x: u32)
    ensures
        spec_u32_from_be(spec_u32_to_be(x)) == x,
{
    assert(((((x >> 24) & 0xff) as u8) as u32) << 24
        | ((((x >> 16) & 0xff) as u8) as u32) << 16
        | ((((x >> 8) & 0xff) as u8) as u32) << 8
        | (((x & 0xff) as u8) as u32) == x) by (bit_vector);
}

/// Reading back the big-endian bytes of a 64-bit word gives the word.
pub proof fn lemma_u64_be_round_trip(x: u64)
    ensures
        spec_u64_from_be(spec_u64_to_be(x)) == x,
{
    assert(((((x >> 56) & 0xff) as u8) as u64) << 56
        | ((((x >> 48) & 0xff) as u8) as u64) << 48
        | ((((x >> 40) & 0xff) as u8) as u64) << 40
        | ((((x >> 32) & 0xff) as u8) as u64) << 32
        | ((((x >> 24) & 0xff) as u8) as u64) << 24
        | ((((x >> 16) & 0xff) as u8) as u64) << 16
        | ((((x >> 8) & 0xff) as u8) as u64) << 8
        | (((x & 0xff) as u8) as u64) == x) by (bit_vector);
}

/// Reading back the big-endian bytes of a 128-bit word gives the word.
pub proof fn lemma_u128_be_round_trip(x: u128)
    ensures
        spec_u128_from_be(spec_u128_to_be(x)) == x,
{
    assert(((((x >> 120) & 0xff) as u8) as u128) << 120
        | ((((x >> 112) & 0xff) as u8) as u128) << 112
        | ((((x >> 104) & 0xff) as u8) as u128) << 104
        | ((((x >> 96) & 0xff) as u8) as u128) << 96
        | ((((x >> 88) & 0xff) as u8) as u128) << 88
        | ((((x >> 80) & 0xff) as u8) as u128) << 80
        | ((((x >> 72) & 0xff) as u8) as u128) << 72
        | ((((x >> 64) & 0xff) as u8) as u128) << 64
        | ((((x >> 56) & 0xff) as u8) as u128) << 56
        | ((((x >> 48) & 0xff) as u8) as u128) << 48
        | ((((x >> 40) & 0xff) as u8) as u128) << 40
        | ((((x >> 32) & 0xff) as u8) as u128) << 32
        | ((((x >> 24) & 0xff) as u8) as u128) << 24
        | ((((x >> 16) & 0xff) as u8) as u128) << 16
        | ((((x >> 8) & 0xff) as u8) as u128) << 8
        | (((x & 0xff) as u8) as u128) == x) by (bit_vector);
}

/// The exact byte image of a command on the wire.
pub open spec fn spec_encode_v1(cmd: CollectorCommandV1) -> Seq<u8> {
    match cmd {
        CollectorCommandV1::SubmitData {
            collector_id,
            total_memory,
            used_memory,
            average_cpu_bits,
        } => seq![TAG_SUBMIT_DATA_V1] + spec_u128_to_be(collector_id)
            + spec_u64_to_be(total_memory) + spec_u64_to_be(used_memory)
            + spec_u32_to_be(average_cpu_bits),
    }
}

/// What decoding a buffer yields: the command, or the exact reason it is
/// rejected. A buffer decodes successfully if and only if it is exactly one
/// well-formed message.
pub open spec fn spec_decode_v1(s: Seq<u8>) -> Result<CollectorCommandV1, ProtocolDecodeError> {
    if s.len() == 0 {
        Err(ProtocolDecodeError::EmptyBuffer)
    } else if s[0] != TAG_SUBMIT_DATA_V1 {
        Err(ProtocolDecodeError::UnknownTag { tag: s[0] })
    } else if s.len() != SUBMIT_DATA_V1_LEN {
        Err(ProtocolDecodeError::WrongLength {
            expected: SUBMIT_DATA_V1_LEN,
            actual: s.len() as usize,
        })
    } else {
        Ok(CollectorCommandV1::SubmitData {
            collector_id: spec_u128_from_be(s.subrange(1, 17)),
            total_memory: spec_u64_from_be(s.subrange(17, 25)),
            used_memory: spec_u64_from_be(s.subrange(25, 33)),
            average_cpu_bits: spec_u32_from_be(s.subrange(33, 37)),
        })
    }
}

/// Appends the big-endian bytes of a 32-bit word.
fn push_u32_be(out: &mut Vec<u8>, x: u32)
    ensures
        final(out)@ == old(out)@ + spec_u32_to_be(x),
{
    out.push(((x >> 24) & 0xff) as u8);
    out.push(((x >> 16) & 0xff) as u8);
    out.push(((x >> 8) & 0xff) as u8);
    out.push((x & 0xff) as u8);
    proof {
        assert(out@ =~= old(out)@ + spec_u32_to_be(x));
    }
}

/// Appends the big-endian bytes of a 64-bit word.
fn push_u64_be(out: &mut Vec<u8>, x: u64)
    ensures
        final(out)@ == old(out)@ + spec_u64_to_be(x),
{
    out.push(((x >> 56) & 0xff) as u8);
    out.push(((x >> 48) & 0xff) as u8);
    out.push(((x >> 40) & 0xff) as u8);
    out.push(((x >> 32) & 0xff) as u8);
    out.push(((x >> 24) & 0xff) as u8);
    out.push(((x >> 16) & 0xff) as u8);
    out.push(((x >> 8) & 0xff) as u8);
    out.push((x & 0xff) as u8);
    proof {
        assert(out@ =~= old(out)@ + spec_u64_to_be(x));
    }
}

/// Appends the big-endian bytes of a 128-bit word.
fn push_u128_be(out: &mut Vec<u8>, x: u128)
    ensures
        final(out)@ == old(out)@ + spec_u128_to_be(x),
{
    out.push(((x >> 120) & 0xff) as u8);
    out.push(((x >> 112) & 0xff) as u8);
    out.push(((x >> 104) & 0xff) as u8);
    out.push(((x >> 96) & 0xff) as u8);
    out.push(((x >> 88) & 0xff) as u8);
    out.push(((x >> 80) & 0xff) as u8);
    out.push(((x >> 72) & 0xff) as u8);
    out.push(((x >> 64) & 0xff) as u8);
    out.push(((x >> 56) & 0xff) as u8);
    out.push(((x >> 48) & 0xff) as u8);
    out.push(((x >> 40) & 0xff) as u8);
    out.push(((x >> 32) & 0xff) as u8);
    out.push(((x >> 24) & 0xff) as u8);
    out.push(((x >> 16) & 0xff) as u8);
    out.push(((x >> 8) & 0xff) as u8);
    out.push((x & 0xff) as u8);
    proof {
        assert(out@ =~= old(out)@ + spec_u128_to_be(x));
    }
}

/// Reads a big-endian 32-bit word at `offset`.
fn read_u32_be(buf: &[u8], offset: usize) -> (x: u32)
    requires
        offset + 4 <= buf@.len(),
    ensures
        x == spec_u32_from_be(buf@.subrange(offset as int, offset as int + 4)),
{
    let x = ((buf[offset] as u32) << 24) | ((buf[offset + 1] as u32) << 16)
        | ((buf[offset + 2] as u32) << 8) | (buf[offset + 3] as u32);
    proof {
        let s = buf@.subrange(offset as int, offset as int + 4);
        assert(x == spec_u32_from_be(s));
    }
    x
}

/// Reads a big-endian 64-bit word at `offset`.
fn read_u64_be(buf: &[u8], offset: usize) -> (x: u64)
    requires
        offset + 8 <= buf@.len(),
    ensures
        x == spec_u64_from_be(buf@.subrange(offset as int, offset as int + 8)),
{
    let x = ((buf[offset] as u64) << 56) | ((buf[offset + 1] as u64) << 48)
        | ((buf[offset + 2] as u64) << 40) | ((buf[offset + 3] as u64) << 32)
        | ((buf[offset + 4] as u64) << 24) | ((buf[offset + 5] as u64) << 16)
        | ((buf[offset + 6] as u64) << 8) | (buf[offset + 7] as u64);
    proof {
        let s = buf@.subrange(offset as int, offset as int + 8);
        assert(x == spec_u64_from_be(s));
    }
    x
}

/// Reads a big-endian 128-bit word at `offset`.
pub(crate) fn read_u128_be(buf: &[u8], offset: usize) -> (x: u128)
    requires
        offset + 16 <= buf@.len(),
    ensures
        x == spec_u128_from_be(buf@.subrange(offset as int, offset as int + 16)),
{
    let x = ((buf[offset] as u128) << 120) | ((buf[offset + 1] as u128) << 112)
        | ((buf[offset + 2] as u128) << 104) | ((buf[offset + 3] as u128) << 96)
        | ((buf[offset + 4] as u128) << 88) | ((buf[offset + 5] as u128) << 80)
        | ((buf[offset + 6] as u128) << 72) | ((buf[offset + 7] as u128) << 64)
        | ((buf[offset + 8] as u128) << 56) | ((buf[offset + 9] as u128) << 48)
        | ((buf[offset + 10] as u128) << 40) | ((buf[offset + 11] as u128) << 32)
        | ((buf[offset + 12] as u128) << 24) | ((buf[offset + 13] as u128) << 16)
        | ((buf[offset + 14] as u128) << 8) | (buf[offset + 15] as u128);
    proof {
        let s = buf@.subrange(offset as int, offset as int + 16);
        assert(x == spec_u128_from_be(s));
    }
    x
}

/// Encodes a command into its exact wire image.
pub fn encode_v1(cmd: &CollectorCommandV1) -> (r: Vec<u8>)
    ensures
        r@ == spec_encode_v1(*cmd),
        r@.len() == SUBMIT_DATA_V1_LEN,
{
    match cmd {
        CollectorCommandV1::SubmitData {
            collector_id,
            total_memory,
            used_memory,
            average_cpu_bits,
        } => {
            let mut out: Vec<u8> = Vec::new();
            out.push(TAG_SUBMIT_DATA_V1);
            push_u128_be(&mut out, *collector_id);
            push_u64_be(&mut out, *total_memory);
            push_u64_be(&mut out, *used_memory);
            push_u32_be(&mut out, *average_cpu_bits);
            proof {
                assert(out@ =~= spec_encode_v1(*cmd));
            }
            out
        },
    }
}

/// Decodes one buffer into a typed command.
///
/// Succeeds exactly on buffers that are one well-formed message: a known tag
/// byte followed by the tag's full fixed-size payload, nothing more. Any
/// shorter, longer or unknown-tag buffer is rejected with the reason.
pub fn decode_v1(buf: &[u8]) -> (r: Result<CollectorCommandV1, ProtocolDecodeError>)
    ensures
        r == spec_decode_v1(buf@),
{
    if buf.len() == 0 {
        return Err(ProtocolDecodeError::EmptyBuffer);
    }
    let tag = buf[0];
    if tag != TAG_SUBMIT_DATA_V1 {
        return Err(ProtocolDecodeError::UnknownTag { tag });
    }
    if buf.len() != SUBMIT_DATA_V1_LEN {
        return Err(ProtocolDecodeError::WrongLength {
            expected: SUBMIT_DATA_V1_LEN,
            actual: buf.len(),
        });
    }
    let collector_id = read_u128_be(buf, 1);
    let total_memory = read_u64_be(buf, 17);
    let used_memory = read_u64_be(buf, 25);
    let average_cpu_bits = read_u32_be(buf, 33);
    Ok(CollectorCommandV1::SubmitData {
        collector_id,
        total_memory,
        used_memory,
        average_cpu_bits,
    })
}

/// Law: decoding an encoded command yields the command back unchanged.
/// The arrival timestamp is no part of the image: the server stamps receipt.
pub proof fn lemma_encode_decode_round_trip(cmd: CollectorCommandV1)
    ensures
        spec_decode_v1(spec_encode_v1(cmd)) == Ok::<CollectorCommandV1, ProtocolDecodeError>(cmd),
{
    match cmd {
        CollectorCommandV1::SubmitData {
            collector_id,
            total_memory,
            used_memory,
            average_cpu_bits,
        } => {
            let s = spec_encode_v1(cmd);
            assert(s.len() == 37);
            assert(s[0] == TAG_SUBMIT_DATA_V1);
            assert(s.subrange(1, 17) =~= spec_u128_to_be(collector_id));
            assert(s.subrange(17, 25) =~= spec_u64_to_be(total_memory));
            assert(s.subrange(25, 33) =~= spec_u64_to_be(used_memory));
            assert(s.subrange(33, 37) =~= spec_u32_to_be(average_cpu_bits));
            lemma_u128_be_round_trip(collector_id);
            lemma_u64_be_round_trip(total_memory);
            lemma_u64_be_round_trip(used_memory);
            lemma_u32_be_round_trip(average_cpu_bits);
        },
    }
}

/// Law: a buffer shorter than a full `SubmitData` message never decodes,
/// whatever its contents; truncation is always an error, never a partial read.
pub proof fn lemma_truncated_rejected(s: Seq<u8>)
    requires
        s.len() < SUBMIT_DATA_V1_LEN,
    ensures
        spec_decode_v1(s) is Err,
{
}

} // verus!
