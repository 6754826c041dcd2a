//! The textual form of a collector identifier.
//!
//! A collector identifies itself with a 16-byte UUID; the query surface and
//! the stored rows name it by the canonical text form: 32 lowercase hex
//! characters in wire-byte order, hyphen-separated 8-4-4-4-12, 36 characters
//! in all. This module renders and parses that form against the 128-bit
//! value the library computes with.

use crate::codec;
use vstd::prelude::*;

verus! {

/// ASCII hyphen, the group separator of the canonical form.
pub const HYPHEN: u8 = 45;

/// ASCII code of the lowercase hex character of a nibble.
pub open spec fn spec_hex_digit(n: u8) -> u8
    recommends
        n < 16,
{
    if n < 10 {
        (48 + n) as u8
    } else {
        (87 + n) as u8
    }
}

/// The two lowercase hex characters of one byte, high nibble first.
pub open spec fn spec_hex_byte(b: u8) -> Seq<u8> {
    seq![spec_hex_digit(b >> 4), spec_hex_digit(b & 0xf)]
}

/// The canonical text of an identifier: its sixteen big-endian bytes in hex,
/// grouped 4-2-2-2-6 bytes with hyphens between the groups.
pub open spec fn spec_uuid_text(id: u128) -> Seq<u8> {
    let b = codec::spec_u128_to_be(id);
    spec_hex_byte(b[0]) + spec_hex_byte(b[1]) + spec_hex_byte(b[2]) + spec_hex_byte(b[3])
        + seq![HYPHEN] + spec_hex_byte(b[4]) + spec_hex_byte(b[5]) + seq![HYPHEN]
        + spec_hex_byte(b[6]) + spec_hex_byte(b[7]) + seq![HYPHEN] + spec_hex_byte(b[8])
        + spec_hex_byte(b[9]) + seq![HYPHEN] + spec_hex_byte(b[10]) + spec_hex_byte(b[11])
        + spec_hex_byte(b[12]) + spec_hex_byte(b[13]) + spec_hex_byte(b[14]) + spec_hex_byte(b[15])
}

/// A lowercase hex character.
pub open spec fn spec_is_hex_char(c: u8) -> bool {
    (48 <= c && c <= 57) || (97 <= c && c <= 102)
}

/// The nibble a hex character stands for.
pub open spec fn spec_hex_val(c: u8) -> u8
    recommends
        spec_is_hex_char(c),
{
    if c < 58 {
        (c - 48) as u8
    } else {
        (c - 87) as u8
    }
}

/// Well-formed canonical text: exactly 36 characters, hyphens at the four
/// fixed positions, lowercase hex everywhere else.
pub open spec fn spec_uuid_text_valid(s: Seq<u8>) -> bool {
    &&& s.len() == 36
    &&& s[8] == HYPHEN
    &&& s[13] == HYPHEN
    &&& s[18] == HYPHEN
    &&& s[23] == HYPHEN
    &&& forall|k: int| 0 <= k < 8 ==> spec_is_hex_char(s[k])
    &&& forall|k: int| 9 <= k < 13 ==> spec_is_hex_char(s[k])
    &&& forall|k: int| 14 <= k < 18 ==> spec_is_hex_char(s[k])
    &&& forall|k: int| 19 <= k < 23 ==> spec_is_hex_char(s[k])
    &&& forall|k: int| 24 <= k < 36 ==> spec_is_hex_char(s[k])
}

/// Where the two characters of byte `k` sit in the canonical text.
pub open spec fn spec_byte_pos(k: int) -> int {
    2 * k + if k < 4 {
        0int
    } else if k < 6 {
        1int
    } else if k < 8 {
        2int
    } else if k < 10 {
        3int
    } else {
        4int
    }
}

/// The byte encoded at index `k` of well-formed text.
pub open spec fn spec_text_byte(s: Seq<u8>, k: int) -> u8
    recommends
        spec_uuid_text_valid(s),
        0 <= k < 16,
{
    (spec_hex_val(s[spec_byte_pos(k)]) * 16 + spec_hex_val(s[spec_byte_pos(k) + 1])) as u8
}

/// What parsing yields: the identifier whose big-endian bytes the text
/// spells, or nothing if the text is not canonical.
pub open spec fn spec_parse_uuid(s: Seq<u8>) -> Option<u128> {
    if spec_uuid_text_valid(s) {
        Some(codec::spec_u128_from_be(Seq::new(16, |k: int| spec_text_byte(s, k))))
    } else {
        None
    }
}

/// A nibble is below 16, and the two nibbles of a byte reassemble it.
proof fn lemma_nibbles(b: u8)
    ensures
        b >> 4 < 16,
        b & 0xf < 16,
        (b >> 4) * 16 + (b & 0xf) == b,
{
    assert(b >> 4 < 16 && b & 0xf < 16 && (b >> 4) * 16 + (b & 0xf) == b) by (bit_vector);
}

/// Law: rendering an identifier and parsing the text back yields the same
/// identifier — the canonical text names exactly one collector.
pub proof fn lemma_uuid_text_round_trip(id: u128)
    ensures
        spec_parse_uuid(spec_uuid_text(id)) == Some(id),
{
    let b = codec::spec_u128_to_be(id);
    let s = spec_uuid_text(id);
    assert forall|n: u8| n < 16 implies #[trigger] spec_is_hex_char(spec_hex_digit(n)) by {}
    assert forall|n: u8| n < 16 implies #[trigger] spec_hex_val(spec_hex_digit(n)) == n by {}
    assert forall|n: u8| 0 <= n < 16 implies b[n as int] >> 4 < 16 && b[n as int] & 0xf < 16
        && (b[n as int] >> 4) * 16 + (b[n as int] & 0xf) == b[n as int] by {
        lemma_nibbles(b[n as int]);
    }
    assert(s.len() == 36);
    assert(spec_uuid_text_valid(s));
    let t = Seq::new(16, |k: int| spec_text_byte(s, k));
    assert forall|k: int| 0 <= k < 16 implies spec_text_byte(s, k) == b[k] by {
        if k == 0 {
            assert(spec_text_byte(s, 0) == b[0]);
        } else if k == 1 {
            assert(spec_text_byte(s, 1) == b[1]);
        } else if k == 2 {
            assert(spec_text_byte(s, 2) == b[2]);
        } else if k == 3 {
            assert(spec_text_byte(s, 3) == b[3]);
        } else if k == 4 {
            assert(spec_text_byte(s, 4) == b[4]);
        } else if k == 5 {
            assert(spec_text_byte(s, 5) == b[5]);
        } else if k == 6 {
            assert(spec_text_byte(s, 6) == b[6]);
        } else if k == 7 {
            assert(spec_text_byte(s, 7) == b[7]);
        } else if k == 8 {
            assert(spec_text_byte(s, 8) == b[8]);
        } else if k == 9 {
            assert(spec_text_byte(s, 9) == b[9]);
        } else if k == 10 {
            assert(spec_text_byte(s, 10) == b[10]);
        } else if k == 11 {
            assert(spec_text_byte(s, 11) == b[11]);
        } else if k == 12 {
            assert(spec_text_byte(s, 12) == b[12]);
        } else if k == 13 {
            assert(spec_text_byte(s, 13) == b[13]);
        } else if k == 14 {
            assert(spec_text_byte(s, 14) == b[14]);
        } else {
            assert(spec_text_byte(s, 15) == b[15]);
        }
    }
    assert(t =~= b);
    codec::lemma_u128_be_round_trip(id);
}

/// Appends the two lowercase hex characters of one byte.
fn push_hex_byte(out: &mut Vec<u8>, b: u8)
    ensures
        final(out)@ == old(out)@ + spec_hex_byte(b),
{
    proof {
        lemma_nibbles(b);
    }
    let hi = b >> 4;
    let lo = b & 0xf;
    out.push(if hi < 10 { 48 + hi } else { 87 + hi });
    out.push(if lo < 10 { 48 + lo } else { 87 + lo });
    proof {
        assert(out@ =~= old(out)@ + spec_hex_byte(b));
    }
}

/// Renders an identifier into its canonical text.
pub fn format_uuid(id: u128) -> (r: Vec<u8>)
    ensures
        r@ == spec_uuid_text(id),
        r@.len() == 36,
{
    let mut out: Vec<u8> = Vec::new();
    push_hex_byte(&mut out, ((id >> 120) & 0xff) as u8);
    push_hex_byte(&mut out, ((id >> 112) & 0xff) as u8);
    push_hex_byte(&mut out, ((id >> 104) & 0xff) as u8);
    push_hex_byte(&mut out, ((id >> 96) & 0xff) as u8);
    out.push(HYPHEN);
    push_hex_byte(&mut out, ((id >> 88) & 0xff) as u8);
    push_hex_byte(&mut out, ((id >> 80) & 0xff) as u8);
    out.push(HYPHEN);
    push_hex_byte(&mut out, ((id >> 72) & 0xff) as u8);
    push_hex_byte(&mut out, ((id >> 64) & 0xff) as u8);
    out.push(HYPHEN);
    push_hex_byte(&mut out, ((id >> 56) & 0xff) as u8);
    push_hex_byte(&mut out, ((id >> 48) & 0xff) as u8);
    out.push(HYPHEN);
    push_hex_byte(&mut out, ((id >> 40) & 0xff) as u8);
    push_hex_byte(&mut out, ((id >> 32) & 0xff) as u8);
    push_hex_byte(&mut out, ((id >> 24) & 0xff) as u8);
    push_hex_byte(&mut out, ((id >> 16) & 0xff) as u8);
    push_hex_byte(&mut out, ((id >> 8) & 0xff) as u8);
    push_hex_byte(&mut out, (id & 0xff) as u8);
    proof {
        assert(out@ =~= spec_uuid_text(id));
    }
    out
}

/// The nibble of a hex character.
fn hex_val(c: u8) -> (v: u8)
    requires
        spec_is_hex_char(c),
    ensures
        v == spec_hex_val(c),
        v < 16,
{
    if c < 58 {
        c - 48
    } else {
        c - 87
    }
}

/// Whether every character in `[lo, hi)` is lowercase hex.
fn check_hex_range(s: &[u8], lo: usize, hi: usize) -> (ok: bool)
    requires
        lo <= hi <= s@.len(),
    ensures
        ok == forall|k: int| lo <= k < hi ==> spec_is_hex_char(s@[k]),
{
    let mut i: usize = lo;
    while i < hi
        invariant
            lo <= i <= hi <= s@.len(),
            forall|k: int| lo <= k < i ==> spec_is_hex_char(s@[k]),
        decreases hi - i,
    {
        let c = s[i];
        if !((48 <= c && c <= 57) || (97 <= c && c <= 102)) {
            return false;
        }
        i = i + 1;
    }
    true
}

/// Parses canonical text back into an identifier. Yields the identifier
/// exactly when the text is well-formed canonical form, and nothing
/// otherwise.
pub fn parse_uuid(s: &[u8]) -> (r: Option<u128>)
    ensures
        r == spec_parse_uuid(s@),
{
    if s.len() != 36 {
        return None;
    }
    if s[8] != HYPHEN || s[13] != HYPHEN || s[18] != HYPHEN || s[23] != HYPHEN {
        return None;
    }
    if !check_hex_range(s, 0, 8) {
        return None;
    }
    if !check_hex_range(s, 9, 13) {
        return None;
    }
    if !check_hex_range(s, 14, 18) {
        return None;
    }
    if !check_hex_range(s, 19, 23) {
        return None;
    }
    if !check_hex_range(s, 24, 36) {
        return None;
    }
    let mut bytes: Vec<u8> = Vec::new();
    let mut k: usize = 0;
    while k < 16
        invariant
            k <= 16,
            bytes@.len() == k,
            spec_uuid_text_valid(s@),
            s@.len() == 36,
            forall|t: int| 0 <= t < k ==> bytes@[t] == spec_text_byte(s@, t),
        decreases 16 - k,
    {
        let pos: usize = 2 * k + if k < 4 {
            0
        } else if k < 6 {
            1
        } else if k < 8 {
            2
        } else if k < 10 {
            3
        } else {
            4
        };
        proof {
            assert(pos == spec_byte_pos(k as int));
            if k < 4 {
            } else if k < 6 {
            } else if k < 8 {
            } else if k < 10 {
            }
        }
        let hi = hex_val(s[pos]);
        let lo = hex_val(s[pos + 1]);
        bytes.push(hi * 16 + lo);
        k = k + 1;
    }
    let v = codec::read_u128_be(bytes.as_slice(), 0);
    proof {
        assert(bytes@.subrange(0, 16) =~= bytes@);
        assert(Seq::new(16, |t: int| spec_text_byte(s@, t)) =~= bytes@);
    }
    Some(v)
}

} // verus!
