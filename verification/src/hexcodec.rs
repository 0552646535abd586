//! Binary-safe body encoding for the distributed tier's wire envelope:
//! bytes travel as lowercase hex digits, so arbitrary (non-text) origin
//! payloads round-trip exactly.  The encoding and decoding themselves are
//! done by the `hex` crate, behind two trusted wrappers.

use vstd::prelude::*;

verus! {

/// The lowercase hex digit of a nibble.
pub open spec fn hex_digit(n: u8) -> u8 {
    if n < 10 {
        (48 + n) as u8
    } else {
        (87 + n) as u8
    }
}

/// Lowercase hex spelling of a byte string, high nibble first.
pub open spec fn hex_of(b: Seq<u8>) -> Seq<u8>
    decreases b.len(),
{
    if b.len() == 0 {
        Seq::empty()
    } else {
        seq![hex_digit(b[0] / 16), hex_digit(b[0] % 16)] + hex_of(b.drop_first())
    }
}

pub open spec fn is_hex_digit(c: u8) -> bool {
    (48 <= c && c <= 57) || (97 <= c && c <= 102) || (65 <= c && c <= 70)
}

/// Numeric value of a hex digit of either case.
pub open spec fn hex_val(c: u8) -> u8 {
    if 48 <= c && c <= 57 {
        (c - 48) as u8
    } else if 97 <= c && c <= 102 {
        (c - 87) as u8
    } else {
        (c - 55) as u8
    }
}

/// What `hex::decode` accepts: even length, hex digits of either case.
pub open spec fn hex_valid(s: Seq<u8>) -> bool {
    s.len() % 2 == 0 && forall|i: int| 0 <= i < s.len() ==> is_hex_digit(s[i])
}

/// The bytes a hex string spells.
pub open spec fn unhex(s: Seq<u8>) -> Seq<u8>
    decreases s.len(),
{
    if s.len() < 2 {
        Seq::empty()
    } else {
        seq![(hex_val(s[0]) * 16 + hex_val(s[1])) as u8] + unhex(s.skip(2))
    }
}

/// Relies on `hex::encode`: every byte becomes exactly two lowercase hex
/// digits, high nibble first, in input order.
#[verifier::external_body]
pub fn hex_encode_bytes(b: &Vec<u8>) -> (r: Vec<u8>)
    ensures
        r@ == hex_of(b@),
{
    hex::encode(b).into_bytes()
}

/// Relies on `hex::decode`: it succeeds exactly on even-length strings of
/// hex digits (upper or lower case) and returns the bytes they spell.
#[verifier::external_body]
pub fn hex_decode_bytes(s: &Vec<u8>) -> (r: Option<Vec<u8>>)
    ensures
        r is Some <==> hex_valid(s@),
        r matches Some(v) ==> v@ == unhex(s@),
{
    match hex::decode(s) {
        Ok(v) => Some(v),
        Err(_) => None,
    }
}

/// The hex spelling of any byte string is valid, twice as long, and
/// spells the original bytes back.
pub proof fn lemma_hex_round_trip(b: Seq<u8>)
    ensures
        hex_of(b).len() == 2 * b.len(),
        hex_valid(hex_of(b)),
        unhex(hex_of(b)) == b,
    decreases b.len(),
{
    if b.len() == 0 {
        assert(unhex(hex_of(b)) =~= b);
    } else {
        lemma_hex_round_trip(b.drop_first());
        let s = hex_of(b);
        let hi = b[0] / 16;
        let lo = b[0] % 16;
        assert(hi < 16 && lo < 16);
        assert(s[0] == hex_digit(hi) && s[1] == hex_digit(lo));
        assert(is_hex_digit(s[0]) && is_hex_digit(s[1]));
        assert(hex_val(hex_digit(hi)) == hi && hex_val(hex_digit(lo)) == lo);
        assert(forall|i: int| 0 <= i < s.len() ==> is_hex_digit(#[trigger] s[i])) by {
            assert(forall|i: int| 2 <= i < s.len() ==> s[i] == hex_of(b.drop_first())[i - 2]);
        }
        assert(s.len() % 2 == 0);
        assert(s.skip(2) =~= hex_of(b.drop_first()));
        assert(hex_val(s[0]) * 16 + hex_val(s[1]) == b[0]);
        assert(unhex(s) =~= b);
    }
}

} // verus!
