//! Lowercase hex encoding of byte strings, as used by the stored-credential
//! format, together with trusted bindings to the `hex` crate.

use vstd::prelude::*;

verus! {

/// The lowercase ASCII hex digit of a nibble value.
pub open spec fn hex_digit(n: u8) -> u8
    recommends
        n < 16,
{
    if n < 10 {
        (0x30 + n) as u8
    } else {
        (0x57 + n) as u8
    }
}

/// The two lowercase hex digits of one byte, high nibble first.
pub open spec fn hex_pair(b: u8) -> Seq<u8> {
    seq![hex_digit(b / 16), hex_digit(b % 16)]
}

/// The lowercase hex encoding of a byte string: two digits for each byte.
pub open spec fn hex_bytes(s: Seq<u8>) -> Seq<u8>
    decreases s.len(),
{
    if s.len() == 0 {
        Seq::empty()
    } else {
        hex_pair(s[0]) + hex_bytes(s.drop_first())
    }
}

/// An ASCII hex digit of either case.
pub open spec fn is_hex_digit_byte(b: u8) -> bool {
    (0x30 <= b <= 0x39) || (0x41 <= b <= 0x46) || (0x61 <= b <= 0x66)
}

/// The nibble value of an ASCII hex digit of either case.
pub open spec fn hex_val(b: u8) -> u8
    recommends
        is_hex_digit_byte(b),
{
    if 0x30 <= b <= 0x39 {
        (b - 0x30) as u8
    } else if 0x41 <= b <= 0x46 {
        ((b - 0x41) + 10) as u8
    } else {
        ((b - 0x61) + 10) as u8
    }
}

/// A byte string that hex-decodes: even length, hex digits throughout.
pub open spec fn is_hex_seq(s: Seq<u8>) -> bool {
    s.len() % 2 == 0 && (forall|i: int| 0 <= i < s.len() ==> is_hex_digit_byte(#[trigger] s[i]))
}

/// The byte string a hex string decodes to, one byte per digit pair.
pub open spec fn hex_decode_spec(s: Seq<u8>) -> Seq<u8>
    recommends
        is_hex_seq(s),
    decreases s.len(),
{
    if s.len() < 2 {
        Seq::empty()
    } else {
        seq![(hex_val(s[0]) * 16 + hex_val(s[1])) as u8] + hex_decode_spec(s.skip(2))
    }
}

/// Relies on `hex::encode`: it returns the lowercase hex encoding of its
/// input, two digits per byte with the high nibble first.  The string is
/// ASCII, so its bytes are returned directly.
#[verifier::external_body]
pub(crate) fn hex_encode(data: &[u8]) -> (r: Vec<u8>)
    ensures
        r@ == hex_bytes(data@),
{
    hex::encode(data).into_bytes()
}

/// Relies on `hex::decode`: it succeeds exactly on even-length strings of
/// ASCII hex digits of either case, and maps each digit pair to one byte,
/// high nibble first.
#[verifier::external_body]
pub(crate) fn hex_decode(data: &[u8]) -> (r: Option<Vec<u8>>)
    ensures
        r is Some <==> is_hex_seq(data@),
        r matches Some(v) ==> v@ == hex_decode_spec(data@),
{
    hex::decode(data).ok()
}

/// A hex encoding is twice as long as what it encodes.
pub proof fn lemma_hex_bytes_len(s: Seq<u8>)
    ensures
        hex_bytes(s).len() == 2 * s.len(),
    decreases s.len(),
{
    if s.len() > 0 {
        lemma_hex_bytes_len(s.drop_first());
    }
}

/// Every byte of a hex encoding is a lowercase hex digit; in particular it
/// is neither a colon nor a null byte.
pub proof fn lemma_hex_bytes_digits(s: Seq<u8>)
    ensures
        forall|i: int|
            0 <= i < hex_bytes(s).len() ==> is_hex_digit_byte(#[trigger] hex_bytes(s)[i]),
    decreases s.len(),
{
    if s.len() > 0 {
        lemma_hex_bytes_digits(s.drop_first());
        assert forall|i: int|
            0 <= i < hex_bytes(s).len() implies is_hex_digit_byte(#[trigger] hex_bytes(s)[i]) by {
            if i >= 2 {
                assert(hex_bytes(s)[i] == hex_bytes(s.drop_first())[i - 2]);
            }
        }
    }
}

/// Decoding inverts encoding: a hex encoding is a valid hex string and
/// decodes to exactly the bytes it was built from.
pub proof fn lemma_hex_round_trip(s: Seq<u8>)
    ensures
        is_hex_seq(hex_bytes(s)),
        hex_decode_spec(hex_bytes(s)) == s,
    decreases s.len(),
{
    lemma_hex_bytes_len(s);
    lemma_hex_bytes_digits(s);
    if s.len() == 0 {
        assert(hex_decode_spec(hex_bytes(s)) =~= s);
    } else {
        lemma_hex_round_trip(s.drop_first());
        lemma_hex_bytes_len(s.drop_first());
        assert(hex_bytes(s).skip(2) =~= hex_bytes(s.drop_first()));
        assert(hex_val(hex_digit(s[0] / 16)) == s[0] / 16);
        assert(hex_val(hex_digit(s[0] % 16)) == s[0] % 16);
        assert(hex_decode_spec(hex_bytes(s)) =~= s);
    }
}

} // verus!
