//! Secrets as `0x`-prefixed hex strings.

use vstd::prelude::*;
use vstd::utf8::encode_utf8;

use crate::error::StoreError;

verus! {

/// The value of one hex digit, upper or lower case.
pub open spec fn hex_digit_value(b: u8) -> Option<u8> {
    if 48 <= b <= 57 {
        Some((b - 48) as u8)
    } else if 97 <= b <= 102 {
        Some((b - 87) as u8)
    } else if 65 <= b <= 70 {
        Some((b - 55) as u8)
    } else {
        None
    }
}

/// The bytes that a string of hex digit pairs stands for; `None` where its
/// length is odd or it holds a byte that is no hex digit.
pub open spec fn hex_decoded(s: Seq<u8>) -> Option<Seq<u8>>
    decreases s.len(),
{
    if s.len() == 0 {
        Some(Seq::empty())
    } else if s.len() == 1 {
        None
    } else {
        match (hex_digit_value(s[0]), hex_digit_value(s[1]), hex_decoded(s.subrange(2, s.len() as int))) {
            (Some(hi), Some(lo), Some(rest)) => Some(seq![(hi * 16 + lo) as u8] + rest),
            _ => None,
        }
    }
}

/// The lower-case hex digit for a value below 16.
pub open spec fn hex_digit_char(n: u8) -> char {
    if n < 10 {
        (n + 48) as char
    } else {
        (n + 87) as char
    }
}

/// Two lower-case hex digits for each byte, high digit first.
pub open spec fn hex_encoded(b: Seq<u8>) -> Seq<char>
    decreases b.len(),
{
    if b.len() == 0 {
        Seq::empty()
    } else {
        seq![hex_digit_char(b[0] / 16), hex_digit_char(b[0] % 16)] + hex_encoded(b.drop_first())
    }
}

/// The bytes that a `0x`-prefixed hex string stands for.
pub open spec fn secret_value(s: Seq<char>) -> Result<Seq<u8>, StoreError> {
    let b = encode_utf8(s);
    if b.len() >= 2 && b[0] == 48 && b[1] == 120 {
        match hex_decoded(b.subrange(2, b.len() as int)) {
            Some(v) => Ok(v),
            None => Err(StoreError::InvalidSecretEncoding),
        }
    } else {
        Err(StoreError::InvalidSecretEncoding)
    }
}

/// Relies on hex::decode: pairs of hex digits in either case, each pair
/// one byte; an odd length or any other byte is an error.
#[verifier::external_body]
fn hex_decode(digits: &[u8]) -> (r: Option<Vec<u8>>)
    ensures
        r is Some <==> hex_decoded(digits@) is Some,
        r matches Some(v) ==> hex_decoded(digits@) == Some(v@),
{
    hex::decode(digits).ok()
}

/// Relies on hex::encode: two lower-case hex digits per byte.
#[verifier::external_body]
fn hex_encode(bytes: &[u8]) -> (r: String)
    ensures
        r@ == hex_encoded(bytes@),
{
    hex::encode(bytes)
}

/// Reads a secret given as `0x` followed by pairs of hex digits.
pub fn parse_secret(text: &str) -> (r: Result<Vec<u8>, StoreError>)
    ensures
        r matches Ok(v) ==> secret_value(text@) == Ok::<_, StoreError>(v@),
        r matches Err(e) ==> secret_value(text@) == Err::<Seq<u8>, _>(e),
{
    let b = text.as_bytes();
    let n = b.len();
    if n < 2 || b[0] != 48u8 || b[1] != 120u8 {
        return Err(StoreError::InvalidSecretEncoding);
    }
    let mut digits: Vec<u8> = Vec::with_capacity(n - 2);
    let mut i: usize = 2;
    while i < n
        invariant
            2 <= i <= n,
            n == b@.len(),
            digits@ == b@.subrange(2, i as int),
        decreases n - i,
    {
        digits.push(b[i]);
        i = i + 1;
    }
    match hex_decode(digits.as_slice()) {
        Some(v) => Ok(v),
        None => Err(StoreError::InvalidSecretEncoding),
    }
}

/// Writes a secret as `0x` followed by two lower-case hex digits per byte.
pub fn format_secret(bytes: &[u8]) -> (r: String)
    ensures
        r@ == seq!['0', 'x'] + hex_encoded(bytes@),
{
    let mut out = String::from_str("0x");
    proof {
        reveal_strlit("0x");
    }
    let digits = hex_encode(bytes);
    out.append(digits.as_str());
    out
}

} // verus!
