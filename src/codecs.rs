//! Calls into the arbitrary-precision, hex, base64 and ed25519 libraries, with what the
//! library relies on of each.
use vstd::prelude::*;

use crate::number::{BigInteger, BigNat};
use crate::text::{all_digits, decimal, digit_value, digits_value, signed_decimal};

verus! {

/// `s` without `_` separators.
pub open spec fn without_separators(s: Seq<char>) -> Seq<char>
    decreases s.len(),
{
    if s.len() == 0 {
        s
    } else if s.last() == '_' {
        without_separators(s.drop_last())
    } else {
        without_separators(s.drop_last()).push(s.last())
    }
}

/// The digits of a text as `num_bigint` reads them: one leading `+` is dropped unless a
/// second one follows.
pub open spec fn big_digits(s: Seq<char>) -> Seq<char> {
    if s.len() > 0 && s[0] == '+' && !(s.len() > 1 && s[1] == '+') {
        s.drop_first()
    } else {
        s
    }
}

/// The value of an unsigned integer text as `num_bigint` reads it: digits of the radix and
/// `_` separators, starting with a digit.
pub open spec fn big_unsigned_text_value(s: Seq<char>, radix: nat) -> Option<nat> {
    let t = big_digits(s);
    if t.len() > 0 && t[0] != '_' && (forall|i: int|
        0 <= i < t.len() ==> #[trigger] t[i] == '_' || digit_value(t[i]) < radix) {
        Some(digits_value(without_separators(t), radix))
    } else {
        None
    }
}

/// The value of a signed integer text as `num_bigint` reads it: an optional `-`, then an
/// unsigned text.
pub open spec fn big_signed_text_value(s: Seq<char>, radix: nat) -> Option<int> {
    if s.len() > 0 && s[0] == '-' && !(s.len() > 1 && s[1] == '+') {
        match big_unsigned_text_value(s.drop_first(), radix) {
            Some(v) => Some(-v),
            None => None,
        }
    } else {
        match big_unsigned_text_value(s, radix) {
            Some(v) => Some(v as int),
            None => None,
        }
    }
}

/// Relies on `<num_bigint::BigUint as num_traits::Num>::from_str_radix`, read through
/// `BigUint::to_u32_digits`.
#[verifier::external_body]
pub(crate) fn parse_big_unsigned(s: &str, radix: u32) -> (r: Option<BigNat>)
    requires
        2 <= radix <= 36,
    ensures
        match big_unsigned_text_value(s@, radix as nat) {
            Some(v) => r matches Some(n) && n@ == v,
            None => r is None,
        },
{
    <num_bigint::BigUint as num_traits::Num>::from_str_radix(s, radix).ok().map(
        |n| BigNat { limbs: n.to_u32_digits() },
    )
}

/// Relies on `<num_bigint::BigInt as num_traits::Num>::from_str_radix`, read through
/// `BigInt::to_u32_digits`.
#[verifier::external_body]
pub(crate) fn parse_big_signed(s: &str, radix: u32) -> (r: Option<BigInteger>)
    requires
        2 <= radix <= 36,
    ensures
        match big_signed_text_value(s@, radix as nat) {
            Some(v) => r matches Some(n) && n@ == v,
            None => r is None,
        },
{
    <num_bigint::BigInt as num_traits::Num>::from_str_radix(s, radix).ok().map(
        |n| {
            let (sign, limbs) = n.to_u32_digits();
            BigInteger { negative: sign == num_bigint::Sign::Minus, magnitude: BigNat { limbs } }
        },
    )
}

/// Relies on `Display` of `num_bigint::BigUint`: the decimal digits of the value.
#[verifier::external_body]
pub(crate) fn big_unsigned_to_decimal(n: &BigNat) -> (r: String)
    ensures
        r@ == decimal(n@),
{
    num_bigint::BigUint::from_slice(&n.limbs).to_string()
}

/// Relies on `Display` of `num_bigint::BigInt`: a `-` before the decimal digits of a negative
/// value.
#[verifier::external_body]
pub(crate) fn big_signed_to_decimal(n: &BigInteger) -> (r: String)
    ensures
        r@ == signed_decimal(n@),
{
    let sign = if n.negative {
        num_bigint::Sign::Minus
    } else {
        num_bigint::Sign::Plus
    };
    num_bigint::BigInt::from_biguint(sign, num_bigint::BigUint::from_slice(&n.magnitude.limbs))
        .to_string()
}

/// The bytes that `base64::decode` (standard alphabet) reads from a text, if it reads one.
pub uninterp spec fn base64_decoded(s: Seq<char>) -> Option<Seq<u8>>;

/// The text that `base64::encode` (standard alphabet, padded) writes for bytes.
pub uninterp spec fn base64_text(b: Seq<u8>) -> Seq<char>;

/// Relies on `base64::decode`.
#[verifier::external_body]
pub(crate) fn base64_decode(s: &str) -> (r: Option<Vec<u8>>)
    ensures
        match base64_decoded(s@) {
            Some(b) => r matches Some(v) && v@ == b,
            None => r is None,
        },
{
    base64::decode(s).ok()
}

/// Relies on `base64::encode`; no bytes give no text.
#[verifier::external_body]
pub(crate) fn base64_encode(b: &Vec<u8>) -> (r: String)
    ensures
        r@ == base64_text(b@),
        b@.len() == 0 ==> r@.len() == 0,
{
    base64::encode(b)
}

/// The bytes of a text of hex digit pairs, either case, as `hex::decode` reads it.
pub open spec fn hex_decoded(s: Seq<char>) -> Option<Seq<u8>> {
    if s.len() % 2 == 0 && all_digits(s, 16) {
        Some(
            Seq::new(
                s.len() / 2,
                |i: int| (digit_value(s[2 * i]) * 16 + digit_value(s[2 * i + 1])) as u8,
            ),
        )
    } else {
        None
    }
}

/// Lower-case hex digit pairs of bytes, as `hex::encode` writes them.
pub open spec fn hex_text(b: Seq<u8>) -> Seq<char> {
    Seq::new(
        2 * b.len(),
        |i: int|
            if i % 2 == 0 {
                crate::text::digit_char((b[i / 2] / 16) as nat)
            } else {
                crate::text::digit_char((b[i / 2] % 16) as nat)
            },
    )
}

/// Relies on `hex::decode`.
#[verifier::external_body]
pub(crate) fn hex_decode(s: &str) -> (r: Option<Vec<u8>>)
    ensures
        match hex_decoded(s@) {
            Some(b) => r matches Some(v) && v@ == b,
            None => r is None,
        },
{
    hex::decode(s).ok()
}

/// Relies on `hex::encode`.
#[verifier::external_body]
pub(crate) fn hex_encode(b: &Vec<u8>) -> (r: String)
    ensures
        r@ == hex_text(b@),
{
    hex::encode(b)
}

/// Thirty-two bytes that `ed25519_dalek::PublicKey::from_bytes` accepts: the compressed form
/// of a curve point.
pub uninterp spec fn is_public_key_point(b: Seq<u8>) -> bool;

/// Relies on `ed25519_dalek::PublicKey::from_bytes` (32 bytes that decompress to a point) and
/// `PublicKey::as_bytes` (the bytes it was made from).
#[verifier::external_body]
pub(crate) fn public_key_from_bytes(b: &Vec<u8>) -> (r: Option<Vec<u8>>)
    ensures
        match r {
            Some(k) => k@ == b@ && b@.len() == 32 && is_public_key_point(b@),
            None => !(b@.len() == 32 && is_public_key_point(b@)),
        },
{
    ed25519_dalek::PublicKey::from_bytes(b).ok().map(|k| k.as_bytes().to_vec())
}

} // verus!
