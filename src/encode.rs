//! From a generic value tree to typed tokens, following a schema of parameters.
use vstd::prelude::*;

use crate::codecs::{
    base64_decode, base64_decoded, big_signed_text_value, big_unsigned_text_value,
    hex_decode, hex_decoded, is_public_key_point, parse_big_signed, parse_big_unsigned,
    public_key_from_bytes,
};
use crate::error::{ErrorModel, TokensJsonError};
use crate::kinds::{
    after, is_word, kind_valid, params_model, KindModel, Param, ParamKind, ParamModel,
};
use crate::number::{integer_parts, BigInteger, BigNat, Number};
use crate::text::{
    after_prefix, chars_of, has_hex_prefix, parse_unsigned, signed_decimal, decimal,
    starts_with_hex_prefix, trim, trimmed, unsigned_text_value,
};
use crate::codecs::{big_signed_to_decimal, big_unsigned_to_decimal};
use crate::values::{
    entries_model, json_fields, json_items, token_models, tokens_model, GenericValue, Json, Token,
    TokenModel, TokenValue,
};

verus! {

/// The digits of a number text, and their radix: 16 after a `0x` marker, else 10.
pub open spec fn number_digits(t: Seq<char>) -> (nat, Seq<char>) {
    if has_hex_prefix(t) {
        (16, after(t, 2))
    } else {
        (10, t)
    }
}

/// An integer of any size and sign, from a number text or a number.
pub open spec fn signed_integer(v: Json) -> Result<int, ErrorModel> {
    match v {
        Json::Str(s) => {
            let t = trimmed(s);
            let (radix, d) = number_digits(t);
            match big_signed_text_value(d, radix) {
                Some(n) => Ok(n),
                None => Err(ErrorModel::InvalidNumber(t)),
            }
        },
        Json::Number(n) => if !n.is_integer() || n.int_value() < i64::MIN || n.int_value()
            > i64::MAX {
            Err(ErrorModel::IntegerValueExpected(n))
        } else {
            Ok(n.int_value())
        },
        _ => Err(ErrorModel::NumberExpected),
    }
}

/// A natural number of any size, from a number text or a number that fits in 64 bits.
pub open spec fn unsigned_integer(v: Json) -> Result<nat, ErrorModel> {
    match v {
        Json::Str(s) => {
            let t = trimmed(s);
            let (radix, d) = number_digits(t);
            match big_unsigned_text_value(d, radix) {
                Some(n) => Ok(n),
                None => Err(ErrorModel::InvalidNumber(t)),
            }
        },
        Json::Number(n) => number_below(n, u64::MAX as nat),
        _ => Err(ErrorModel::NumberExpected),
    }
}

/// A non-negative integral number no larger than `max`.
pub open spec fn number_below(n: Number, max: nat) -> Result<nat, ErrorModel> {
    if n.is_negative() {
        Err(ErrorModel::UnsignedValueExpected(n))
    } else if !n.is_integer() || n.magnitude() > max {
        Err(ErrorModel::IntegerValueExpected(n))
    } else {
        Ok(n.magnitude())
    }
}

/// A natural number no larger than `max`, from a number text or a number.
pub open spec fn bounded_unsigned(v: Json, max: nat) -> Result<nat, ErrorModel> {
    match v {
        Json::Str(s) => {
            let t = trimmed(s);
            let (radix, d) = number_digits(t);
            match unsigned_text_value(d, radix) {
                Some(n) => if n <= max {
                    Ok(n)
                } else {
                    Err(ErrorModel::InvalidNumber(t))
                },
                None => Err(ErrorModel::InvalidNumber(t)),
            }
        },
        Json::Number(n) => number_below(n, max),
        _ => Err(ErrorModel::NumberExpected),
    }
}

/// Where the first entry with the key stands, or -1.
pub open spec fn key_index<T>(s: Seq<(Seq<char>, T)>, key: Seq<char>) -> int
    decreases s.len(),
{
    if s.len() == 0 {
        -1
    } else if s[0].0 == key {
        0
    } else if key_index(s.drop_first(), key) < 0 {
        -1
    } else {
        key_index(s.drop_first(), key) + 1
    }
}

/// The entries with the value set at the key: in place where the key is there, else last.
pub open spec fn set_entry(m: Seq<(Seq<char>, TokenModel)>, key: Seq<char>, v: TokenModel) -> Seq<
    (Seq<char>, TokenModel),
> {
    let j = key_index(m, key);
    if 0 <= j < m.len() {
        m.update(j, (key, v))
    } else {
        m.push((key, v))
    }
}

/// The text by which a map entry is keyed.
pub open spec fn key_text(t: TokenModel) -> Seq<char> {
    match t {
        TokenModel::Uint { number, .. } => decimal(number),
        TokenModel::VarUint { number, .. } => decimal(number),
        TokenModel::Int { number, .. } => signed_decimal(number),
        TokenModel::VarInt { number, .. } => signed_decimal(number),
        TokenModel::Address(s) => s,
        _ => Seq::empty(),
    }
}

/// The token for `v` as a value of kind `k`, or the first reason it is none.
pub open spec fn encode_value(k: KindModel, v: Json) -> Result<TokenModel, ErrorModel>
    decreases k, v, 0nat,
{
    match k {
        KindModel::Uint(size) => match unsigned_integer(v) {
            Ok(n) => Ok(TokenModel::Uint { size, number: n }),
            Err(e) => Err(e),
        },
        KindModel::VarUint(size) => match unsigned_integer(v) {
            Ok(n) => Ok(TokenModel::VarUint { size, number: n }),
            Err(e) => Err(e),
        },
        KindModel::Int(size) => match signed_integer(v) {
            Ok(n) => Ok(TokenModel::Int { size, number: n }),
            Err(e) => Err(e),
        },
        KindModel::VarInt(size) => match signed_integer(v) {
            Ok(n) => Ok(TokenModel::VarInt { size, number: n }),
            Err(e) => Err(e),
        },
        KindModel::Bool => match v {
            Json::Bool(b) => Ok(TokenModel::Bool(b)),
            _ => Err(ErrorModel::BoolExpected),
        },
        KindModel::Tuple(ps) => match encode_object(ps, v) {
            Ok(ts) => Ok(TokenModel::Tuple(ts)),
            Err(e) => Err(e),
        },
        KindModel::Array(e) => match v {
            Json::Array(items) => match encode_items(*e, items, items.len()) {
                Ok(ts) => Ok(TokenModel::Array(ts)),
                Err(x) => Err(x),
            },
            _ => Err(ErrorModel::ArrayExpected),
        },
        KindModel::FixedArray(e, n) => match v {
            Json::Array(items) => if items.len() != n {
                Err(ErrorModel::InvalidArrayLength(items.len()))
            } else {
                match encode_items(*e, items, items.len()) {
                    Ok(ts) => Ok(TokenModel::FixedArray(ts)),
                    Err(x) => Err(x),
                }
            },
            _ => Err(ErrorModel::ArrayExpected),
        },
        KindModel::Cell => match v {
            Json::Str(s) => if trimmed(s).len() == 0 {
                Ok(TokenModel::Cell(Seq::empty()))
            } else {
                match base64_decoded(trimmed(s)) {
                    Some(b) => Ok(TokenModel::Cell(b)),
                    None => Err(ErrorModel::InvalidCell),
                }
            },
            Json::Null => Ok(TokenModel::Cell(Seq::empty())),
            _ => Err(ErrorModel::StringExpected),
        },
        KindModel::Mapping(_, _) => match v {
            Json::Array(items) => match encode_entries(k, items, items.len()) {
                Ok(m) => Ok(TokenModel::Mapping(m)),
                Err(x) => Err(x),
            },
            _ => Err(ErrorModel::ArrayExpected),
        },
        KindModel::Address => match v {
            Json::Str(s) => Ok(TokenModel::Address(trimmed(s))),
            _ => Err(ErrorModel::StringExpected),
        },
        KindModel::Bytes => match v {
            Json::Str(s) => if trimmed(s).len() == 0 {
                Ok(TokenModel::Bytes(Seq::empty()))
            } else {
                match base64_decoded(trimmed(s)) {
                    Some(b) => Ok(TokenModel::Bytes(b)),
                    None => Err(ErrorModel::InvalidBytes),
                }
            },
            _ => Err(ErrorModel::StringExpected),
        },
        KindModel::FixedBytes(n) => match v {
            Json::Str(s) => match base64_decoded(trimmed(s)) {
                Some(b) => if b.len() != n {
                    Err(ErrorModel::InvalidBytesLength(b.len()))
                } else {
                    Ok(TokenModel::FixedBytes(b))
                },
                None => Err(ErrorModel::InvalidBytes),
            },
            _ => Err(ErrorModel::StringExpected),
        },
        KindModel::String => match v {
            Json::Str(s) => Ok(TokenModel::Str(s)),
            _ => Err(ErrorModel::StringExpected),
        },
        KindModel::Token => match bounded_unsigned(v, u128::MAX as nat) {
            Ok(n) => Ok(TokenModel::Token(n)),
            Err(e) => Err(e),
        },
        KindModel::Time => match bounded_unsigned(v, u64::MAX as nat) {
            Ok(n) => Ok(TokenModel::Time(n)),
            Err(e) => Err(e),
        },
        KindModel::Expire => match bounded_unsigned(v, u32::MAX as nat) {
            Ok(n) => Ok(TokenModel::Expire(n)),
            Err(e) => Err(e),
        },
        KindModel::PublicKey => match v {
            Json::Null => Ok(TokenModel::PublicKey(None)),
            Json::Str(s) => public_key_of(trimmed(s)),
            _ => Err(ErrorModel::StringExpected),
        },
        KindModel::Optional(e) => match v {
            Json::Null => Ok(TokenModel::Optional(None)),
            _ => match encode_value(*e, v) {
                Ok(t) => Ok(TokenModel::Optional(Some(Box::new(t)))),
                Err(x) => Err(x),
            },
        },
    }
}

/// A public key from trimmed text: none for no text, else the hex digits of a curve point,
/// with or without a `0x` marker.
pub open spec fn public_key_of(t: Seq<char>) -> Result<TokenModel, ErrorModel> {
    if t.len() == 0 {
        Ok(TokenModel::PublicKey(None))
    } else {
        let h = if has_hex_prefix(t) {
            after(t, 2)
        } else {
            t
        };
        match hex_decoded(h) {
            Some(b) => if b.len() == 32 && is_public_key_point(b) {
                Ok(TokenModel::PublicKey(Some(b)))
            } else {
                Err(ErrorModel::InvalidPublicKey)
            },
            None => Err(ErrorModel::InvalidPublicKey),
        }
    }
}

/// The tokens for an object, one per parameter in order.
pub open spec fn encode_object(ps: Seq<ParamModel>, v: Json) -> Result<
    Seq<(Seq<char>, TokenModel)>,
    ErrorModel,
>
    decreases ps, v, 0nat,
{
    match v {
        Json::Object(fs) => if fs.len() != ps.len() {
            Err(ErrorModel::ParameterCountMismatch)
        } else {
            encode_fields(ps, fs, ps.len())
        },
        _ => Err(ErrorModel::ObjectExpected),
    }
}

/// The tokens for the first `n` parameters.
pub open spec fn encode_fields(
    ps: Seq<ParamModel>,
    fs: Seq<(Seq<char>, Json)>,
    n: nat,
) -> Result<Seq<(Seq<char>, TokenModel)>, ErrorModel>
    decreases ps, fs, n,
{
    if n == 0 || n > ps.len() {
        Ok(Seq::empty())
    } else {
        match encode_fields(ps, fs, (n - 1) as nat) {
            Err(e) => Err(e),
            Ok(ts) => {
                let j = key_index(fs, ps[n - 1].name);
                if j < 0 || j >= fs.len() {
                    Err(ErrorModel::ParameterNotFound(ps[n - 1].name))
                } else {
                    match encode_value(ps[n - 1].kind, fs[j].1) {
                        Ok(t) => Ok(ts.push((ps[n - 1].name, t))),
                        Err(e) => Err(e),
                    }
                }
            },
        }
    }
}

/// The tokens for the first `n` items, each of kind `k`.
pub open spec fn encode_items(k: KindModel, items: Seq<Json>, n: nat) -> Result<
    Seq<TokenModel>,
    ErrorModel,
>
    decreases k, items, n,
{
    if n == 0 || n > items.len() {
        Ok(Seq::empty())
    } else {
        match encode_items(k, items, (n - 1) as nat) {
            Err(e) => Err(e),
            Ok(ts) => match encode_value(k, items[n - 1]) {
                Ok(t) => Ok(ts.push(t)),
                Err(e) => Err(e),
            },
        }
    }
}

/// The entries for the first `n` key and value pairs of a map of kind `k`.
pub open spec fn encode_entries(k: KindModel, items: Seq<Json>, n: nat) -> Result<
    Seq<(Seq<char>, TokenModel)>,
    ErrorModel,
>
    decreases k, items, n,
{
    if n == 0 || n > items.len() {
        Ok(Seq::empty())
    } else {
        match encode_entries(k, items, (n - 1) as nat) {
            Err(e) => Err(e),
            Ok(m) => match items[n - 1] {
                Json::Array(pair) => if pair.len() != 2 {
                    Err(ErrorModel::MapItemExpected)
                } else {
                    match k {
                        KindModel::Mapping(kk, vk) => match encode_value(*kk, pair[0]) {
                            Err(e) => Err(e),
                            Ok(key) => match encode_value(*vk, pair[1]) {
                                Err(e) => Err(e),
                                Ok(val) => Ok(set_entry(m, key_text(key), val)),
                            },
                        },
                        _ => Ok(m),
                    }
                },
                _ => Err(ErrorModel::MapItemExpected),
            },
        }
    }
}

/// `r` is the outcome `m` describes: the same error, or a result whose model is `m`'s value.
pub open spec fn outcome<T, M>(
    r: Result<T, TokensJsonError>,
    m: Result<M, ErrorModel>,
    f: spec_fn(T) -> M,
) -> bool {
    match (r, m) {
        (Ok(a), Ok(b)) => f(a) == b,
        (Err(a), Err(b)) => a@ == b,
        _ => false,
    }
}

pub(crate) proof fn lemma_key_index_first<T>(s: Seq<(Seq<char>, T)>, key: Seq<char>, j: int)
    requires
        0 <= j <= s.len(),
        forall|i: int| 0 <= i < j ==> (#[trigger] s[i]).0 != key,
        j < s.len() ==> s[j].0 == key,
    ensures
        key_index(s, key) == if j < s.len() {
            j
        } else {
            -1
        },
    decreases s.len(),
{
    if s.len() > 0 && j > 0 {
        let t = s.drop_first();
        assert(s[0].0 != key);
        assert forall|i: int| 0 <= i < j - 1 implies (#[trigger] t[i]).0 != key by {
            assert(t[i] == s[i + 1]);
        }
        if j < s.len() {
            assert(t[j - 1] == s[j]);
        }
        lemma_key_index_first(t, key, j - 1);
    }
}

/// Where the first entry with the key stands.
pub(crate) fn find_key<T>(s: &Vec<(String, T)>, key: &Vec<char>) -> (r: Option<usize>)
    ensures
        match r {
            Some(j) => j < s@.len() && s@[j as int].0@ == key@ && forall|i: int|
                0 <= i < j ==> (#[trigger] s@[i]).0@ != key@,
            None => forall|i: int| 0 <= i < s@.len() ==> (#[trigger] s@[i]).0@ != key@,
        },
{
    let mut i: usize = 0;
    while i < s.len()
        invariant
            i <= s@.len(),
            forall|j: int| 0 <= j < i ==> (#[trigger] s@[j]).0@ != key@,
        decreases s@.len() - i,
    {
        if is_word(&chars_of(s[i].0.as_str()), key) {
            return Some(i);
        }
        i = i + 1;
    }
    None
}

fn number_text(t: &str) -> (r: (u32, &str))
    ensures
        r.0 as nat == number_digits(t@).0,
        r.1@ == number_digits(t@).1,
{
    if starts_with_hex_prefix(t) {
        (16, after_prefix(t))
    } else {
        (10, t)
    }
}

fn text_of(t: &str) -> (r: String)
    ensures
        r@ == t@,
{
    String::from_str(t)
}

fn number_at_most(n: Number, max: u128) -> (r: Result<u128, TokensJsonError>)
    ensures
        outcome(r, number_below(n, max as nat), |x: u128| x as nat),
{
    let negative = match n {
        Number::Finite { mantissa, .. } => mantissa < 0,
        Number::NonFinite => false,
    };
    if negative {
        return Err(TokensJsonError::UnsignedValueExpected(n));
    }
    match integer_parts(n) {
        Some((_, m)) => if m <= max {
            Ok(m)
        } else {
            Err(TokensJsonError::IntegerValueExpected(n))
        },
        None => Err(TokensJsonError::IntegerValueExpected(n)),
    }
}

fn unsigned_integer_of(v: &GenericValue) -> (r: Result<BigNat, TokensJsonError>)
    ensures
        outcome(r, unsigned_integer(v@), |x: BigNat| x@),
{
    match v {
        GenericValue::String(s) => {
            let t = trim(s.as_str());
            let (radix, d) = number_text(t);
            match parse_big_unsigned(d, radix) {
                Some(n) => Ok(n),
                None => Err(TokensJsonError::InvalidNumber(text_of(t))),
            }
        },
        GenericValue::Number(n) => match number_at_most(*n, u64::MAX as u128) {
            Ok(m) => Ok(BigNat::from_u128(m)),
            Err(e) => Err(e),
        },
        _ => Err(TokensJsonError::NumberExpected),
    }
}

fn signed_integer_of(v: &GenericValue) -> (r: Result<BigInteger, TokensJsonError>)
    ensures
        outcome(r, signed_integer(v@), |x: BigInteger| x@),
{
    match v {
        GenericValue::String(s) => {
            let t = trim(s.as_str());
            let (radix, d) = number_text(t);
            match parse_big_signed(d, radix) {
                Some(n) => Ok(n),
                None => Err(TokensJsonError::InvalidNumber(text_of(t))),
            }
        },
        GenericValue::Number(n) => match integer_parts(*n) {
            Some((negative, m)) => {
                let limit: u128 = if negative {
                    0x8000_0000_0000_0000
                } else {
                    0x7fff_ffff_ffff_ffff
                };
                if m <= limit {
                    Ok(BigInteger { negative, magnitude: BigNat::from_u128(m) })
                } else {
                    Err(TokensJsonError::IntegerValueExpected(*n))
                }
            },
            None => Err(TokensJsonError::IntegerValueExpected(*n)),
        },
        _ => Err(TokensJsonError::NumberExpected),
    }
}

fn bounded_unsigned_of(v: &GenericValue, max: u128) -> (r: Result<u128, TokensJsonError>)
    ensures
        outcome(r, bounded_unsigned(v@, max as nat), |x: u128| x as nat),
{
    match v {
        GenericValue::String(s) => {
            let t = trim(s.as_str());
            let (radix, d) = number_text(t);
            match parse_unsigned(&chars_of(d), radix) {
                Some(n) => if n <= max {
                    Ok(n)
                } else {
                    Err(TokensJsonError::InvalidNumber(text_of(t)))
                },
                None => Err(TokensJsonError::InvalidNumber(text_of(t))),
            }
        },
        GenericValue::Number(n) => number_at_most(*n, max),
        _ => Err(TokensJsonError::NumberExpected),
    }
}

fn public_key_from_text(t: &str) -> (r: Result<TokenValue, TokensJsonError>)
    ensures
        outcome(r, public_key_of(t@), |x: TokenValue| x@),
{
    if t.unicode_len() == 0 {
        return Ok(TokenValue::PublicKey(None));
    }
    let h = if starts_with_hex_prefix(t) {
        after_prefix(t)
    } else {
        t
    };
    match hex_decode(h) {
        Some(b) => match public_key_from_bytes(&b) {
            Some(k) => Ok(TokenValue::PublicKey(Some(k))),
            None => Err(TokensJsonError::InvalidPublicKey),
        },
        None => Err(TokensJsonError::InvalidPublicKey),
    }
}

fn bytes_from_text(t: &str, fail: TokensJsonError) -> (r: Result<Vec<u8>, TokensJsonError>)
    ensures
        match base64_decoded(t@) {
            Some(b) => r matches Ok(v) && v@ == b,
            None => r == Err::<Vec<u8>, TokensJsonError>(fail),
        },
{
    match base64_decode(t) {
        Some(b) => Ok(b),
        None => Err(fail),
    }
}

/// The text by which a map entry with this key is keyed.
fn key_text_of(t: &TokenValue) -> (r: String)
    ensures
        r@ == key_text(t@),
{
    match t {
        TokenValue::Uint { number, .. } => big_unsigned_to_decimal(number),
        TokenValue::VarUint { number, .. } => big_unsigned_to_decimal(number),
        TokenValue::Int { number, .. } => big_signed_to_decimal(number),
        TokenValue::VarInt { number, .. } => big_signed_to_decimal(number),
        TokenValue::Address(s) => s.clone(),
        _ => String::new(),
    }
}

proof fn lemma_items_error_stays(k: KindModel, items: Seq<Json>, n: nat, m: nat)
    requires
        n <= m <= items.len(),
        encode_items(k, items, n) is Err,
    ensures
        encode_items(k, items, m) == encode_items(k, items, n),
    decreases m - n,
{
    if m > n {
        lemma_items_error_stays(k, items, n, (m - 1) as nat);
    }
}

proof fn lemma_fields_error_stays(
    ps: Seq<ParamModel>,
    fs: Seq<(Seq<char>, Json)>,
    n: nat,
    m: nat,
)
    requires
        n <= m <= ps.len(),
        encode_fields(ps, fs, n) is Err,
    ensures
        encode_fields(ps, fs, m) == encode_fields(ps, fs, n),
    decreases m - n,
{
    if m > n {
        lemma_fields_error_stays(ps, fs, n, (m - 1) as nat);
    }
}

proof fn lemma_entries_error_stays(k: KindModel, items: Seq<Json>, n: nat, m: nat)
    requires
        n <= m <= items.len(),
        encode_entries(k, items, n) is Err,
    ensures
        encode_entries(k, items, m) == encode_entries(k, items, n),
    decreases m - n,
{
    if m > n {
        lemma_entries_error_stays(k, items, n, (m - 1) as nat);
    }
}

/// The token for `value` as a value of kind `kind`, or the first reason it is none.
pub fn parse_token_value(kind: &ParamKind, value: &GenericValue) -> (r: Result<
    TokenValue,
    TokensJsonError,
>)
    requires
        kind_valid(kind@),
    ensures
        outcome(r, encode_value(kind@, value@), |t: TokenValue| t@),
    decreases kind, 2nat,
{
    match kind {
        ParamKind::Uint(size) => match unsigned_integer_of(value) {
            Ok(n) => Ok(TokenValue::Uint { size: *size, number: n }),
            Err(e) => Err(e),
        },
        ParamKind::VarUint(size) => match unsigned_integer_of(value) {
            Ok(n) => Ok(TokenValue::VarUint { size: *size, number: n }),
            Err(e) => Err(e),
        },
        ParamKind::Int(size) => match signed_integer_of(value) {
            Ok(n) => Ok(TokenValue::Int { size: *size, number: n }),
            Err(e) => Err(e),
        },
        ParamKind::VarInt(size) => match signed_integer_of(value) {
            Ok(n) => Ok(TokenValue::VarInt { size: *size, number: n }),
            Err(e) => Err(e),
        },
        ParamKind::Bool => match value {
            GenericValue::Bool(b) => Ok(TokenValue::Bool(*b)),
            _ => Err(TokensJsonError::BoolExpected),
        },
        ParamKind::Tuple(ps) => {
            proof {
                assert forall|i: int| 0 <= i < ps@.len() implies kind_valid(
                    #[trigger] ps@[i].kind@,
                ) by {
                    assert(params_model(*ps)[i].kind == ps@[i].kind@);
                }
            }
            match parse_tokens_object(ps, value) {
                Ok(ts) => Ok(TokenValue::Tuple(ts)),
                Err(e) => Err(e),
            }
        },
        ParamKind::Array(e) => match value {
            GenericValue::Array(items) => match parse_items(e, items) {
                Ok(ts) => Ok(TokenValue::Array(ts)),
                Err(x) => Err(x),
            },
            _ => Err(TokensJsonError::ArrayExpected),
        },
        ParamKind::FixedArray(e, n) => match value {
            GenericValue::Array(items) => if items.len() != *n {
                Err(TokensJsonError::InvalidArrayLength(items.len()))
            } else {
                match parse_items(e, items) {
                    Ok(ts) => Ok(TokenValue::FixedArray(ts)),
                    Err(x) => Err(x),
                }
            },
            _ => Err(TokensJsonError::ArrayExpected),
        },
        ParamKind::Cell => match value {
            GenericValue::String(s) => {
                let t = trim(s.as_str());
                if t.unicode_len() == 0 {
                    Ok(TokenValue::Cell(Vec::new()))
                } else {
                    match bytes_from_text(t, TokensJsonError::InvalidCell) {
                        Ok(b) => Ok(TokenValue::Cell(b)),
                        Err(e) => Err(e),
                    }
                }
            },
            GenericValue::Null => Ok(TokenValue::Cell(Vec::new())),
            _ => Err(TokensJsonError::StringExpected),
        },
        ParamKind::Mapping(_, _) => match value {
            GenericValue::Array(items) => match parse_entries(kind, items) {
                Ok(m) => Ok(TokenValue::Mapping(m)),
                Err(x) => Err(x),
            },
            _ => Err(TokensJsonError::ArrayExpected),
        },
        ParamKind::Address => match value {
            GenericValue::String(s) => Ok(TokenValue::Address(text_of(trim(s.as_str())))),
            _ => Err(TokensJsonError::StringExpected),
        },
        ParamKind::Bytes => match value {
            GenericValue::String(s) => {
                let t = trim(s.as_str());
                if t.unicode_len() == 0 {
                    Ok(TokenValue::Bytes(Vec::new()))
                } else {
                    match bytes_from_text(t, TokensJsonError::InvalidBytes) {
                        Ok(b) => Ok(TokenValue::Bytes(b)),
                        Err(e) => Err(e),
                    }
                }
            },
            _ => Err(TokensJsonError::StringExpected),
        },
        ParamKind::FixedBytes(n) => match value {
            GenericValue::String(s) => match bytes_from_text(
                trim(s.as_str()),
                TokensJsonError::InvalidBytes,
            ) {
                Ok(b) => if b.len() != *n {
                    Err(TokensJsonError::InvalidBytesLength(b.len()))
                } else {
                    Ok(TokenValue::FixedBytes(b))
                },
                Err(e) => Err(e),
            },
            _ => Err(TokensJsonError::StringExpected),
        },
        ParamKind::String => match value {
            GenericValue::String(s) => Ok(TokenValue::String(s.clone())),
            _ => Err(TokensJsonError::StringExpected),
        },
        ParamKind::Token => match bounded_unsigned_of(value, u128::MAX) {
            Ok(n) => Ok(TokenValue::Token(n)),
            Err(e) => Err(e),
        },
        ParamKind::Time => match bounded_unsigned_of(value, u64::MAX as u128) {
            Ok(n) => Ok(TokenValue::Time(n as u64)),
            Err(e) => Err(e),
        },
        ParamKind::Expire => match bounded_unsigned_of(value, u32::MAX as u128) {
            Ok(n) => Ok(TokenValue::Expire(n as u32)),
            Err(e) => Err(e),
        },
        ParamKind::PublicKey => match value {
            GenericValue::Null => Ok(TokenValue::PublicKey(None)),
            GenericValue::String(s) => public_key_from_text(trim(s.as_str())),
            _ => Err(TokensJsonError::StringExpected),
        },
        ParamKind::Optional(e) => match value {
            GenericValue::Null => Ok(TokenValue::Optional(None)),
            _ => match parse_token_value(e, value) {
                Ok(t) => Ok(TokenValue::Optional(Some(Box::new(t)))),
                Err(x) => Err(x),
            },
        },
    }
}

/// The tokens for the items of an array, each of kind `elem`.
fn parse_items(elem: &ParamKind, items: &Vec<GenericValue>) -> (r: Result<
    Vec<TokenValue>,
    TokensJsonError,
>)
    requires
        kind_valid(elem@),
    ensures
        outcome(
            r,
            encode_items(elem@, json_items(*items), items@.len()),
            |ts: Vec<TokenValue>| token_models(ts),
        ),
    decreases elem, 3nat,
{
    let ghost ek = elem@;
    let ghost m = json_items(*items);
    let mut out: Vec<TokenValue> = Vec::new();
    let mut i: usize = 0;
    assert(token_models(out) =~= Seq::<TokenModel>::empty());
    while i < items.len()
        invariant
            i <= items@.len(),
            kind_valid(ek),
            ek == elem@,
            m == json_items(*items),
            encode_items(ek, m, i as nat) == Ok::<Seq<TokenModel>, ErrorModel>(token_models(out)),
        decreases items@.len() - i,
    {
        assert(m[i as int] == items@[i as int]@);
        match parse_token_value(elem, &items[i]) {
            Ok(t) => {
                let ghost before = out;
                out.push(t);
                assert(token_models(out) =~= token_models(before).push(t@));
            },
            Err(x) => {
                proof {
                    assert(encode_items(ek, m, (i + 1) as nat) == Err::<Seq<TokenModel>, ErrorModel>(
                        x@,
                    ));
                    lemma_items_error_stays(ek, m, (i + 1) as nat, items@.len());
                }
                return Err(x);
            },
        }
        i = i + 1;
    }
    Ok(out)
}

/// The tokens for an object, one per parameter in order: the object has as many keys as
/// there are parameters, and each parameter's name among them.
pub fn parse_tokens_object(params: &Vec<Param>, value: &GenericValue) -> (r: Result<
    Vec<Token>,
    TokensJsonError,
>)
    requires
        forall|i: int| 0 <= i < params@.len() ==> kind_valid(#[trigger] params@[i].kind@),
    ensures
        outcome(r, encode_object(params_model(*params), value@), |ts: Vec<Token>| tokens_model(ts)),
    decreases params, 1nat,
{
    let ghost ps = params_model(*params);
    match value {
        GenericValue::Object(fs) => {
            if fs.len() != params.len() {
                return Err(TokensJsonError::ParameterCountMismatch);
            }
            let ghost fm = json_fields(*fs);
            let mut out: Vec<Token> = Vec::new();
            let mut i: usize = 0;
            assert(tokens_model(out) =~= Seq::<(Seq<char>, TokenModel)>::empty());
            assert(value@ == Json::Object(fm));
            while i < params.len()
                invariant
                    i <= params@.len(),
                    value@ == Json::Object(fm),
                    ps == params_model(*params),
                    fm == json_fields(*fs),
                    fs@.len() == params@.len(),
                    forall|j: int| 0 <= j < params@.len() ==> kind_valid(#[trigger] params@[j].kind@),
                    encode_fields(ps, fm, i as nat) == Ok::<
                        Seq<(Seq<char>, TokenModel)>,
                        ErrorModel,
                    >(tokens_model(out)),
                decreases params@.len() - i,
            {
                let p = &params[i];
                assert(ps[i as int].name == p.name@);
                assert(ps[i as int].kind == p.kind@);
                let key = chars_of(p.name.as_str());
                let found = find_key(fs, &key);
                proof {
                    assert forall|j: int| 0 <= j < fs@.len() implies #[trigger] fm[j].0 == fs@[j].0@ by {}
                    match found {
                        Some(j) => lemma_key_index_first(fm, key@, j as int),
                        None => lemma_key_index_first(fm, key@, fm.len() as int),
                    }
                }
                match found {
                    None => {
                        proof {
                            assert(key_index(fm, ps[i as int].name) == -1);
                            assert(encode_fields(ps, fm, (i + 1) as nat) == Err::<Seq<(Seq<char>, TokenModel)>, ErrorModel>(ErrorModel::ParameterNotFound(p.name@)));
                            lemma_fields_error_stays(ps, fm, (i + 1) as nat, params@.len());
                            assert(value@ == Json::Object(fm));
                            assert(encode_object(ps, value@) == encode_fields(ps, fm, params@.len()));
                        }
                        return Err(TokensJsonError::ParameterNotFound(p.name.clone()));
                    },
                    Some(j) => {
                        assert(fm[j as int].1 == fs@[j as int].1@);
                        match parse_token_value(&p.kind, &fs[j].1) {
                            Ok(t) => {
                                let ghost before = out;
                                out.push(Token { name: p.name.clone(), value: t });
                                assert(tokens_model(out) =~= tokens_model(before).push(
                                    (p.name@, t@),
                                ));
                            },
                            Err(x) => {
                                proof {
                                    lemma_fields_error_stays(ps, fm, (i + 1) as nat, params@.len());
                                }
                                return Err(x);
                            },
                        }
                    },
                }
                i = i + 1;
            }
            Ok(out)
        },
        _ => Err(TokensJsonError::ObjectExpected),
    }
}

/// The entries of a map of kind `kind`, keyed by the text of their keys.
fn parse_entries(kind: &ParamKind, items: &Vec<GenericValue>) -> (r: Result<
    Vec<(String, TokenValue)>,
    TokensJsonError,
>)
    requires
        kind_valid(kind@),
        kind is Mapping,
    ensures
        outcome(
            r,
            encode_entries(kind@, json_items(*items), items@.len()),
            |es: Vec<(String, TokenValue)>| entries_model(es),
        ),
    decreases kind, 1nat,
{
    match kind {
        ParamKind::Mapping(kk, vk) => {
            let ghost m = json_items(*items);
            let mut out: Vec<(String, TokenValue)> = Vec::new();
            let mut i: usize = 0;
            assert(entries_model(out) =~= Seq::<(Seq<char>, TokenModel)>::empty());
            while i < items.len()
                invariant
                    i <= items@.len(),
                    kind_valid(kind@),
                    *kind == ParamKind::Mapping(*kk, *vk),
                    m == json_items(*items),
                    encode_entries(kind@, m, i as nat) == Ok::<
                        Seq<(Seq<char>, TokenModel)>,
                        ErrorModel,
                    >(entries_model(out)),
                decreases items@.len() - i,
            {
                assert(m[i as int] == items@[i as int]@);
                match &items[i] {
                    GenericValue::Array(pair) => {
                        if pair.len() != 2 {
                            proof {
                                lemma_entries_error_stays(kind@, m, (i + 1) as nat, items@.len());
                            }
                            return Err(TokensJsonError::MapItemExpected);
                        }
                        assert(json_items(*pair)[0] == pair@[0]@);
                        assert(json_items(*pair)[1] == pair@[1]@);
                        let key = match parse_token_value(kk, &pair[0]) {
                            Ok(t) => t,
                            Err(x) => {
                                proof {
                                    lemma_entries_error_stays(kind@, m, (i + 1) as nat, items@.len());
                                }
                                return Err(x);
                            },
                        };
                        let val = match parse_token_value(vk, &pair[1]) {
                            Ok(t) => t,
                            Err(x) => {
                                proof {
                                    lemma_entries_error_stays(kind@, m, (i + 1) as nat, items@.len());
                                }
                                return Err(x);
                            },
                        };
                        let text = key_text_of(&key);
                        let ghost before = out;
                        let found = find_key(&out, &chars_of(text.as_str()));
                        proof {
                            let em = entries_model(before);
                            assert forall|j: int| 0 <= j < before@.len() implies #[trigger] em[j].0 == before@[j].0@ by {}
                            match found {
                                Some(j) => lemma_key_index_first(em, text@, j as int),
                                None => lemma_key_index_first(em, text@, em.len() as int),
                            }
                        }
                        match found {
                            Some(j) => {
                                let ghost vm = val@;
                                out.set(j, (text, val));
                                assert(entries_model(out) =~= entries_model(before).update(
                                    j as int,
                                    (key_text(key@), vm),
                                ));
                            },
                            None => {
                                let ghost vm = val@;
                                let ghost tm = text@;
                                out.push((text, val));
                                assert(entries_model(out) =~= entries_model(before).push(
                                    (tm, vm),
                                ));
                            },
                        }
                    },
                    _ => {
                        proof {
                            lemma_entries_error_stays(kind@, m, (i + 1) as nat, items@.len());
                        }
                        return Err(TokensJsonError::MapItemExpected);
                    },
                }
                i = i + 1;
            }
            Ok(out)
        },
        _ => Ok(Vec::new()),
    }
}

/// The token for `value` as a value of the parameter, named after it.
pub fn parse_token(param: &Param, value: &GenericValue) -> (r: Result<Token, TokensJsonError>)
    requires
        kind_valid(param.kind@),
    ensures
        outcome(r, encode_value(param.kind@, value@), |t: Token| t.value@),
        r matches Ok(t) ==> t.name@ == param.name@,
{
    match parse_token_value(&param.kind, value) {
        Ok(v) => Ok(Token { name: param.name.clone(), value: v }),
        Err(e) => Err(e),
    }
}

} // verus!
