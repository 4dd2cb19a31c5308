//! Decoding gives back a value that encoding read, for every kind but cells and maps.
use vstd::prelude::*;

use crate::codecs::{
    base64_decoded, base64_text, big_digits, big_unsigned_text_value, hex_decoded, hex_text,
    is_public_key_point, without_separators,
};
use crate::decode::{decode_fields, decode_items, decode_value};
use crate::encode::{
    encode_fields, encode_items, encode_object, encode_value, lemma_key_index_first,
    number_below, number_digits, public_key_of, signed_integer, unsigned_integer,
};
use crate::grammar_laws::lemma_decimal;
use crate::kinds::{KindModel, ParamModel};
use crate::number::{abs_int, two_pow, Number};
use crate::text::{
    all_digits, decimal, digit_char, digit_value, digits_value, has_hex_prefix, is_whitespace,
    signed_decimal, trim_end, trim_start, trimmed, unsigned_digits, unsigned_text_value,
};
use crate::values::{Json, TokenModel};

verus! {

/// A value in the form that decoding gives, for a kind other than a cell or a map: integers
/// as decimal text (an `Expire` as a number), bytes as base64 text that reads back, a public
/// key as lower-case hex, an object that lists a tuple's fields in order under distinct names.
pub open spec fn canonical(k: KindModel, v: Json) -> bool
    decreases k,
{
    match k {
        KindModel::Uint(_) | KindModel::VarUint(_) => v matches Json::Str(s) && s == decimal(
            digits_value(s, 10),
        ),
        KindModel::Int(_) | KindModel::VarInt(_) => v matches Json::Str(s) && ((s.len() > 0
            && s[0] == '-' && s.drop_first() == decimal(digits_value(s.drop_first(), 10))
            && digits_value(s.drop_first(), 10) > 0) || s == decimal(digits_value(s, 10))),
        KindModel::Bool => v is Bool,
        KindModel::String => v is Str,
        KindModel::Address => v matches Json::Str(s) && trimmed(s) == s,
        KindModel::Bytes => v matches Json::Str(s) && s.len() > 0 && trimmed(s) == s && (
        base64_decoded(s) matches Some(b) && base64_text(b) == s),
        KindModel::FixedBytes(n) => v matches Json::Str(s) && trimmed(s) == s && (base64_decoded(
            s,
        ) matches Some(b) && base64_text(b) == s && b.len() == n),
        KindModel::Token => v matches Json::Str(s) && s == decimal(digits_value(s, 10))
            && digits_value(s, 10) <= u128::MAX,
        KindModel::Time => v matches Json::Str(s) && s == decimal(digits_value(s, 10))
            && digits_value(s, 10) <= u64::MAX,
        KindModel::Expire => v matches Json::Number(n) && n == Number::Finite {
            mantissa: n->mantissa,
            exponent: 0,
        } && 0 <= n->mantissa <= u32::MAX,
        KindModel::PublicKey => v is Null || (v matches Json::Str(s) && s.len() == 64 && (
        hex_decoded(s) matches Some(b) && hex_text(b) == s && is_public_key_point(b))),
        KindModel::Optional(e) => v is Null || canonical(*e, v),
        KindModel::Array(e) => v matches Json::Array(items) && forall|i: int|
            0 <= i < items.len() ==> canonical(*e, #[trigger] items[i]),
        KindModel::FixedArray(e, n) => v matches Json::Array(items) && items.len() == n && forall|
            i: int,
        |
            0 <= i < items.len() ==> canonical(*e, #[trigger] items[i]),
        KindModel::Tuple(ps) => v matches Json::Object(fs) && fs.len() == ps.len() && (forall|
            i: int,
        |
            0 <= i < fs.len() ==> (#[trigger] fs[i]).0 == ps[i].name && canonical(
                ps[i].kind,
                fs[i].1,
            )) && (forall|i: int, j: int|
            0 <= i < j < ps.len() ==> (#[trigger] ps[i]).name != (#[trigger] ps[j]).name),
        KindModel::Cell | KindModel::Mapping(_, _) => false,
    }
}

proof fn lemma_digits_text(s: Seq<char>)
    requires
        s == decimal(digits_value(s, 10)),
    ensures
        s.len() >= 1,
        trimmed(s) == s,
        !has_hex_prefix(s),
        s[0] != '+' && s[0] != '-' && s[0] != '_',
        all_digits(s, 10),
        without_separators(s) == s,
        unsigned_text_value(s, 10) == Some(digits_value(s, 10)),
        big_unsigned_text_value(s, 10) == Some(digits_value(s, 10)),
{
    let n = digits_value(s, 10);
    lemma_decimal(n);
    assert(forall|i: int| 0 <= i < s.len() ==> '0' <= #[trigger] s[i] <= '9');
    assert(!is_whitespace(s[0]));
    assert(trim_start(s) == s);
    assert(!is_whitespace(s.last()));
    assert(trim_end(s) == s);
    assert forall|i: int| 0 <= i < s.len() implies digit_value(#[trigger] s[i]) < 10 by {
        assert('0' <= s[i] <= '9');
    }
    lemma_no_separators(s);
    assert(unsigned_digits(s) == s);
    assert(big_digits(s) == s);
}

proof fn lemma_no_separators(s: Seq<char>)
    requires
        forall|i: int| 0 <= i < s.len() ==> '0' <= #[trigger] s[i] <= '9',
    ensures
        without_separators(s) == s,
    decreases s.len(),
{
    if s.len() > 0 {
        let t = s.drop_last();
        assert forall|i: int| 0 <= i < t.len() implies '0' <= #[trigger] t[i] <= '9' by {
            assert(t[i] == s[i]);
        }
        lemma_no_separators(t);
        assert(s.last() != '_');
        assert(t.push(s.last()) =~= s);
    }
}

proof fn lemma_round_trip_unsigned(s: Seq<char>)
    requires
        s == decimal(digits_value(s, 10)),
    ensures
        unsigned_integer(Json::Str(s)) == Ok::<nat, crate::error::ErrorModel>(digits_value(s, 10)),
{
    lemma_digits_text(s);
}

proof fn lemma_round_trip_signed(s: Seq<char>)
    requires
        (s.len() > 0 && s[0] == '-' && s.drop_first() == decimal(digits_value(s.drop_first(), 10))
            && digits_value(s.drop_first(), 10) > 0) || s == decimal(digits_value(s, 10)),
    ensures
        signed_integer(Json::Str(s)) matches Ok(x) && signed_decimal(x) == s,
{
    if s == decimal(digits_value(s, 10)) {
        lemma_digits_text(s);
    } else {
        let t = s.drop_first();
        lemma_digits_text(t);
        assert(!is_whitespace(s[0]));
        assert(trim_start(s) == s);
        assert(s.last() == t.last());
        assert(!is_whitespace(s.last())) by {
            assert(t[t.len() - 1] == s[s.len() - 1]);
            assert('0' <= t[t.len() - 1] <= '9');
        }
        assert(trim_end(s) == s);
        assert(t[0] != '+');
        assert(seq!['-'] + t =~= s);
    }
}

proof fn lemma_hex_digit(d: nat)
    requires
        d < 16,
    ensures
        digit_value(digit_char(d)) == d,
        !is_whitespace(digit_char(d)),
        digit_char(d) != 'x',
{
}

proof fn lemma_round_trip_public_key(s: Seq<char>, b: Seq<u8>)
    requires
        s.len() == 64,
        hex_decoded(s) == Some(b),
        hex_text(b) == s,
        is_public_key_point(b),
    ensures
        public_key_of(trimmed(s)) == Ok::<TokenModel, crate::error::ErrorModel>(
            TokenModel::PublicKey(Some(b)),
        ),
{
    assert(b.len() == 32);
    lemma_hex_digit((b[0] / 16) as nat);
    lemma_hex_digit((b[0] % 16) as nat);
    lemma_hex_digit((b[31] % 16) as nat);
    assert(s[0] == digit_char((b[0] / 16) as nat));
    assert(s[1] == digit_char((b[0] % 16) as nat));
    assert(s[63] == digit_char((b[31] % 16) as nat));
    assert(trim_start(s) == s);
    assert(trim_end(s) == s);
}

proof fn lemma_round_trip_items(e: KindModel, items: Seq<Json>, n: nat)
    requires
        n <= items.len(),
        forall|i: int| 0 <= i < items.len() ==> canonical(e, #[trigger] items[i]),
    ensures
        encode_items(e, items, n) matches Ok(ts) && ts.len() == n && forall|j: int|
            0 <= j < n ==> decode_value(#[trigger] ts[j]) == items[j],
    decreases e, n,
{
    if n > 0 {
        lemma_round_trip_items(e, items, (n - 1) as nat);
        lemma_round_trip(e, items[n - 1]);
        let ts = encode_items(e, items, (n - 1) as nat)->Ok_0;
        let t = encode_value(e, items[n - 1])->Ok_0;
        assert forall|j: int| 0 <= j < n implies decode_value(#[trigger] ts.push(t)[j])
            == items[j] by {
            if j < n - 1 {
                assert(ts.push(t)[j] == ts[j]);
            }
        }
    }
}

proof fn lemma_round_trip_fields(ps: Seq<ParamModel>, fs: Seq<(Seq<char>, Json)>, n: nat)
    requires
        n <= ps.len(),
        fs.len() == ps.len(),
        forall|i: int|
            0 <= i < fs.len() ==> (#[trigger] fs[i]).0 == ps[i].name && canonical(
                ps[i].kind,
                fs[i].1,
            ),
        forall|i: int, j: int|
            0 <= i < j < ps.len() ==> (#[trigger] ps[i]).name != (#[trigger] ps[j]).name,
    ensures
        encode_fields(ps, fs, n) matches Ok(ts) && ts.len() == n && forall|j: int|
            0 <= j < n ==> (#[trigger] ts[j]).0 == fs[j].0 && decode_value(ts[j].1) == fs[j].1,
    decreases ps, n,
{
    if n > 0 {
        let i = n - 1;
        lemma_round_trip_fields(ps, fs, (n - 1) as nat);
        assert forall|j: int| 0 <= j < i implies (#[trigger] fs[j]).0 != ps[i].name by {
            assert(ps[j].name != ps[i].name);
        }
        assert(fs[i].0 == ps[i].name);
        lemma_key_index_first(fs, ps[i].name, i);
        lemma_round_trip(ps[i].kind, fs[i].1);
        let ts = encode_fields(ps, fs, (n - 1) as nat)->Ok_0;
        let t = encode_value(ps[i].kind, fs[i].1)->Ok_0;
        let us = ts.push((ps[i].name, t));
        assert forall|j: int| 0 <= j < n implies (#[trigger] us[j]).0 == fs[j].0 && decode_value(
            us[j].1,
        ) == fs[j].1 by {
            if j < i {
                assert(us[j] == ts[j]);
            }
        }
    }
}

/// Decoding the token that a value in decoded form encodes to gives the value back, for
/// every kind but cells and maps.
pub proof fn lemma_round_trip(k: KindModel, v: Json)
    requires
        canonical(k, v),
    ensures
        encode_value(k, v) matches Ok(t) && decode_value(t) == v,
    decreases k, 0nat,
{
    match k {
        KindModel::Uint(_) | KindModel::VarUint(_) => {
            let s = v->Str_0;
            lemma_round_trip_unsigned(s);
            assert(decimal(digits_value(s, 10)) == s);
        },
        KindModel::Int(_) | KindModel::VarInt(_) => {
            let s = v->Str_0;
            lemma_round_trip_signed(s);
        },
        KindModel::Token | KindModel::Time => {
            let s = v->Str_0;
            lemma_digits_text(s);
            assert(number_digits(trimmed(s)) == (10nat, s));
        },
        KindModel::Expire => {
            let n = v->Number_0;
            let m = n->mantissa;
            assert(n == Number::Finite { mantissa: m, exponent: 0 });
            assert(two_pow(0) == 1);
            assert(abs_int(m as int) == m);
            assert(n.magnitude() == abs_int(m as int) * two_pow(0));
            assert(n.is_integer());
            assert(!n.is_negative());
            assert(number_below(n, u32::MAX as nat) == Ok::<nat, crate::error::ErrorModel>(m as nat));
            assert(Number::spec_of_integer(m as nat as int) == n);
        },
        KindModel::Bytes => {
            let s = v->Str_0;
            assert(trimmed(s) == s);
        },
        KindModel::FixedBytes(_) => {
            let s = v->Str_0;
            assert(trimmed(s) == s);
        },
        KindModel::PublicKey => {
            if let Json::Str(s) = v {
                let b = hex_decoded(s)->Some_0;
                lemma_round_trip_public_key(s, b);
            }
        },
        KindModel::Optional(e) => {
            if !(v is Null) {
                lemma_round_trip(*e, v);
            }
        },
        KindModel::Array(e) => {
            let items = v->Array_0;
            lemma_round_trip_items(*e, items, items.len());
            let ts = encode_items(*e, items, items.len())->Ok_0;
            assert(decode_items(ts) =~= items);
        },
        KindModel::FixedArray(e, _) => {
            let items = v->Array_0;
            lemma_round_trip_items(*e, items, items.len());
            let ts = encode_items(*e, items, items.len())->Ok_0;
            assert(decode_items(ts) =~= items);
        },
        KindModel::Tuple(ps) => {
            let fs = v->Object_0;
            lemma_round_trip_fields(ps, fs, ps.len());
            let ts = encode_fields(ps, fs, ps.len())->Ok_0;
            assert(encode_object(ps, v) == encode_fields(ps, fs, ps.len()));
            assert(decode_fields(ts) =~= fs);
        },
        _ => {},
    }
}

} // verus!
