//! From typed tokens back to a generic value tree.
use vstd::prelude::*;

use crate::codecs::{
    base64_encode, base64_text, big_signed_to_decimal, big_unsigned_to_decimal, hex_encode,
    hex_text,
};
use crate::number::Number;
use crate::text::{decimal, signed_decimal, u128_to_decimal};
use crate::values::{
    entries_model, json_fields, json_items, json_model, token_models, tokens_model, GenericValue, Json, Token,
    TokenModel, TokenValue,
};

verus! {

/// The generic value that stands for a token.
pub open spec fn decode_value(t: TokenModel) -> Json
    decreases t,
{
    match t {
        TokenModel::Uint { number, .. } => Json::Str(decimal(number)),
        TokenModel::VarUint { number, .. } => Json::Str(decimal(number)),
        TokenModel::Int { number, .. } => Json::Str(signed_decimal(number)),
        TokenModel::VarInt { number, .. } => Json::Str(signed_decimal(number)),
        TokenModel::Bool(b) => Json::Bool(b),
        TokenModel::Tuple(ts) => Json::Object(decode_fields(ts)),
        TokenModel::Array(vs) => Json::Array(decode_items(vs)),
        TokenModel::FixedArray(vs) => Json::Array(decode_items(vs)),
        TokenModel::Cell(b) => Json::Str(base64_text(b)),
        TokenModel::Mapping(es) => Json::Array(decode_entries(es)),
        TokenModel::Address(s) => Json::Str(s),
        TokenModel::Bytes(b) => Json::Str(base64_text(b)),
        TokenModel::FixedBytes(b) => Json::Str(base64_text(b)),
        TokenModel::Str(s) => Json::Str(s),
        TokenModel::Token(n) => Json::Str(decimal(n)),
        TokenModel::Time(n) => Json::Str(decimal(n)),
        TokenModel::Expire(n) => Json::Number(Number::spec_of_integer(n as int)),
        TokenModel::PublicKey(k) => match k {
            Some(b) => Json::Str(hex_text(b)),
            None => Json::Null,
        },
        TokenModel::Optional(o) => match o {
            Some(b) => decode_value(*b),
            None => Json::Null,
        },
    }
}

/// The generic values for a sequence of tokens.
pub open spec fn decode_items(vs: Seq<TokenModel>) -> Seq<Json>
    decreases vs,
{
    Seq::new(
        vs.len(),
        |i: int|
            if 0 <= i < vs.len() {
                decode_value(vs[i])
            } else {
                Json::Null
            },
    )
}

/// The object entries for named tokens, keyed by their names in order.
pub open spec fn decode_fields(ts: Seq<(Seq<char>, TokenModel)>) -> Seq<(Seq<char>, Json)>
    decreases ts,
{
    Seq::new(
        ts.len(),
        |i: int|
            if 0 <= i < ts.len() {
                (ts[i].0, decode_value(ts[i].1))
            } else {
                (Seq::empty(), Json::Null)
            },
    )
}

/// Map entries as key and value pairs.
pub open spec fn decode_entries(es: Seq<(Seq<char>, TokenModel)>) -> Seq<Json>
    decreases es,
{
    Seq::new(
        es.len(),
        |i: int|
            if 0 <= i < es.len() {
                Json::Array(seq![Json::Str(es[i].0), decode_value(es[i].1)])
            } else {
                Json::Null
            },
    )
}

fn text_value(s: String) -> (r: GenericValue)
    ensures
        r@ == Json::Str(s@),
{
    GenericValue::String(s)
}

fn decode_sequence(vs: &Vec<TokenValue>) -> (r: Vec<GenericValue>)
    ensures
        json_items(r) == decode_items(token_models(*vs)),
    decreases vs, 1nat,
{
    let ghost tm = token_models(*vs);
    let mut out: Vec<GenericValue> = Vec::new();
    let mut i: usize = 0;
    while i < vs.len()
        invariant
            i <= vs@.len(),
            tm == token_models(*vs),
            out@.len() == i,
            forall|j: int| 0 <= j < i ==> json_model(#[trigger] out@[j]) == decode_value(tm[j]),
        decreases vs@.len() - i,
    {
        assert(tm[i as int] == vs@[i as int]@);
        let g = make_token_value(&vs[i]);
        out.push(g);
        i = i + 1;
    }
    assert(json_items(out) =~= decode_items(tm));
    out
}

/// The generic value for a token: integers as decimal text (an `Expire` as a number), bytes
/// and cells as base64, a public key as hex, an absent value as null, a tuple as an object and
/// a map as a sequence of key and value pairs.
pub fn make_token_value(value: &TokenValue) -> (r: GenericValue)
    ensures
        r@ == decode_value(value@),
    decreases value, 2nat,
{
    match value {
        TokenValue::Uint { number, .. } => text_value(big_unsigned_to_decimal(number)),
        TokenValue::VarUint { number, .. } => text_value(big_unsigned_to_decimal(number)),
        TokenValue::Int { number, .. } => text_value(big_signed_to_decimal(number)),
        TokenValue::VarInt { number, .. } => text_value(big_signed_to_decimal(number)),
        TokenValue::Bool(b) => GenericValue::Bool(*b),
        TokenValue::Tuple(ts) => make_tokens_object(ts),
        TokenValue::Array(vs) => GenericValue::Array(decode_sequence(vs)),
        TokenValue::FixedArray(vs) => GenericValue::Array(decode_sequence(vs)),
        TokenValue::Cell(b) => text_value(base64_encode(b)),
        TokenValue::Mapping(es) => GenericValue::Array(decode_map(es)),
        TokenValue::Address(s) => text_value(s.clone()),
        TokenValue::Bytes(b) => text_value(base64_encode(b)),
        TokenValue::FixedBytes(b) => text_value(base64_encode(b)),
        TokenValue::String(s) => text_value(s.clone()),
        TokenValue::Token(n) => text_value(u128_to_decimal(*n)),
        TokenValue::Time(n) => text_value(u128_to_decimal(*n as u128)),
        TokenValue::Expire(n) => GenericValue::Number(Number::from_u32(*n)),
        TokenValue::PublicKey(k) => match k {
            Some(b) => text_value(hex_encode(b)),
            None => GenericValue::Null,
        },
        TokenValue::Optional(o) => match o {
            Some(b) => make_token_value(b),
            None => GenericValue::Null,
        },
    }
}

fn decode_map(es: &Vec<(String, TokenValue)>) -> (r: Vec<GenericValue>)
    ensures
        json_items(r) == decode_entries(entries_model(*es)),
    decreases es, 1nat,
{
    let ghost em = entries_model(*es);
    let mut out: Vec<GenericValue> = Vec::new();
    let mut i: usize = 0;
    while i < es.len()
        invariant
            i <= es@.len(),
            em == entries_model(*es),
            out@.len() == i,
            forall|j: int|
                0 <= j < i ==> json_model(#[trigger] out@[j]) == Json::Array(
                    seq![Json::Str(em[j].0), decode_value(em[j].1)],
                ),
        decreases es@.len() - i,
    {
        let (k, v) = &es[i];
        assert(em[i as int] == (k@, v@));
        let key = text_value(k.clone());
        let val = make_token_value(v);
        let pair = vec![key, val];
        assert(json_items(pair) =~= seq![Json::Str(em[i as int].0), decode_value(em[i as int].1)]);
        out.push(GenericValue::Array(pair));
        i = i + 1;
    }
    assert(json_items(out) =~= decode_entries(em));
    out
}

/// The object for named tokens: each name keyed to the generic value of its token, in order.
pub fn make_tokens_object(tokens: &Vec<Token>) -> (r: GenericValue)
    ensures
        r@ == Json::Object(decode_fields(tokens_model(*tokens))),
    decreases tokens, 1nat,
{
    let ghost tm = tokens_model(*tokens);
    let mut out: Vec<(String, GenericValue)> = Vec::new();
    let mut i: usize = 0;
    while i < tokens.len()
        invariant
            i <= tokens@.len(),
            tm == tokens_model(*tokens),
            out@.len() == i,
            forall|j: int|
                0 <= j < i ==> (#[trigger] out@[j]).0@ == tm[j].0 && json_model(out@[j].1)
                    == decode_value(tm[j].1),
        decreases tokens@.len() - i,
    {
        assert(tm[i as int] == (tokens@[i as int].name@, tokens@[i as int].value@));
        let t = &tokens[i];
        let g = make_token_value(&t.value);
        out.push((t.name.clone(), g));
        i = i + 1;
    }
    assert(json_fields(out) =~= decode_fields(tm));
    GenericValue::Object(out)
}

} // verus!
