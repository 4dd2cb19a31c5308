//! Generic value trees, typed token values, and their models.
use vstd::prelude::*;

use crate::number::{BigInteger, BigNat, Number};

verus! {

/// A loosely typed value tree, as exchanged with a caller.
#[derive(Debug, PartialEq)]
pub enum GenericValue {
    Null,
    Bool(bool),
    Number(Number),
    String(String),
    Array(Vec<GenericValue>),
    /// Entries of an object, with distinct keys.
    Object(Vec<(String, GenericValue)>),
}

pub enum Json {
    Null,
    Bool(bool),
    Number(Number),
    Str(Seq<char>),
    Array(Seq<Json>),
    Object(Seq<(Seq<char>, Json)>),
}

pub open spec fn json_model(v: GenericValue) -> Json
    decreases v,
{
    match v {
        GenericValue::Null => Json::Null,
        GenericValue::Bool(b) => Json::Bool(b),
        GenericValue::Number(n) => Json::Number(n),
        GenericValue::String(s) => Json::Str(s@),
        GenericValue::Array(vs) => Json::Array(json_items(vs)),
        GenericValue::Object(fs) => Json::Object(json_fields(fs)),
    }
}

pub open spec fn json_items(vs: Vec<GenericValue>) -> Seq<Json>
    decreases vs,
{
    Seq::new(
        vs.len() as nat,
        |i: int|
            if 0 <= i < vs.len() {
                json_model(vs[i])
            } else {
                Json::Null
            },
    )
}

pub open spec fn json_fields(fs: Vec<(String, GenericValue)>) -> Seq<(Seq<char>, Json)>
    decreases fs,
{
    Seq::new(
        fs.len() as nat,
        |i: int|
            if 0 <= i < fs.len() {
                (fs[i].0@, json_model(fs[i].1))
            } else {
                (Seq::empty(), Json::Null)
            },
    )
}

impl View for GenericValue {
    type V = Json;

    open spec fn view(&self) -> Json {
        json_model(*self)
    }
}

/// A typed value, of the kind it was produced for.
#[derive(Debug, PartialEq)]
pub enum TokenValue {
    Uint { size: usize, number: BigNat },
    Int { size: usize, number: BigInteger },
    VarUint { size: usize, number: BigNat },
    VarInt { size: usize, number: BigInteger },
    Bool(bool),
    Tuple(Vec<Token>),
    Array(Vec<TokenValue>),
    FixedArray(Vec<TokenValue>),
    /// A serialized tree of cells.
    Cell(Vec<u8>),
    /// Entries keyed by the text of their key, in the order in which keys first came.
    Mapping(Vec<(String, TokenValue)>),
    Address(String),
    Bytes(Vec<u8>),
    FixedBytes(Vec<u8>),
    String(String),
    Token(u128),
    Time(u64),
    Expire(u32),
    PublicKey(Option<Vec<u8>>),
    Optional(Option<Box<TokenValue>>),
}

/// A named typed value.
#[derive(Debug, PartialEq)]
pub struct Token {
    pub name: String,
    pub value: TokenValue,
}

pub enum TokenModel {
    Uint { size: nat, number: nat },
    Int { size: nat, number: int },
    VarUint { size: nat, number: nat },
    VarInt { size: nat, number: int },
    Bool(bool),
    Tuple(Seq<(Seq<char>, TokenModel)>),
    Array(Seq<TokenModel>),
    FixedArray(Seq<TokenModel>),
    Cell(Seq<u8>),
    Mapping(Seq<(Seq<char>, TokenModel)>),
    Address(Seq<char>),
    Bytes(Seq<u8>),
    FixedBytes(Seq<u8>),
    Str(Seq<char>),
    Token(nat),
    Time(nat),
    Expire(nat),
    PublicKey(Option<Seq<u8>>),
    Optional(Option<Box<TokenModel>>),
}

pub open spec fn token_model(t: TokenValue) -> TokenModel
    decreases t,
{
    match t {
        TokenValue::Uint { size, number } => TokenModel::Uint { size: size as nat, number: number@ },
        TokenValue::Int { size, number } => TokenModel::Int { size: size as nat, number: number@ },
        TokenValue::VarUint { size, number } => TokenModel::VarUint {
            size: size as nat,
            number: number@,
        },
        TokenValue::VarInt { size, number } => TokenModel::VarInt {
            size: size as nat,
            number: number@,
        },
        TokenValue::Bool(b) => TokenModel::Bool(b),
        TokenValue::Tuple(ts) => TokenModel::Tuple(tokens_model(ts)),
        TokenValue::Array(vs) => TokenModel::Array(token_models(vs)),
        TokenValue::FixedArray(vs) => TokenModel::FixedArray(token_models(vs)),
        TokenValue::Cell(b) => TokenModel::Cell(b@),
        TokenValue::Mapping(es) => TokenModel::Mapping(entries_model(es)),
        TokenValue::Address(s) => TokenModel::Address(s@),
        TokenValue::Bytes(b) => TokenModel::Bytes(b@),
        TokenValue::FixedBytes(b) => TokenModel::FixedBytes(b@),
        TokenValue::String(s) => TokenModel::Str(s@),
        TokenValue::Token(v) => TokenModel::Token(v as nat),
        TokenValue::Time(v) => TokenModel::Time(v as nat),
        TokenValue::Expire(v) => TokenModel::Expire(v as nat),
        TokenValue::PublicKey(k) => TokenModel::PublicKey(
            match k {
                Some(b) => Some(b@),
                None => None,
            },
        ),
        TokenValue::Optional(o) => TokenModel::Optional(
            match o {
                Some(b) => Some(Box::new(token_model(*b))),
                None => None,
            },
        ),
    }
}

pub open spec fn token_models(vs: Vec<TokenValue>) -> Seq<TokenModel>
    decreases vs,
{
    Seq::new(
        vs.len() as nat,
        |i: int|
            if 0 <= i < vs.len() {
                token_model(vs[i])
            } else {
                TokenModel::Bool(false)
            },
    )
}

pub open spec fn tokens_model(ts: Vec<Token>) -> Seq<(Seq<char>, TokenModel)>
    decreases ts,
{
    Seq::new(
        ts.len() as nat,
        |i: int|
            if 0 <= i < ts.len() {
                (ts[i].name@, token_model(ts[i].value))
            } else {
                (Seq::empty(), TokenModel::Bool(false))
            },
    )
}

pub open spec fn entries_model(es: Vec<(String, TokenValue)>) -> Seq<(Seq<char>, TokenModel)>
    decreases es,
{
    Seq::new(
        es.len() as nat,
        |i: int|
            if 0 <= i < es.len() {
                (es[i].0@, token_model(es[i].1))
            } else {
                (Seq::empty(), TokenModel::Bool(false))
            },
    )
}

impl View for TokenValue {
    type V = TokenModel;

    open spec fn view(&self) -> TokenModel {
        token_model(*self)
    }
}

impl View for Token {
    type V = (Seq<char>, TokenModel);

    open spec fn view(&self) -> (Seq<char>, TokenModel) {
        (self.name@, self.value@)
    }
}

} // verus!
