//! Parameter schemas, read from descriptors of the form `{name, type, components?}`.
use vstd::prelude::*;

use crate::encode::{find_key, key_index, lemma_key_index_first, outcome};
use crate::error::{ErrorModel, TokensJsonError};
use crate::kinds::{
    after, first_comma, kind_valid, last_open_bracket, params_model, parse_kind,
    parse_kind_chars, starts, KindModel, Param, ParamKind, ParamModel,
};
use crate::text::chars_of;
use crate::values::{json_fields, json_items, GenericValue, Json};

verus! {

/// The kind with components attached: a tuple takes them, an array, a fixed array or an
/// optional passes them to its element, any other kind is left as it is.
pub open spec fn with_components(k: KindModel, c: Seq<ParamModel>) -> KindModel
    decreases k,
{
    match k {
        KindModel::Tuple(_) => KindModel::Tuple(c),
        KindModel::Array(e) => KindModel::Array(Box::new(with_components(*e, c))),
        KindModel::FixedArray(e, n) => KindModel::FixedArray(
            Box::new(with_components(*e, c)),
            n,
        ),
        KindModel::Optional(e) => KindModel::Optional(Box::new(with_components(*e, c))),
        _ => k,
    }
}

pub open spec fn word_name() -> Seq<char> {
    seq!['n', 'a', 'm', 'e']
}

pub open spec fn word_type() -> Seq<char> {
    seq!['t', 'y', 'p', 'e']
}

pub open spec fn word_components() -> Seq<char> {
    seq!['c', 'o', 'm', 'p', 'o', 'n', 'e', 'n', 't', 's']
}

/// The text at a key of an object, where the key is there with a text.
pub open spec fn text_at(fs: Seq<(Seq<char>, Json)>, key: Seq<char>) -> Option<Seq<char>> {
    let i = key_index(fs, key);
    if 0 <= i < fs.len() && fs[i].1 is Str {
        Some(fs[i].1->Str_0)
    } else {
        None
    }
}

/// The parameter that a descriptor describes, or the first reason it describes none.
pub open spec fn param_of(v: Json) -> Result<ParamModel, ErrorModel>
    decreases v, 0nat,
{
    match v {
        Json::Object(fs) => match (text_at(fs, word_name()), text_at(fs, word_type())) {
            (None, _) => Err(ErrorModel::StringExpected),
            (Some(_), None) => Err(ErrorModel::StringExpected),
            (Some(name), Some(ty)) => match parse_kind(ty) {
                None => Err(ErrorModel::ParamTypeExpected),
                Some(k) => {
                    let ci = key_index(fs, word_components());
                    if ci < 0 || ci >= fs.len() {
                        Ok(ParamModel { name, kind: with_components(k, Seq::empty()) })
                    } else {
                        match fs[ci].1 {
                            Json::Array(items) => match params_of(items, items.len()) {
                                Ok(c) => Ok(ParamModel { name, kind: with_components(k, c) }),
                                Err(e) => Err(e),
                            },
                            _ => Err(ErrorModel::ObjectExpected),
                        }
                    }
                },
            },
        },
        _ => Err(ErrorModel::ObjectExpected),
    }
}

/// The parameters that the first `n` descriptors describe.
pub open spec fn params_of(items: Seq<Json>, n: nat) -> Result<Seq<ParamModel>, ErrorModel>
    decreases items, n,
{
    if n == 0 || n > items.len() {
        Ok(Seq::empty())
    } else {
        match params_of(items, (n - 1) as nat) {
            Err(e) => Err(e),
            Ok(ps) => match param_of(items[n - 1]) {
                Ok(p) => Ok(ps.push(p)),
                Err(e) => Err(e),
            },
        }
    }
}

/// The schema that a list of descriptors describes.
pub open spec fn params_list_of(v: Json) -> Result<Seq<ParamModel>, ErrorModel> {
    match v {
        Json::Array(items) => params_of(items, items.len()),
        _ => Err(ErrorModel::ObjectExpected),
    }
}

/// A descriptor names only kinds whose maps are keyed by an integer or an address.
pub proof fn lemma_parse_kind_valid(s: Seq<char>)
    ensures
        parse_kind(s) matches Some(k) ==> kind_valid(k),
    decreases s.len(),
{
    reveal(parse_kind);
    if s.len() > 0 && s.last() == ']' {
        let body = s.drop_last();
        let j = last_open_bracket(body);
        if 0 <= j < body.len() {
            lemma_parse_kind_valid(body.subrange(0, j));
        }
    } else if starts(s, seq!['m', 'a', 'p', '(']) && s.last() == ')' {
        let inner = s.subrange(4, s.len() - 1);
        let c = first_comma(inner);
        if 0 <= c < inner.len() {
            lemma_parse_kind_valid(inner.subrange(0, c));
            lemma_parse_kind_valid(after(inner, c + 1));
        }
    } else if starts(s, seq!['o', 'p', 't', 'i', 'o', 'n', 'a', 'l', '(']) && s.last() == ')' {
        lemma_parse_kind_valid(s.subrange(9, s.len() - 1));
    }
}

proof fn lemma_with_components_valid(k: KindModel, c: Seq<ParamModel>)
    requires
        kind_valid(k),
        forall|i: int| 0 <= i < c.len() ==> kind_valid(#[trigger] c[i].kind),
    ensures
        kind_valid(with_components(k, c)),
    decreases k,
{
    match k {
        KindModel::Array(e) => lemma_with_components_valid(*e, c),
        KindModel::FixedArray(e, _) => lemma_with_components_valid(*e, c),
        KindModel::Optional(e) => lemma_with_components_valid(*e, c),
        _ => {},
    }
}

/// A descriptor describes only kinds whose maps are keyed by an integer or an address.
pub proof fn lemma_param_of_valid(v: Json)
    ensures
        param_of(v) matches Ok(p) ==> kind_valid(p.kind),
    decreases v, 0nat,
{
    if let Json::Object(fs) = v {
        if let (Some(name), Some(ty)) = (text_at(fs, word_name()), text_at(fs, word_type())) {
            lemma_parse_kind_valid(ty);
            if let Some(k) = parse_kind(ty) {
                let ci = key_index(fs, word_components());
                if ci < 0 || ci >= fs.len() {
                    lemma_with_components_valid(k, Seq::empty());
                } else if let Json::Array(items) = fs[ci].1 {
                    lemma_params_of_valid(items, items.len());
                    if let Ok(c) = params_of(items, items.len()) {
                        lemma_with_components_valid(k, c);
                    }
                }
            }
        }
    }
}

pub proof fn lemma_params_of_valid(items: Seq<Json>, n: nat)
    ensures
        params_of(items, n) matches Ok(ps) ==> forall|i: int|
            0 <= i < ps.len() ==> kind_valid(#[trigger] ps[i].kind),
    decreases items, n,
{
    if 0 < n <= items.len() {
        lemma_params_of_valid(items, (n - 1) as nat);
        lemma_param_of_valid(items[n - 1]);
        if let Ok(ps) = params_of(items, n) {
            let prev = params_of(items, (n - 1) as nat)->Ok_0;
            assert forall|i: int| 0 <= i < ps.len() implies kind_valid(#[trigger] ps[i].kind) by {
                if i < prev.len() {
                    assert(ps[i] == prev[i]);
                }
            }
        }
    }
}

/// Attaches components to a kind, as `with_components` says.
pub fn set_components(kind: ParamKind, components: Vec<Param>) -> (r: ParamKind)
    ensures
        r@ == with_components(kind@, params_model(components)),
    decreases kind,
{
    match kind {
        ParamKind::Tuple(_) => ParamKind::Tuple(components),
        ParamKind::Array(e) => ParamKind::Array(Box::new(set_components(*e, components))),
        ParamKind::FixedArray(e, n) => ParamKind::FixedArray(
            Box::new(set_components(*e, components)),
            n,
        ),
        ParamKind::Optional(e) => ParamKind::Optional(Box::new(set_components(*e, components))),
        other => other,
    }
}

proof fn lemma_params_error_stays(items: Seq<Json>, n: nat, m: nat)
    requires
        n <= m <= items.len(),
        params_of(items, n) is Err,
    ensures
        params_of(items, m) == params_of(items, n),
    decreases m - n,
{
    if m > n {
        lemma_params_error_stays(items, n, (m - 1) as nat);
    }
}

/// Where the text at a key of an object stands, as `text_at` reads it.
fn text_entry(fs: &Vec<(String, GenericValue)>, key: &Vec<char>) -> (r: Option<usize>)
    ensures
        match text_at(json_fields(*fs), key@) {
            Some(t) => r matches Some(i) && i < fs@.len() && fs@[i as int].1 is String
                && fs@[i as int].1->String_0@ == t,
            None => r is None,
        },
{
    let ghost fm = json_fields(*fs);
    let found = find_key(fs, key);
    proof {
        assert forall|j: int| 0 <= j < fs@.len() implies #[trigger] fm[j].0 == fs@[j].0@ by {}
        match found {
            Some(j) => lemma_key_index_first(fm, key@, j as int),
            None => lemma_key_index_first(fm, key@, fm.len() as int),
        }
    }
    match found {
        Some(i) => {
            assert(fm[i as int].1 == fs@[i as int].1@);
            match &fs[i].1 {
                GenericValue::String(_) => Some(i),
                _ => None,
            }
        },
        None => None,
    }
}

/// The parameter that a descriptor `{name, type, components?}` describes: `name` and `type`
/// are texts, `type` a kind descriptor, and `components`, where it is there, a list of
/// descriptors attached to the kind.
pub fn parse_param(param: &GenericValue) -> (r: Result<Param, TokensJsonError>)
    ensures
        outcome(r, param_of(param@), |p: Param| p@),
    decreases param, 2nat,
{
    match param {
        GenericValue::Object(fs) => {
            let ghost fm = json_fields(*fs);
            let ni = match text_entry(fs, &vec!['n', 'a', 'm', 'e']) {
                Some(i) => i,
                None => return Err(TokensJsonError::StringExpected),
            };
            let ti = match text_entry(fs, &vec!['t', 'y', 'p', 'e']) {
                Some(i) => i,
                None => return Err(TokensJsonError::StringExpected),
            };
            let name = match &fs[ni].1 {
                GenericValue::String(s) => s.clone(),
                _ => return Err(TokensJsonError::StringExpected),
            };
            let kind = match &fs[ti].1 {
                GenericValue::String(s) => match parse_kind_chars(&chars_of(s.as_str())) {
                    Some(k) => k,
                    None => return Err(TokensJsonError::ParamTypeExpected),
                },
                _ => return Err(TokensJsonError::StringExpected),
            };
            let found = find_key(fs, &vec!['c', 'o', 'm', 'p', 'o', 'n', 'e', 'n', 't', 's']);
            proof {
                assert forall|j: int| 0 <= j < fs@.len() implies #[trigger] fm[j].0
                    == fs@[j].0@ by {}
                match found {
                    Some(j) => lemma_key_index_first(fm, word_components(), j as int),
                    None => lemma_key_index_first(fm, word_components(), fm.len() as int),
                }
            }
            match found {
                None => {
                    let empty: Vec<Param> = Vec::new();
                    assert(params_model(empty) =~= Seq::<ParamModel>::empty());
                    Ok(Param { name, kind: set_components(kind, empty) })
                },
                Some(ci) => {
                    let (_, cv) = &fs[ci];
                    assert(fm[ci as int].1 == cv@);
                    match cv {
                        GenericValue::Array(items) => match parse_param_items(items) {
                            Ok(c) => Ok(Param { name, kind: set_components(kind, c) }),
                            Err(e) => Err(e),
                        },
                        _ => Err(TokensJsonError::ObjectExpected),
                    }
                },
            }
        },
        _ => Err(TokensJsonError::ObjectExpected),
    }
}

fn parse_param_items(items: &Vec<GenericValue>) -> (r: Result<Vec<Param>, TokensJsonError>)
    ensures
        outcome(r, params_of(json_items(*items), items@.len()), |ps: Vec<Param>| params_model(ps)),
    decreases items, 1nat,
{
    let ghost m = json_items(*items);
    let mut out: Vec<Param> = Vec::new();
    let mut i: usize = 0;
    assert(params_model(out) =~= Seq::<ParamModel>::empty());
    while i < items.len()
        invariant
            i <= items@.len(),
            m == json_items(*items),
            params_of(m, i as nat) == Ok::<Seq<ParamModel>, ErrorModel>(params_model(out)),
        decreases items@.len() - i,
    {
        assert(m[i as int] == items@[i as int]@);
        match parse_param(&items[i]) {
            Ok(p) => {
                let ghost before = out;
                let ghost pm = p@;
                out.push(p);
                assert(params_model(out) =~= params_model(before).push(pm));
            },
            Err(x) => {
                proof {
                    lemma_params_error_stays(m, (i + 1) as nat, items@.len());
                }
                return Err(x);
            },
        }
        i = i + 1;
    }
    Ok(out)
}

/// The schema that a list of parameter descriptors describes.
pub fn parse_params_list(params: &GenericValue) -> (r: Result<Vec<Param>, TokensJsonError>)
    ensures
        outcome(r, params_list_of(params@), |ps: Vec<Param>| params_model(ps)),
        r matches Ok(ps) ==> forall|i: int|
            0 <= i < ps@.len() ==> kind_valid(#[trigger] ps@[i].kind@),
{
    proof {
        if let Json::Array(items) = params@ {
            lemma_params_of_valid(items, items.len());
        }
    }
    let r = match params {
        GenericValue::Array(items) => parse_param_items(items),
        _ => Err(TokensJsonError::ObjectExpected),
    };
    proof {
        if r is Ok {
            let ps = r->Ok_0;
            assert forall|i: int| 0 <= i < ps@.len() implies kind_valid(#[trigger] ps@[i].kind@) by {
                assert(params_model(ps)[i].kind == ps@[i].kind@);
            }
        }
    }
    r
}


} // verus!
