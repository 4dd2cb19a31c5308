//! Parameter kinds, parameters, and the grammar of kind descriptors.
use vstd::prelude::*;

use crate::error::TokensJsonError;
use crate::text::{chars_between, chars_of, decimal, parse_unsigned, unsigned_text_value};

verus! {

/// The kind of a parameter: how its value is encoded and decoded.
#[derive(Debug, PartialEq, Eq)]
pub enum ParamKind {
    Uint(usize),
    Int(usize),
    VarUint(usize),
    VarInt(usize),
    Bool,
    Tuple(Vec<Param>),
    Array(Box<ParamKind>),
    FixedArray(Box<ParamKind>, usize),
    Cell,
    Mapping(Box<ParamKind>, Box<ParamKind>),
    Address,
    Bytes,
    FixedBytes(usize),
    String,
    Token,
    Time,
    Expire,
    PublicKey,
    Optional(Box<ParamKind>),
}

/// A named parameter.
#[derive(Debug, PartialEq, Eq)]
pub struct Param {
    pub name: String,
    pub kind: ParamKind,
}

pub enum KindModel {
    Uint(nat),
    Int(nat),
    VarUint(nat),
    VarInt(nat),
    Bool,
    Tuple(Seq<ParamModel>),
    Array(Box<KindModel>),
    FixedArray(Box<KindModel>, nat),
    Cell,
    Mapping(Box<KindModel>, Box<KindModel>),
    Address,
    Bytes,
    FixedBytes(nat),
    String,
    Token,
    Time,
    Expire,
    PublicKey,
    Optional(Box<KindModel>),
}

pub struct ParamModel {
    pub name: Seq<char>,
    pub kind: KindModel,
}

/// What a kind says, with its texts as character sequences.
pub open spec fn kind_model(k: ParamKind) -> KindModel
    decreases k,
{
    match k {
        ParamKind::Uint(n) => KindModel::Uint(n as nat),
        ParamKind::Int(n) => KindModel::Int(n as nat),
        ParamKind::VarUint(n) => KindModel::VarUint(n as nat),
        ParamKind::VarInt(n) => KindModel::VarInt(n as nat),
        ParamKind::Bool => KindModel::Bool,
        ParamKind::Tuple(ps) => KindModel::Tuple(params_model(ps)),
        ParamKind::Array(e) => KindModel::Array(Box::new(kind_model(*e))),
        ParamKind::FixedArray(e, n) => KindModel::FixedArray(Box::new(kind_model(*e)), n as nat),
        ParamKind::Cell => KindModel::Cell,
        ParamKind::Mapping(k, v) => KindModel::Mapping(
            Box::new(kind_model(*k)),
            Box::new(kind_model(*v)),
        ),
        ParamKind::Address => KindModel::Address,
        ParamKind::Bytes => KindModel::Bytes,
        ParamKind::FixedBytes(n) => KindModel::FixedBytes(n as nat),
        ParamKind::String => KindModel::String,
        ParamKind::Token => KindModel::Token,
        ParamKind::Time => KindModel::Time,
        ParamKind::Expire => KindModel::Expire,
        ParamKind::PublicKey => KindModel::PublicKey,
        ParamKind::Optional(e) => KindModel::Optional(Box::new(kind_model(*e))),
    }
}

pub open spec fn params_model(ps: Vec<Param>) -> Seq<ParamModel>
    decreases ps,
{
    Seq::new(
        ps.len() as nat,
        |i: int|
            if 0 <= i < ps.len() {
                ParamModel { name: ps[i].name@, kind: kind_model(ps[i].kind) }
            } else {
                ParamModel { name: Seq::empty(), kind: KindModel::Bool }
            },
    )
}

impl View for ParamKind {
    type V = KindModel;

    open spec fn view(&self) -> KindModel {
        kind_model(*self)
    }
}

impl View for Param {
    type V = ParamModel;

    open spec fn view(&self) -> ParamModel {
        ParamModel { name: self.name@, kind: self.kind@ }
    }
}

/// A kind that a map can be keyed by.
pub open spec fn is_map_key(k: KindModel) -> bool {
    k is Int || k is Uint || k is Address
}

/// Every map in the kind is keyed by an integer or an address kind.
pub open spec fn kind_valid(k: KindModel) -> bool
    decreases k,
{
    match k {
        KindModel::Tuple(ps) => forall|i: int|
            0 <= i < ps.len() ==> kind_valid(#[trigger] ps[i].kind),
        KindModel::Array(e) => kind_valid(*e),
        KindModel::FixedArray(e, _) => kind_valid(*e),
        KindModel::Mapping(k, v) => is_map_key(*k) && kind_valid(*v),
        KindModel::Optional(e) => kind_valid(*e),
        _ => true,
    }
}

/// Where the last `[` stands, or -1.
pub open spec fn last_open_bracket(s: Seq<char>) -> int
    decreases s.len(),
{
    if s.len() == 0 {
        -1
    } else if s.last() == '[' {
        s.len() - 1
    } else {
        last_open_bracket(s.drop_last())
    }
}

/// Where the first `,` stands, or -1.
pub open spec fn first_comma(s: Seq<char>) -> int
    decreases s.len(),
{
    if s.len() == 0 {
        -1
    } else if s[0] == ',' {
        0
    } else if first_comma(s.drop_first()) < 0 {
        -1
    } else {
        first_comma(s.drop_first()) + 1
    }
}

/// A width or a length in a descriptor: a decimal `usize` as std reads it.
pub open spec fn width_of(s: Seq<char>) -> Option<nat> {
    match unsigned_text_value(s, 10) {
        Some(v) => if v <= usize::MAX {
            Some(v)
        } else {
            None
        },
        None => None,
    }
}

/// `s` begins with `p`.
pub open spec fn starts(s: Seq<char>, p: Seq<char>) -> bool {
    p.len() <= s.len() && s.subrange(0, p.len() as int) == p
}

/// `s` from place `n` on.
pub open spec fn after(s: Seq<char>, n: int) -> Seq<char> {
    s.subrange(n, s.len() as int)
}

/// The kind that `f` makes of a kind, where there is one.
pub open spec fn wrap(e: Option<KindModel>, f: spec_fn(KindModel) -> KindModel) -> Option<
    KindModel,
> {
    match e {
        Some(k) => Some(f(k)),
        None => None,
    }
}

/// The kind that `f` makes of a width, where there is one.
pub open spec fn sized(w: Option<nat>, f: spec_fn(nat) -> KindModel) -> Option<KindModel> {
    match w {
        Some(n) => Some(f(n)),
        None => None,
    }
}

/// The descriptor of a kind; a tuple's components are not part of it.
pub open spec fn render(k: KindModel) -> Seq<char>
    decreases k,
{
    match k {
        KindModel::Uint(n) => seq!['u', 'i', 'n', 't'] + decimal(n),
        KindModel::Int(n) => seq!['i', 'n', 't'] + decimal(n),
        KindModel::VarUint(n) => seq!['v', 'a', 'r', 'u', 'i', 'n', 't'] + decimal(n),
        KindModel::VarInt(n) => seq!['v', 'a', 'r', 'i', 'n', 't'] + decimal(n),
        KindModel::Bool => seq!['b', 'o', 'o', 'l'],
        KindModel::Tuple(_) => seq!['t', 'u', 'p', 'l', 'e'],
        KindModel::Array(e) => render(*e) + seq!['[', ']'],
        KindModel::FixedArray(e, n) => render(*e) + seq!['['] + decimal(n) + seq![']'],
        KindModel::Cell => seq!['c', 'e', 'l', 'l'],
        KindModel::Mapping(k, v) => seq!['m', 'a', 'p', '('] + render(*k) + seq![','] + render(*v)
            + seq![')'],
        KindModel::Address => seq!['a', 'd', 'd', 'r', 'e', 's', 's'],
        KindModel::Bytes => seq!['b', 'y', 't', 'e', 's'],
        KindModel::FixedBytes(n) => seq!['f', 'i', 'x', 'e', 'd', 'b', 'y', 't', 'e', 's'] + decimal(
            n,
        ),
        KindModel::String => seq!['s', 't', 'r', 'i', 'n', 'g'],
        KindModel::Token => seq!['t', 'o', 'k', 'e', 'n'],
        KindModel::Time => seq!['t', 'i', 'm', 'e'],
        KindModel::Expire => seq!['e', 'x', 'p', 'i', 'r', 'e'],
        KindModel::PublicKey => seq!['p', 'u', 'b', 'k', 'e', 'y'],
        KindModel::Optional(e) => seq!['o', 'p', 't', 'i', 'o', 'n', 'a', 'l', '('] + render(*e)
            + seq![')'],
    }
}

/// The kind as the grammar gives it back: `var` widths read as fixed widths, and a tuple
/// without its components.
pub open spec fn normalize(k: KindModel) -> KindModel
    decreases k,
{
    match k {
        KindModel::VarUint(n) => KindModel::Uint(n),
        KindModel::VarInt(n) => KindModel::Int(n),
        KindModel::Tuple(_) => KindModel::Tuple(Seq::empty()),
        KindModel::Array(e) => KindModel::Array(Box::new(normalize(*e))),
        KindModel::FixedArray(e, n) => KindModel::FixedArray(Box::new(normalize(*e)), n),
        KindModel::Mapping(k, v) => KindModel::Mapping(
            Box::new(normalize(*k)),
            Box::new(normalize(*v)),
        ),
        KindModel::Optional(e) => KindModel::Optional(Box::new(normalize(*e))),
        _ => k,
    }
}

/// Every width and length in the descriptor of the kind fits in a `usize`.
pub open spec fn widths_fit(k: KindModel) -> bool
    decreases k,
{
    match k {
        KindModel::Uint(n) => n <= usize::MAX,
        KindModel::Int(n) => n <= usize::MAX,
        KindModel::VarUint(n) => n <= usize::MAX,
        KindModel::VarInt(n) => n <= usize::MAX,
        KindModel::FixedBytes(n) => n <= usize::MAX,
        KindModel::Array(e) => widths_fit(*e),
        KindModel::FixedArray(e, n) => n <= usize::MAX && widths_fit(*e),
        KindModel::Mapping(k, v) => widths_fit(*k) && widths_fit(*v),
        KindModel::Optional(e) => widths_fit(*e),
        _ => true,
    }
}

/// The kind that a descriptor names, or `None` where it names none.
#[verifier::opaque]
pub open spec fn parse_kind(s: Seq<char>) -> Option<KindModel>
    decreases s.len(),
{
    if s.len() > 0 && s.last() == ']' {
        let body = s.drop_last();
        let j = last_open_bracket(body);
        if j < 0 || j >= body.len() {
            None
        } else if j == body.len() - 1 {
            wrap(parse_kind(body.subrange(0, j)), |e: KindModel| KindModel::Array(Box::new(e)))
        } else {
            match width_of(body.subrange(j + 1, body.len() as int)) {
                Some(n) => wrap(
                    parse_kind(body.subrange(0, j)),
                    |e: KindModel| KindModel::FixedArray(Box::new(e), n),
                ),
                None => None,
            }
        }
    } else if s == seq!['b', 'o', 'o', 'l'] {
        Some(KindModel::Bool)
    } else if s == seq!['t', 'u', 'p', 'l', 'e'] {
        Some(KindModel::Tuple(Seq::empty()))
    } else if starts(s, seq!['i', 'n', 't']) {
        sized(width_of(after(s, 3)), |n: nat| KindModel::Int(n))
    } else if starts(s, seq!['u', 'i', 'n', 't']) {
        sized(width_of(after(s, 4)), |n: nat| KindModel::Uint(n))
    } else if starts(s, seq!['v', 'a', 'r', 'i', 'n', 't']) {
        sized(width_of(after(s, 6)), |n: nat| KindModel::Int(n))
    } else if starts(s, seq!['v', 'a', 'r', 'u', 'i', 'n', 't']) {
        sized(width_of(after(s, 7)), |n: nat| KindModel::Uint(n))
    } else if starts(s, seq!['m', 'a', 'p', '(']) && s.last() == ')' {
        let inner = s.subrange(4, s.len() - 1);
        let c = first_comma(inner);
        if c < 0 || c >= inner.len() {
            None
        } else {
            match (parse_kind(inner.subrange(0, c)), parse_kind(after(inner, c + 1))) {
                (Some(k), Some(v)) => if is_map_key(k) {
                    Some(KindModel::Mapping(Box::new(k), Box::new(v)))
                } else {
                    None
                },
                _ => None,
            }
        }
    } else if s == seq!['c', 'e', 'l', 'l'] {
        Some(KindModel::Cell)
    } else if s == seq!['a', 'd', 'd', 'r', 'e', 's', 's'] {
        Some(KindModel::Address)
    } else if s == seq!['t', 'o', 'k', 'e', 'n'] || s == seq!['g', 'r', 'a', 'm'] {
        Some(KindModel::Token)
    } else if s == seq!['b', 'y', 't', 'e', 's'] {
        Some(KindModel::Bytes)
    } else if starts(s, seq!['f', 'i', 'x', 'e', 'd', 'b', 'y', 't', 'e', 's']) {
        sized(width_of(after(s, 10)), |n: nat| KindModel::FixedBytes(n))
    } else if s == seq!['t', 'i', 'm', 'e'] {
        Some(KindModel::Time)
    } else if s == seq!['e', 'x', 'p', 'i', 'r', 'e'] {
        Some(KindModel::Expire)
    } else if s == seq!['p', 'u', 'b', 'k', 'e', 'y'] {
        Some(KindModel::PublicKey)
    } else if s == seq!['s', 't', 'r', 'i', 'n', 'g'] {
        Some(KindModel::String)
    } else if starts(s, seq!['o', 'p', 't', 'i', 'o', 'n', 'a', 'l', '(']) && s.last() == ')' {
        wrap(
            parse_kind(s.subrange(9, s.len() - 1)),
            |e: KindModel| KindModel::Optional(Box::new(e)),
        )
    } else {
        None
    }
}

pub(crate) fn is_word(s: &Vec<char>, w: &Vec<char>) -> (r: bool)
    ensures
        r == (s@ == w@),
{
    if s.len() != w.len() {
        return false;
    }
    let mut i: usize = 0;
    while i < s.len()
        invariant
            i <= s@.len(),
            s@.len() == w@.len(),
            s@.subrange(0, i as int) == w@.subrange(0, i as int),
        decreases s@.len() - i,
    {
        if s[i] != w[i] {
            assert(s@[i as int] != w@[i as int]);
            return false;
        }
        assert(s@.subrange(0, i + 1) =~= s@.subrange(0, i as int).push(s@[i as int]));
        assert(w@.subrange(0, i + 1) =~= w@.subrange(0, i as int).push(w@[i as int]));
        i = i + 1;
    }
    assert(s@ =~= s@.subrange(0, i as int));
    assert(w@ =~= w@.subrange(0, i as int));
    true
}

fn has_prefix(s: &Vec<char>, w: &Vec<char>) -> (r: bool)
    ensures
        r == starts(s@, w@),
{
    if w.len() > s.len() {
        return false;
    }
    let head = chars_between(s, 0, w.len());
    is_word(&head, w)
}

fn width(s: &Vec<char>) -> (r: Option<usize>)
    ensures
        match width_of(s@) {
            Some(n) => r == Some(n as usize),
            None => r is None,
        },
{
    match parse_unsigned(s, 10) {
        Some(v) => if v <= usize::MAX as u128 {
            Some(v as usize)
        } else {
            None
        },
        None => None,
    }
}

fn find_last_open_bracket(s: &Vec<char>) -> (r: Option<usize>)
    ensures
        match r {
            Some(j) => j == last_open_bracket(s@) && j < s@.len(),
            None => last_open_bracket(s@) < 0,
        },
{
    let mut i: usize = s.len();
    assert(s@.subrange(0, i as int) =~= s@);
    while i > 0
        invariant
            i <= s@.len(),
            last_open_bracket(s@) == last_open_bracket(s@.subrange(0, i as int)),
        decreases i,
    {
        let ghost pre = s@.subrange(0, i as int);
        assert(pre.drop_last() =~= s@.subrange(0, i - 1));
        if s[i - 1] == '[' {
            return Some(i - 1);
        }
        i = i - 1;
    }
    None
}

fn find_first_comma(s: &Vec<char>) -> (r: Option<usize>)
    ensures
        match r {
            Some(j) => j == first_comma(s@) && j < s@.len(),
            None => first_comma(s@) < 0,
        },
{
    let mut i: usize = 0;
    assert(s@.subrange(0, s@.len() as int) =~= s@);
    while i < s.len()
        invariant
            i <= s@.len(),
            first_comma(s@) == if first_comma(s@.subrange(i as int, s@.len() as int)) < 0 {
                -1
            } else {
                first_comma(s@.subrange(i as int, s@.len() as int)) + i
            },
        decreases s@.len() - i,
    {
        let ghost rest = s@.subrange(i as int, s@.len() as int);
        assert(rest.drop_first() =~= s@.subrange(i + 1, s@.len() as int));
        if s[i] == ',' {
            return Some(i);
        }
        i = i + 1;
    }
    assert(s@.subrange(i as int, s@.len() as int) =~= Seq::<char>::empty());
    None
}

/// Reads a kind descriptor given as characters.
pub fn parse_kind_chars(s: &Vec<char>) -> (r: Option<ParamKind>)
    ensures
        match parse_kind(s@) {
            Some(m) => r matches Some(k) && k@ == m,
            None => r is None,
        },
    decreases s@.len(),
{
    reveal(parse_kind);
    let n = s.len();
    if n > 0 && s[n - 1] == ']' {
        let body = chars_between(s, 0, n - 1);
        assert(body@ =~= s@.drop_last());
        let j = match find_last_open_bracket(&body) {
            Some(j) => j,
            None => return None,
        };
        let head = chars_between(&body, 0, j);
        if j == n - 2 {
            return match parse_kind_chars(&head) {
                Some(e) => Some(ParamKind::Array(Box::new(e))),
                None => None,
            };
        }
        let digits = chars_between(&body, j + 1, n - 1);
        let len = match width(&digits) {
            Some(len) => len,
            None => return None,
        };
        return match parse_kind_chars(&head) {
            Some(e) => Some(ParamKind::FixedArray(Box::new(e), len)),
            None => None,
        };
    }
    if is_word(s, &vec!['b', 'o', 'o', 'l']) {
        return Some(ParamKind::Bool);
    }
    if is_word(s, &vec!['t', 'u', 'p', 'l', 'e']) {
        let empty: Vec<Param> = Vec::new();
        assert(params_model(empty) =~= Seq::<ParamModel>::empty());
        let r = ParamKind::Tuple(empty);
        return Some(r);
    }
    if has_prefix(s, &vec!['i', 'n', 't']) {
        return match width(&chars_between(s, 3, n)) {
            Some(w) => Some(ParamKind::Int(w)),
            None => None,
        };
    }
    if has_prefix(s, &vec!['u', 'i', 'n', 't']) {
        return match width(&chars_between(s, 4, n)) {
            Some(w) => Some(ParamKind::Uint(w)),
            None => None,
        };
    }
    if has_prefix(s, &vec!['v', 'a', 'r', 'i', 'n', 't']) {
        return match width(&chars_between(s, 6, n)) {
            Some(w) => Some(ParamKind::Int(w)),
            None => None,
        };
    }
    if has_prefix(s, &vec!['v', 'a', 'r', 'u', 'i', 'n', 't']) {
        return match width(&chars_between(s, 7, n)) {
            Some(w) => Some(ParamKind::Uint(w)),
            None => None,
        };
    }
    if has_prefix(s, &vec!['m', 'a', 'p', '(']) && s[n - 1] == ')' {
        let inner = chars_between(s, 4, n - 1);
        let c = match find_first_comma(&inner) {
            Some(c) => c,
            None => return None,
        };
        let key = match parse_kind_chars(&chars_between(&inner, 0, c)) {
            Some(k) => k,
            None => return None,
        };
        let value = match parse_kind_chars(&chars_between(&inner, c + 1, inner.len())) {
            Some(v) => v,
            None => return None,
        };
        return match key {
            ParamKind::Int(_) | ParamKind::Uint(_) | ParamKind::Address => Some(
                ParamKind::Mapping(Box::new(key), Box::new(value)),
            ),
            _ => None,
        };
    }
    if is_word(s, &vec!['c', 'e', 'l', 'l']) {
        return Some(ParamKind::Cell);
    }
    if is_word(s, &vec!['a', 'd', 'd', 'r', 'e', 's', 's']) {
        return Some(ParamKind::Address);
    }
    if is_word(s, &vec!['t', 'o', 'k', 'e', 'n']) || is_word(s, &vec!['g', 'r', 'a', 'm']) {
        return Some(ParamKind::Token);
    }
    if is_word(s, &vec!['b', 'y', 't', 'e', 's']) {
        return Some(ParamKind::Bytes);
    }
    if has_prefix(s, &vec!['f', 'i', 'x', 'e', 'd', 'b', 'y', 't', 'e', 's']) {
        return match width(&chars_between(s, 10, n)) {
            Some(w) => Some(ParamKind::FixedBytes(w)),
            None => None,
        };
    }
    if is_word(s, &vec!['t', 'i', 'm', 'e']) {
        return Some(ParamKind::Time);
    }
    if is_word(s, &vec!['e', 'x', 'p', 'i', 'r', 'e']) {
        return Some(ParamKind::Expire);
    }
    if is_word(s, &vec!['p', 'u', 'b', 'k', 'e', 'y']) {
        return Some(ParamKind::PublicKey);
    }
    if is_word(s, &vec!['s', 't', 'r', 'i', 'n', 'g']) {
        return Some(ParamKind::String);
    }
    if has_prefix(s, &vec!['o', 'p', 't', 'i', 'o', 'n', 'a', 'l', '(']) && s[n - 1] == ')' {
        return match parse_kind_chars(&chars_between(s, 9, n - 1)) {
            Some(e) => Some(ParamKind::Optional(Box::new(e))),
            None => None,
        };
    }
    None
}

/// Reads a kind descriptor such as `uint128`, `int8[]`, `uint64[5]`, `map(address,cell)` or
/// `optional(bytes)`. A `tuple` comes without components; they are attached afterwards.
pub fn parse_param_type(kind: &str) -> (r: Result<ParamKind, TokensJsonError>)
    ensures
        match parse_kind(kind@) {
            Some(m) => r matches Ok(k) && k@ == m,
            None => r matches Err(e) && e is ParamTypeExpected,
        },
{
    match parse_kind_chars(&chars_of(kind)) {
        Some(k) => Ok(k),
        None => Err(TokensJsonError::ParamTypeExpected),
    }
}

} // verus!
