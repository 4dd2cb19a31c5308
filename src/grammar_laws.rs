//! The grammar of kind descriptors reads back what it renders.
use vstd::prelude::*;

use crate::kinds::{
    after, first_comma, is_map_key, kind_valid, last_open_bracket, normalize, parse_kind, render,
    starts, width_of, widths_fit, KindModel,
};
use crate::text::{all_digits, decimal, digit_char, digit_value, digits_value, unsigned_digits};

verus! {

proof fn lemma_digit_char(d: nat)
    requires
        d < 10,
    ensures
        '0' <= digit_char(d) <= '9',
        digit_value(digit_char(d)) == d,
{
}

/// The decimal digits of `n` are digits that read back as `n`.
pub proof fn lemma_decimal(n: nat)
    ensures
        decimal(n).len() >= 1,
        forall|i: int| 0 <= i < decimal(n).len() ==> '0' <= #[trigger] decimal(n)[i] <= '9',
        digits_value(decimal(n), 10) == n,
    decreases n,
{
    if n < 10 {
        lemma_digit_char(n);
        let d = decimal(n);
        assert(d.drop_last() =~= Seq::<char>::empty());
        assert(digits_value(Seq::<char>::empty(), 10) == 0);
        assert(d.last() == digit_char(n));
        assert(digits_value(d, 10) == digits_value(d.drop_last(), 10) * 10 + digit_value(d.last()));
    } else {
        lemma_decimal(n / 10);
        lemma_digit_char(n % 10);
        let d = decimal(n);
        let h = decimal(n / 10);
        assert(d =~= h.push(digit_char(n % 10)));
        assert(d.drop_last() =~= h);
        assert(d.last() == digit_char(n % 10));
        assert(digits_value(d, 10) == digits_value(h, 10) * 10 + digit_value(d.last()));
        assert forall|i: int| 0 <= i < d.len() implies '0' <= #[trigger] d[i] <= '9' by {
            if i < h.len() {
                assert(d[i] == h[i]);
            }
        }
    }
}

proof fn lemma_width_of_decimal(n: nat)
    requires
        n <= usize::MAX,
    ensures
        width_of(decimal(n)) == Some(n),
{
    lemma_decimal(n);
    let d = decimal(n);
    assert(d[0] != '+');
    assert(unsigned_digits(d) == d);
    assert forall|i: int| 0 <= i < d.len() implies digit_value(#[trigger] d[i]) < 10 by {
        assert('0' <= d[i] <= '9');
    }
    assert(all_digits(d, 10));
}

proof fn lemma_last_open_bracket_skips(x: Seq<char>, y: Seq<char>)
    requires
        forall|i: int| 0 <= i < y.len() ==> #[trigger] y[i] != '[',
    ensures
        last_open_bracket(x + y) == last_open_bracket(x),
    decreases y.len(),
{
    if y.len() > 0 {
        let z = y.drop_last();
        assert((x + y).drop_last() =~= x + z);
        assert((x + y).last() == y.last());
        lemma_last_open_bracket_skips(x, z);
    } else {
        assert(x + y =~= x);
    }
}

proof fn lemma_first_comma_after(x: Seq<char>, y: Seq<char>)
    requires
        forall|i: int| 0 <= i < x.len() ==> #[trigger] x[i] != ',',
    ensures
        first_comma(x + seq![','] + y) == x.len(),
    decreases x.len(),
{
    if x.len() == 0 {
        assert((x + seq![','] + y)[0] == ',');
    } else {
        let t = x.drop_first();
        assert((x + seq![','] + y).drop_first() =~= t + seq![','] + y);
        assert((x + seq![','] + y)[0] == x[0]);
        lemma_first_comma_after(t, y);
    }
}

/// Where two texts differ at a place, neither is the other nor starts with it.
proof fn lemma_differs_at(s: Seq<char>, p: Seq<char>, i: int)
    requires
        0 <= i < s.len(),
        i < p.len(),
        s[i] != p[i],
    ensures
        s != p,
        !starts(s, p),
{
    if starts(s, p) {
        assert(s.subrange(0, p.len() as int)[i] == s[i]);
    }
}

/// The descriptor of a kind with no `,`, where the kind is a map key.
proof fn lemma_key_render_no_comma(k: KindModel)
    requires
        is_map_key(k),
    ensures
        forall|i: int| 0 <= i < render(k).len() ==> #[trigger] render(k)[i] != ',',
{
    match k {
        KindModel::Int(n) => {
            lemma_decimal(n);
            let r = render(k);
            assert forall|i: int| 0 <= i < r.len() implies #[trigger] r[i] != ',' by {
                if i >= 3 {
                    assert(r[i] == decimal(n)[i - 3]);
                }
            }
        },
        KindModel::Uint(n) => {
            lemma_decimal(n);
            let r = render(k);
            assert forall|i: int| 0 <= i < r.len() implies #[trigger] r[i] != ',' by {
                if i >= 4 {
                    assert(r[i] == decimal(n)[i - 4]);
                }
            }
        },
        _ => {},
    }
}

proof fn lemma_render_nonempty(k: KindModel)
    ensures
        render(k).len() >= 1,
        render(k).last() == ']' <==> (k is Array || k is FixedArray),
    decreases k,
{
    match k {
        KindModel::Uint(n) => {
            lemma_decimal(n);
            assert(render(k).last() == decimal(n).last());
        },
        KindModel::Int(n) => {
            lemma_decimal(n);
            assert(render(k).last() == decimal(n).last());
        },
        KindModel::VarUint(n) => {
            lemma_decimal(n);
            assert(render(k).last() == decimal(n).last());
        },
        KindModel::VarInt(n) => {
            lemma_decimal(n);
            assert(render(k).last() == decimal(n).last());
        },
        KindModel::FixedBytes(n) => {
            lemma_decimal(n);
            assert(render(k).last() == decimal(n).last());
        },
        KindModel::Array(e) => lemma_render_nonempty(*e),
        KindModel::FixedArray(e, n) => lemma_render_nonempty(*e),
        KindModel::Mapping(a, b) => {
            lemma_render_nonempty(*a);
            lemma_render_nonempty(*b);
        },
        KindModel::Optional(e) => lemma_render_nonempty(*e),
        _ => {},
    }
}

/// Reading the descriptor of a kind gives the kind back, with `var` widths read as fixed
/// widths and a tuple without its components.
pub proof fn lemma_parse_render(k: KindModel)
    requires
        kind_valid(k),
        widths_fit(k),
    ensures
        parse_kind(render(k)) == Some(normalize(k)),
    decreases k,
{
    lemma_render_nonempty(k);
    match k {
        KindModel::Array(e) => {
            lemma_parse_render(*e);
            lemma_render_nonempty(*e);
            lemma_parse_array(*e);
        },
        KindModel::FixedArray(e, n) => {
            lemma_parse_render(*e);
            lemma_render_nonempty(*e);
            lemma_parse_fixed_array(*e, n);
        },
        KindModel::Mapping(a, b) => {
            lemma_parse_render(*a);
            lemma_parse_render(*b);
            lemma_parse_mapping(*a, *b);
        },
        KindModel::Optional(e) => {
            lemma_parse_render(*e);
            lemma_render_nonempty(*e);
            lemma_parse_optional(*e);
        },
        KindModel::Int(n) => lemma_parse_sized(k, n),
        KindModel::Uint(n) => lemma_parse_sized(k, n),
        KindModel::VarInt(n) => lemma_parse_sized(k, n),
        KindModel::VarUint(n) => lemma_parse_sized(k, n),
        KindModel::FixedBytes(n) => lemma_parse_sized(k, n),
        _ => lemma_parse_word(k),
    }
}

#[verifier::spinoff_prover]
#[verifier::rlimit(100)]
proof fn lemma_parse_array_text(re: Seq<char>, ke: KindModel)
    requires
        parse_kind(re) == Some(ke),
    ensures
        parse_kind(re + seq!['[', ']']) == Some(KindModel::Array(Box::new(ke))),
{
    reveal(parse_kind);
    let s = re + seq!['[', ']'];
    let body = s.drop_last();
    assert(s.last() == ']');
    assert(body =~= re + seq!['[']);
    assert(last_open_bracket(body) == body.len() - 1);
    assert(body.subrange(0, body.len() - 1) =~= re);
}

proof fn lemma_parse_array(e: KindModel)
    requires
        parse_kind(render(e)) == Some(normalize(e)),
    ensures
        parse_kind(render(KindModel::Array(Box::new(e)))) == Some(
            normalize(KindModel::Array(Box::new(e))),
        ),
{
    lemma_parse_array_text(render(e), normalize(e));
}

#[verifier::spinoff_prover]
#[verifier::rlimit(100)]
proof fn lemma_parse_fixed_array(e: KindModel, n: nat)
    requires
        parse_kind(render(e)) == Some(normalize(e)),
        n <= usize::MAX,
    ensures
        parse_kind(render(KindModel::FixedArray(Box::new(e), n))) == Some(
            normalize(KindModel::FixedArray(Box::new(e), n)),
        ),
{
    reveal(parse_kind);
    lemma_decimal(n);
    lemma_width_of_decimal(n);
    let s = render(KindModel::FixedArray(Box::new(e), n));
    let re = render(e);
    let d = decimal(n);
    let body = s.drop_last();
    assert(s.last() == ']');
    assert(body =~= (re + seq!['[']) + d);
    assert forall|i: int| 0 <= i < d.len() implies #[trigger] d[i] != '[' by {
        assert('0' <= d[i] <= '9');
    }
    lemma_last_open_bracket_skips(re + seq!['['], d);
    assert((re + seq!['[']).last() == '[');
    assert(last_open_bracket(re + seq!['[']) == re.len());
    assert(body.subrange(0, re.len() as int) =~= re);
    assert(body.subrange(re.len() as int + 1, body.len() as int) =~= d);
}

proof fn lemma_map_text(ra: Seq<char>, rb: Seq<char>)
    requires
        forall|i: int| 0 <= i < ra.len() ==> #[trigger] ra[i] != ',',
    ensures
        ({
            let s = seq!['m', 'a', 'p', '('] + ra + seq![','] + rb + seq![')'];
            let inner = s.subrange(4, s.len() - 1);
            &&& s.len() > 0 && s.last() == ')'
            &&& s != seq!['b', 'o', 'o', 'l']
            &&& s != seq!['t', 'u', 'p', 'l', 'e']
            &&& !starts(s, seq!['i', 'n', 't'])
            &&& !starts(s, seq!['u', 'i', 'n', 't'])
            &&& !starts(s, seq!['v', 'a', 'r', 'i', 'n', 't'])
            &&& !starts(s, seq!['v', 'a', 'r', 'u', 'i', 'n', 't'])
            &&& starts(s, seq!['m', 'a', 'p', '('])
            &&& first_comma(inner) == ra.len()
            &&& inner.subrange(0, ra.len() as int) == ra
            &&& after(inner, ra.len() as int + 1) == rb
        }),
{
    let s = seq!['m', 'a', 'p', '('] + ra + seq![','] + rb + seq![')'];
    let inner = s.subrange(4, s.len() - 1);
    assert(s.last() == ')');
    assert(inner =~= ra + seq![','] + rb);
    lemma_first_comma_after(ra, rb);
    assert(inner.subrange(0, ra.len() as int) =~= ra);
    assert(after(inner, ra.len() as int + 1) =~= rb);
    assert(s.subrange(0, 4) =~= seq!['m', 'a', 'p', '(']);
    lemma_differs_at(s, seq!['b', 'o', 'o', 'l'], 0);
    lemma_differs_at(s, seq!['t', 'u', 'p', 'l', 'e'], 0);
    lemma_differs_at(s, seq!['i', 'n', 't'], 0);
    lemma_differs_at(s, seq!['u', 'i', 'n', 't'], 0);
    lemma_differs_at(s, seq!['v', 'a', 'r', 'i', 'n', 't'], 0);
    lemma_differs_at(s, seq!['v', 'a', 'r', 'u', 'i', 'n', 't'], 0);
}

#[verifier::spinoff_prover]
#[verifier::rlimit(100)]
proof fn lemma_parse_mapping_text(ra: Seq<char>, rb: Seq<char>, ka: KindModel, kb: KindModel)
    requires
        parse_kind(ra) == Some(ka),
        parse_kind(rb) == Some(kb),
        is_map_key(ka),
        forall|i: int| 0 <= i < ra.len() ==> #[trigger] ra[i] != ',',
    ensures
        parse_kind(seq!['m', 'a', 'p', '('] + ra + seq![','] + rb + seq![')']) == Some(
            KindModel::Mapping(Box::new(ka), Box::new(kb)),
        ),
{
    reveal(parse_kind);
    lemma_map_text(ra, rb);
}

proof fn lemma_parse_mapping(a: KindModel, b: KindModel)
    requires
        parse_kind(render(a)) == Some(normalize(a)),
        parse_kind(render(b)) == Some(normalize(b)),
        is_map_key(a),
    ensures
        parse_kind(render(KindModel::Mapping(Box::new(a), Box::new(b)))) == Some(
            normalize(KindModel::Mapping(Box::new(a), Box::new(b))),
        ),
{
    lemma_key_render_no_comma(a);
    lemma_parse_mapping_text(render(a), render(b), normalize(a), normalize(b));
}

#[verifier::spinoff_prover]
#[verifier::rlimit(100)]
proof fn lemma_parse_optional(e: KindModel)
    requires
        parse_kind(render(e)) == Some(normalize(e)),
    ensures
        parse_kind(render(KindModel::Optional(Box::new(e)))) == Some(
            normalize(KindModel::Optional(Box::new(e))),
        ),
{
    reveal(parse_kind);
    let s = render(KindModel::Optional(Box::new(e)));
    let re = render(e);
    assert(s.last() == ')');
    assert(s.subrange(9, s.len() - 1) =~= re);
    assert(s.subrange(0, 9) =~= seq!['o', 'p', 't', 'i', 'o', 'n', 'a', 'l', '(']);
    lemma_differs_at(s, seq!['b', 'o', 'o', 'l'], 0);
    lemma_differs_at(s, seq!['t', 'u', 'p', 'l', 'e'], 0);
    lemma_differs_at(s, seq!['i', 'n', 't'], 0);
    lemma_differs_at(s, seq!['u', 'i', 'n', 't'], 0);
    lemma_differs_at(s, seq!['v', 'a', 'r', 'i', 'n', 't'], 0);
    lemma_differs_at(s, seq!['v', 'a', 'r', 'u', 'i', 'n', 't'], 0);
    lemma_differs_at(s, seq!['m', 'a', 'p', '('], 0);
    lemma_differs_at(s, seq!['c', 'e', 'l', 'l'], 0);
    lemma_differs_at(s, seq!['a', 'd', 'd', 'r', 'e', 's', 's'], 0);
    lemma_differs_at(s, seq!['t', 'o', 'k', 'e', 'n'], 0);
    lemma_differs_at(s, seq!['g', 'r', 'a', 'm'], 0);
    lemma_differs_at(s, seq!['b', 'y', 't', 'e', 's'], 0);
    lemma_differs_at(s, seq!['f', 'i', 'x', 'e', 'd', 'b', 'y', 't', 'e', 's'], 0);
    lemma_differs_at(s, seq!['t', 'i', 'm', 'e'], 0);
    lemma_differs_at(s, seq!['e', 'x', 'p', 'i', 'r', 'e'], 0);
    lemma_differs_at(s, seq!['p', 'u', 'b', 'k', 'e', 'y'], 0);
    lemma_differs_at(s, seq!['s', 't', 'r', 'i', 'n', 'g'], 0);
}

#[verifier::spinoff_prover]
#[verifier::rlimit(100)]
proof fn lemma_parse_sized(k: KindModel, n: nat)
    requires
        k == KindModel::Int(n) || k == KindModel::Uint(n) || k == KindModel::VarInt(n) || k
            == KindModel::VarUint(n) || k == KindModel::FixedBytes(n),
        n <= usize::MAX,
    ensures
        parse_kind(render(k)) == Some(normalize(k)),
{
    reveal(parse_kind);
    lemma_width_of_decimal(n);
    lemma_render_nonempty(k);
    let s = render(k);
    let d = decimal(n);
    lemma_differs_at(s, seq!['b', 'o', 'o', 'l'], 0);
    lemma_differs_at(s, seq!['t', 'u', 'p', 'l', 'e'], 0);
    if k == KindModel::Int(n) {
        assert(s.subrange(0, 3) =~= seq!['i', 'n', 't']);
        assert(after(s, 3) =~= d);
    } else if k == KindModel::Uint(n) {
        lemma_differs_at(s, seq!['i', 'n', 't'], 0);
        assert(s.subrange(0, 4) =~= seq!['u', 'i', 'n', 't']);
        assert(after(s, 4) =~= d);
    } else if k == KindModel::VarInt(n) {
        lemma_differs_at(s, seq!['i', 'n', 't'], 0);
        lemma_differs_at(s, seq!['u', 'i', 'n', 't'], 0);
        assert(s.subrange(0, 6) =~= seq!['v', 'a', 'r', 'i', 'n', 't']);
        assert(after(s, 6) =~= d);
    } else if k == KindModel::VarUint(n) {
        lemma_differs_at(s, seq!['i', 'n', 't'], 0);
        lemma_differs_at(s, seq!['u', 'i', 'n', 't'], 0);
        lemma_differs_at(s, seq!['v', 'a', 'r', 'i', 'n', 't'], 3);
        assert(s.subrange(0, 7) =~= seq!['v', 'a', 'r', 'u', 'i', 'n', 't']);
        assert(after(s, 7) =~= d);
    } else {
        lemma_differs_at(s, seq!['i', 'n', 't'], 0);
        lemma_differs_at(s, seq!['u', 'i', 'n', 't'], 0);
        lemma_differs_at(s, seq!['v', 'a', 'r', 'i', 'n', 't'], 0);
        lemma_differs_at(s, seq!['v', 'a', 'r', 'u', 'i', 'n', 't'], 0);
        lemma_differs_at(s, seq!['m', 'a', 'p', '('], 0);
        lemma_differs_at(s, seq!['c', 'e', 'l', 'l'], 0);
        lemma_differs_at(s, seq!['a', 'd', 'd', 'r', 'e', 's', 's'], 0);
        lemma_differs_at(s, seq!['t', 'o', 'k', 'e', 'n'], 0);
        lemma_differs_at(s, seq!['g', 'r', 'a', 'm'], 0);
        lemma_differs_at(s, seq!['b', 'y', 't', 'e', 's'], 0);
        assert(s.subrange(0, 10) =~= seq!['f', 'i', 'x', 'e', 'd', 'b', 'y', 't', 'e', 's']);
        assert(after(s, 10) =~= d);
    }
}

#[verifier::spinoff_prover]
#[verifier::rlimit(100)]
proof fn lemma_parse_word(k: KindModel)
    requires
        !(k is Int || k is Uint || k is VarInt || k is VarUint || k is FixedBytes || k is Array
            || k is FixedArray || k is Mapping || k is Optional),
    ensures
        parse_kind(render(k)) == Some(normalize(k)),
{
    reveal(parse_kind);
    let s = render(k);
    assert(s.len() > 0 && s.last() != ']');
    if !(k is Bool) {
        lemma_differs_at(s, seq!['b', 'o', 'o', 'l'], if k is Bytes { 1 } else { 0 });
    }
    if !(k is Tuple) {
        lemma_differs_at(s, seq!['t', 'u', 'p', 'l', 'e'], if k is Token || k is Time { 1 } else { 0 });
    } else {
        assert(normalize(k) == KindModel::Tuple(Seq::empty()));
    }
    lemma_differs_at(s, seq!['i', 'n', 't'], 0);
    lemma_differs_at(s, seq!['u', 'i', 'n', 't'], 0);
    lemma_differs_at(s, seq!['v', 'a', 'r', 'i', 'n', 't'], 0);
    lemma_differs_at(s, seq!['v', 'a', 'r', 'u', 'i', 'n', 't'], 0);
    lemma_differs_at(s, seq!['m', 'a', 'p', '('], 0);
    if !(k is Cell) {
        lemma_differs_at(s, seq!['c', 'e', 'l', 'l'], 0);
    }
    if !(k is Address) {
        lemma_differs_at(s, seq!['a', 'd', 'd', 'r', 'e', 's', 's'], 0);
    }
    if !(k is Token) {
        lemma_differs_at(s, seq!['t', 'o', 'k', 'e', 'n'], if k is Tuple || k is Time { 1 } else { 0 });
    }
    lemma_differs_at(s, seq!['g', 'r', 'a', 'm'], 0);
    if !(k is Bytes) {
        lemma_differs_at(s, seq!['b', 'y', 't', 'e', 's'], if k is Bool { 1 } else { 0 });
    }
    lemma_differs_at(s, seq!['f', 'i', 'x', 'e', 'd', 'b', 'y', 't', 'e', 's'], 0);
    if !(k is Time) {
        lemma_differs_at(s, seq!['t', 'i', 'm', 'e'], if k is Tuple || k is Token { 1 } else { 0 });
    }
    if !(k is Expire) {
        lemma_differs_at(s, seq!['e', 'x', 'p', 'i', 'r', 'e'], 0);
    }
    if !(k is PublicKey) {
        lemma_differs_at(s, seq!['p', 'u', 'b', 'k', 'e', 'y'], 0);
    }
}

} // verus!
