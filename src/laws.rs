//! Properties of the conversions that hold for all inputs.
use vstd::prelude::*;

use crate::codecs::base64_decoded;
use crate::encode::{encode_object, encode_value};
use crate::error::ErrorModel;
use crate::kinds::{KindModel, ParamModel};
use crate::number::Number;
use crate::text::trimmed;
use crate::values::{Json, TokenModel};

verus! {

/// An object whose number of keys differs from the number of parameters is refused with
/// `ParameterCountMismatch`, whatever its keys are.
pub proof fn lemma_exact_arity(ps: Seq<ParamModel>, fs: Seq<(Seq<char>, Json)>)
    requires
        fs.len() != ps.len(),
    ensures
        encode_object(ps, Json::Object(fs)) == Err::<Seq<(Seq<char>, TokenModel)>, ErrorModel>(
            ErrorModel::ParameterCountMismatch,
        ),
        encode_value(KindModel::Tuple(ps), Json::Object(fs)) == Err::<TokenModel, ErrorModel>(
            ErrorModel::ParameterCountMismatch,
        ),
{
}

/// A fixed array of `n` items takes exactly `n` items; any other count is refused with
/// `InvalidArrayLength` of that count.
pub proof fn lemma_fixed_array_length(e: KindModel, n: nat, items: Seq<Json>)
    requires
        items.len() != n,
    ensures
        encode_value(KindModel::FixedArray(Box::new(e), n), Json::Array(items)) == Err::<
            TokenModel,
            ErrorModel,
        >(ErrorModel::InvalidArrayLength(items.len())),
{
}

/// Fixed bytes of length `n` take a payload of exactly `n` bytes; any other length is refused
/// with `InvalidBytesLength` of that length.
pub proof fn lemma_fixed_bytes_length(n: nat, s: Seq<char>, b: Seq<u8>)
    requires
        base64_decoded(trimmed(s)) == Some(b),
        b.len() != n,
    ensures
        encode_value(KindModel::FixedBytes(n), Json::Str(s)) == Err::<TokenModel, ErrorModel>(
            ErrorModel::InvalidBytesLength(b.len()),
        ),
{
}

/// An unsigned kind refuses a negative number with `UnsignedValueExpected`.
pub proof fn lemma_unsigned_refuses_negative(size: nat, n: Number)
    requires
        n.is_negative(),
    ensures
        encode_value(KindModel::Uint(size), Json::Number(n)) == Err::<TokenModel, ErrorModel>(
            ErrorModel::UnsignedValueExpected(n),
        ),
        encode_value(KindModel::VarUint(size), Json::Number(n)) == Err::<TokenModel, ErrorModel>(
            ErrorModel::UnsignedValueExpected(n),
        ),
        encode_value(KindModel::Token, Json::Number(n)) == Err::<TokenModel, ErrorModel>(
            ErrorModel::UnsignedValueExpected(n),
        ),
        encode_value(KindModel::Time, Json::Number(n)) == Err::<TokenModel, ErrorModel>(
            ErrorModel::UnsignedValueExpected(n),
        ),
        encode_value(KindModel::Expire, Json::Number(n)) == Err::<TokenModel, ErrorModel>(
            ErrorModel::UnsignedValueExpected(n),
        ),
{
}

/// An integer kind refuses a number with a fractional part with `IntegerValueExpected`.
pub proof fn lemma_integer_refuses_fraction(size: nat, n: Number)
    requires
        !n.is_integer(),
    ensures
        encode_value(KindModel::Int(size), Json::Number(n)) == Err::<TokenModel, ErrorModel>(
            ErrorModel::IntegerValueExpected(n),
        ),
        !n.is_negative() ==> encode_value(KindModel::Uint(size), Json::Number(n)) == Err::<
            TokenModel,
            ErrorModel,
        >(ErrorModel::IntegerValueExpected(n)),
{
}

/// A number with no fractional part that fits in 64 bits is read as its value by an
/// unsigned kind when it is not negative, and by a signed kind when it fits in 64 signed bits.
pub proof fn lemma_integral_number_read(size: nat, n: Number)
    requires
        n.is_integer(),
    ensures
        !n.is_negative() && n.magnitude() <= u64::MAX ==> encode_value(
            KindModel::Uint(size),
            Json::Number(n),
        ) == Ok::<TokenModel, ErrorModel>(TokenModel::Uint { size, number: n.magnitude() }),
        i64::MIN <= n.int_value() <= i64::MAX ==> encode_value(
            KindModel::Int(size),
            Json::Number(n),
        ) == Ok::<TokenModel, ErrorModel>(TokenModel::Int { size, number: n.int_value() }),
{
}

} // verus!
