//! The closed set of reasons for which a conversion fails.
use vstd::prelude::*;

use crate::number::Number;

verus! {

#[derive(Clone, Debug, PartialEq)]
pub enum TokensJsonError {
    ParameterCountMismatch,
    ObjectExpected,
    ArrayExpected,
    ParameterNotFound(String),
    InvalidNumber(String),
    IntegerValueExpected(Number),
    UnsignedValueExpected(Number),
    NumberExpected,
    BoolExpected,
    InvalidArrayLength(usize),
    InvalidCell,
    StringExpected,
    MapItemExpected,
    InvalidAddress,
    InvalidBytes,
    InvalidBytesLength(usize),
    InvalidPublicKey,
    ParamTypeExpected,
    InvalidComponents,
}

/// What a [`TokensJsonError`] says, with its texts as character sequences.
pub enum ErrorModel {
    ParameterCountMismatch,
    ObjectExpected,
    ArrayExpected,
    ParameterNotFound(Seq<char>),
    InvalidNumber(Seq<char>),
    IntegerValueExpected(Number),
    UnsignedValueExpected(Number),
    NumberExpected,
    BoolExpected,
    InvalidArrayLength(nat),
    InvalidCell,
    StringExpected,
    MapItemExpected,
    InvalidAddress,
    InvalidBytes,
    InvalidBytesLength(nat),
    InvalidPublicKey,
    ParamTypeExpected,
    InvalidComponents,
}

impl View for TokensJsonError {
    type V = ErrorModel;

    open spec fn view(&self) -> ErrorModel {
        match self {
            TokensJsonError::ParameterCountMismatch => ErrorModel::ParameterCountMismatch,
            TokensJsonError::ObjectExpected => ErrorModel::ObjectExpected,
            TokensJsonError::ArrayExpected => ErrorModel::ArrayExpected,
            TokensJsonError::ParameterNotFound(s) => ErrorModel::ParameterNotFound(s@),
            TokensJsonError::InvalidNumber(s) => ErrorModel::InvalidNumber(s@),
            TokensJsonError::IntegerValueExpected(n) => ErrorModel::IntegerValueExpected(*n),
            TokensJsonError::UnsignedValueExpected(n) => ErrorModel::UnsignedValueExpected(*n),
            TokensJsonError::NumberExpected => ErrorModel::NumberExpected,
            TokensJsonError::BoolExpected => ErrorModel::BoolExpected,
            TokensJsonError::InvalidArrayLength(n) => ErrorModel::InvalidArrayLength(*n as nat),
            TokensJsonError::InvalidCell => ErrorModel::InvalidCell,
            TokensJsonError::StringExpected => ErrorModel::StringExpected,
            TokensJsonError::MapItemExpected => ErrorModel::MapItemExpected,
            TokensJsonError::InvalidAddress => ErrorModel::InvalidAddress,
            TokensJsonError::InvalidBytes => ErrorModel::InvalidBytes,
            TokensJsonError::InvalidBytesLength(n) => ErrorModel::InvalidBytesLength(*n as nat),
            TokensJsonError::InvalidPublicKey => ErrorModel::InvalidPublicKey,
            TokensJsonError::ParamTypeExpected => ErrorModel::ParamTypeExpected,
            TokensJsonError::InvalidComponents => ErrorModel::InvalidComponents,
        }
    }
}

} // verus!
