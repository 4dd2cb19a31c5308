//! Conversion between loosely typed value trees and typed contract-interface tokens.
pub mod number;
pub mod text;
pub mod codecs;
pub mod error;
pub mod kinds;
pub mod values;
pub mod encode;
pub mod decode;
pub mod schema;
pub mod laws;
pub mod grammar_laws;
pub mod round_trip;
