//! Errors of the ADS protocol layer.

use vstd::prelude::*;
use crate::text::{append_chars, chars_to_string, decimal, str_to_chars, u64_to_decimal};

verus! {

/// What can go wrong while decoding ADS data.
#[derive(Debug, Clone)]
pub enum AdsError {
    /// The data breaks a rule of the format or one of its limits.
    ParseError(String),
    /// The entry starts with a protocol version this library does not know.
    InvalidVersion(u8),
    /// A field needs more bytes than are left.
    IncompleteMessage { expected: usize, got: usize },
    /// A string field is not valid UTF-8.
    InvalidStringEncoding(String),
    /// A timestamp field is not a representable instant.
    InvalidTimestamp(String),
    /// A frame or buffer could not be handled.
    BufferError(String),
}

/// The abstract form of an `AdsError`: texts as character sequences.
pub enum AdsErrorModel {
    ParseError(Seq<char>),
    InvalidVersion(u8),
    IncompleteMessage { expected: usize, got: usize },
    InvalidStringEncoding(Seq<char>),
    InvalidTimestamp(Seq<char>),
    BufferError(Seq<char>),
}

impl View for AdsError {
    type V = AdsErrorModel;

    open spec fn view(&self) -> AdsErrorModel {
        match self {
            AdsError::ParseError(s) => AdsErrorModel::ParseError(s@),
            AdsError::InvalidVersion(v) => AdsErrorModel::InvalidVersion(*v),
            AdsError::IncompleteMessage { expected, got } => AdsErrorModel::IncompleteMessage {
                expected: *expected,
                got: *got,
            },
            AdsError::InvalidStringEncoding(s) => AdsErrorModel::InvalidStringEncoding(s@),
            AdsError::InvalidTimestamp(s) => AdsErrorModel::InvalidTimestamp(s@),
            AdsError::BufferError(s) => AdsErrorModel::BufferError(s@),
        }
    }
}

/// "<prefix><n> exceeds maximum <max>": the text of a broken limit.
pub open spec fn limit_text(prefix: Seq<char>, n: nat, max: nat) -> Seq<char> {
    prefix + decimal(n) + " exceeds maximum "@ + decimal(max)
}

/// Builds the text of a broken limit.
pub fn limit_message(prefix: &str, n: u64, max: u64) -> (s: String)
    ensures
        s@ == limit_text(prefix@, n as nat, max as nat),
{
    let mut v = str_to_chars(prefix);
    let digits = u64_to_decimal(n);
    append_chars(&mut v, &digits);
    let mid = str_to_chars(" exceeds maximum ");
    append_chars(&mut v, &mid);
    let max_digits = u64_to_decimal(max);
    append_chars(&mut v, &max_digits);
    chars_to_string(&v)
}

} // verus!
