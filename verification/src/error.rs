//! Why a text was not accepted as a header.

use crate::text::{decimal_text, push_decimal};
use vstd::prelude::*;

verus! {

/// The reason for which a text is no header.
#[derive(Clone, Copy, Debug, PartialEq, Eq)]
pub enum ParseError {
    /// The text has fewer than eighty characters; `length` is their number.
    TooShort { length: usize },
    /// One of the first eighty characters is no hexadecimal digit; `position`
    /// is the index of the first such character, counted from zero.
    InvalidDigit { position: usize },
}

/// What `reason` says to a reader.
pub open spec fn parse_error_text(reason: ParseError) -> Seq<char> {
    match reason {
        ParseError::TooShort { length } => {
            "input too short: 80 characters needed, found "@ + decimal_text(length as nat)
        },
        ParseError::InvalidDigit { position } => {
            "input not hexadecimal: bad character at position "@ + decimal_text(position as nat)
        },
    }
}

impl ParseError {
    /// The reason in words, for a reader.
    pub fn message(&self) -> (text: String)
        ensures
            text@ == parse_error_text(*self),
    {
        let mut text = String::new();
        match self {
            ParseError::TooShort { length } => {
                text.append("input too short: 80 characters needed, found ");
                push_decimal(&mut text, *length as u64);
            },
            ParseError::InvalidDigit { position } => {
                text.append("input not hexadecimal: bad character at position ");
                push_decimal(&mut text, *position as u64);
            },
        }
        text
    }
}

} // verus!
