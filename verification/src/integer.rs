//! Unsigned decimal texts: an optional plus sign and digits, nothing else,
//! as `str::parse` takes them for the unsigned integer types.

use vstd::prelude::*;
use crate::parser::{
    digits_len, is_digit, leading_number, lemma_run_len_bounds, u64,
};
use crate::types::ErrorKind;
use vstd::slice::slice_subrange;

verus! {

/// Why a text is no unsigned integer.
#[derive(Debug, Clone, Copy, PartialEq, Eq, Structural)]
pub enum IntError {
    /// The text is empty.
    Empty,
    /// A byte is no digit, or there is no digit at all.
    InvalidDigit,
    /// The digits write a number above the largest that is accepted.
    PosOverflow,
}

impl IntError {
    /// The sentence that says what went wrong.
    pub open spec fn describe(self) -> Seq<char> {
        match self {
            IntError::Empty => "cannot parse integer from empty string"@,
            IntError::InvalidDigit => "invalid digit found in string"@,
            IntError::PosOverflow => "number too large to fit in target type"@,
        }
    }

    /// The sentence that says what went wrong, as a text.
    pub fn message(&self) -> (text: String)
        ensures
            text@ == self.describe(),
    {
        match self {
            IntError::Empty => "cannot parse integer from empty string".to_owned(),
            IntError::InvalidDigit => "invalid digit found in string".to_owned(),
            IntError::PosOverflow => "number too large to fit in target type".to_owned(),
        }
    }
}

/// The text without its plus sign, if it has one.
pub open spec fn unsigned_digits(text: Seq<u8>) -> Seq<u8> {
    if text.len() > 0 && text[0] == 43 {
        text.skip(1)
    } else {
        text
    }
}

/// The number up to `max` that `text` writes, or why it writes none. The
/// bytes are read from the left: a number that has grown above `max` is
/// reported before a later byte that is no digit.
pub open spec fn parse_spec(text: Seq<u8>, max: nat) -> Result<nat, IntError> {
    let digits = unsigned_digits(text);
    if text.len() == 0 {
        Err(IntError::Empty)
    } else if digits.len() == 0 {
        Err(IntError::InvalidDigit)
    } else if leading_number(digits) > max {
        Err(IntError::PosOverflow)
    } else if digits_len(digits) < digits.len() {
        Err(IntError::InvalidDigit)
    } else {
        Ok(leading_number(digits))
    }
}

/// Reads the whole of `text` as an unsigned integer up to `max`.
pub fn parse_unsigned(text: &[u8], max: u64) -> (r: Result<u64, IntError>)
    ensures
        match r {
            Ok(n) => parse_spec(text@, max as nat) == Ok::<nat, IntError>(n as nat),
            Err(reason) => parse_spec(text@, max as nat) == Err::<nat, IntError>(reason),
        },
{
    if text.len() == 0 {
        return Err(IntError::Empty);
    }
    let digits = if text[0] == 43 {
        slice_subrange(text, 1, text.len())
    } else {
        text
    };
    proof {
        lemma_run_len_bounds(digits@, |b: u8| is_digit(b));
    }
    match u64(digits) {
        Ok((rest, n)) => {
            if n > max {
                Err(IntError::PosOverflow)
            } else if rest.len() > 0 {
                Err(IntError::InvalidDigit)
            } else {
                Ok(n)
            }
        },
        Err((_, kind)) => {
            if matches!(kind, ErrorKind::Integer) {
                Err(IntError::PosOverflow)
            } else {
                Err(IntError::InvalidDigit)
            }
        },
    }
}

} // verus!
