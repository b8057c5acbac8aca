//! Shared result and error types of the matchers.

use vstd::prelude::*;

verus! {

/// Why a matcher did not produce a value.
#[derive(Debug, Clone, Copy, PartialEq, Eq, Structural)]
pub enum ErrorKind {
    /// A run of digits was present but does not fit the integer type.
    Integer,
    /// The fraction of a decimal literal does not fit.
    Float,
    /// The bytes of a text token are not UTF-8.
    NotUTF8,
    /// The bytes at this position can never form the expected token.
    NotMatched,
    /// The input ended before the expected token was complete.
    EOF,
}

/// A failure: the input as it was handed in, and the reason.
pub type ParseError<'a> = (&'a [u8], ErrorKind);

/// What every matcher returns: the rest of the input and the value, or the
/// untouched input and the reason.
pub type R<'a, O> = Result<(&'a [u8], O), ParseError<'a>>;

/// The result `r` of a matcher on `buf` is what `want` says: the same value
/// with the input after the bytes it took, or the same reason with the input
/// untouched.
pub open spec fn reads<'a, T>(
    r: R<'a, T>,
    buf: Seq<u8>,
    want: Result<(T, nat), ErrorKind>,
) -> bool {
    match (r, want) {
        (Ok((rest, got)), Ok((value, used))) => got == value && used <= buf.len() && rest@
            == buf.skip(used as int),
        (Err((rest, kind)), Err(reason)) => rest@ == buf && kind == reason,
        _ => false,
    }
}

/// One leaf value of a statistics document.
#[derive(Debug, Clone, Copy, PartialEq)]
pub enum Scalar<'a> {
    /// A bare text token.
    String(&'a str),
    /// A run of decimal digits.
    Integer(u64),
    /// A decimal literal `whole.fraction`: the number `whole`, the number
    /// that the fraction's digits write, and how many digits the fraction
    /// has, so that its value is `whole + frac / 10^digits`.
    Float { whole: u64, frac: u64, digits: usize },
    /// `true` or `false`.
    Bool(bool),
}

/// What a `Scalar` stands for.
pub enum ScalarValue {
    Text(Seq<char>),
    Integer(nat),
    Decimal { whole: nat, frac: nat, digits: nat },
    Bool(bool),
}

impl<'a> View for Scalar<'a> {
    type V = ScalarValue;

    open spec fn view(&self) -> ScalarValue {
        match *self {
            Scalar::String(s) => ScalarValue::Text(s@),
            Scalar::Integer(n) => ScalarValue::Integer(n as nat),
            Scalar::Float { whole, frac, digits } => ScalarValue::Decimal {
                whole: whole as nat,
                frac: frac as nat,
                digits: digits as nat,
            },
            Scalar::Bool(b) => ScalarValue::Bool(b),
        }
    }
}

} // verus!
