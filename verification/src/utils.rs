//! Checks for command-line values that must be unsigned integers.

use vstd::prelude::*;
use vstd::utf8::encode_utf8;
use crate::integer::{parse_spec, parse_unsigned, IntError};

verus! {

/// The result of a check: nothing where `parsed` is a number, else the
/// sentence that says why it is none.
pub open spec fn checked(r: Result<(), String>, parsed: Result<nat, IntError>) -> bool {
    match parsed {
        Ok(_) => r is Ok,
        Err(reason) => r matches Err(text) && text@ == reason.describe(),
    }
}

/// Accepts `v` if it writes a number up to 65535.
pub fn is_u16(v: String) -> (r: Result<(), String>)
    ensures
        checked(r, parse_spec(encode_utf8(v@), 0xffff)),
{
    match parse_unsigned(v.as_str().as_bytes(), 0xffff) {
        Ok(_) => Ok(()),
        Err(reason) => Err(reason.message()),
    }
}

/// Accepts `v` if it writes a number up to 18446744073709551615.
pub fn is_u64(v: String) -> (r: Result<(), String>)
    ensures
        checked(r, parse_spec(encode_utf8(v@), 0xffff_ffff_ffff_ffff)),
{
    match parse_unsigned(v.as_str().as_bytes(), 0xffff_ffff_ffff_ffff) {
        Ok(_) => Ok(()),
        Err(reason) => Err(reason.message()),
    }
}

/// Accepts `v` if it writes a number up to 4294967295.
pub fn is_u32(v: String) -> (r: Result<(), String>)
    ensures
        checked(r, parse_spec(encode_utf8(v@), 0xffff_ffff)),
{
    match parse_unsigned(v.as_str().as_bytes(), 0xffff_ffff) {
        Ok(_) => Ok(()),
        Err(reason) => Err(reason.message()),
    }
}

} // verus!
