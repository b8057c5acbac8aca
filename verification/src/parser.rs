//! Byte-level matchers. Each takes the input and returns either the rest of
//! the input with the value it read, or the input untouched with the reason.

use vstd::prelude::*;
use vstd::slice::slice_subrange;
use vstd::string::StringSliceAdditionalSpecFns;
use vstd::utf8::{
    decode_utf8, encode_utf8_decode_utf8, is_ascii_chars, is_ascii_chars_encode_utf8,
    partial_valid_utf8, partial_valid_utf8_extend_ascii_block, valid_utf8,
};
use crate::types::{ErrorKind, Scalar, ScalarValue, R};

verus! {

/// Matches the single byte of `c`.
pub fn char<'a>(buf: &'a [u8], c: char) -> (r: R<'a, char>)
    ensures
        r is Ok <==> buf@.len() > 0 && buf@[0] == c as u8,
        r matches Ok((rest, v)) ==> rest@ == buf@.skip(1) && v == buf@[0] as char,
        r matches Err((rest, kind)) ==> rest@ == buf@ && kind == byte_failure(buf@),
{
    if buf.len() == 0 {
        return Err((buf, ErrorKind::EOF));
    }
    if buf[0] == c as u8 {
        return Ok((slice_subrange(buf, 1, buf.len()), buf[0] as char));
    }
    Err((buf, ErrorKind::NotMatched))
}

/// Matches a carriage return followed by a line feed.
pub fn crlf<'a>(buf: &'a [u8]) -> (r: R<'a, ()>)
    ensures
        r is Ok <==> starts_with_crlf(buf@),
        r matches Ok((rest, _)) ==> rest@ == buf@.skip(2),
        r matches Err((rest, kind)) ==> rest@ == buf@ && kind == crlf_failure(buf@),
{
    if buf.len() == 0 {
        return Err((buf, ErrorKind::EOF));
    }
    if buf[0] != 13 {
        return Err((buf, ErrorKind::NotMatched));
    }
    if buf.len() == 1 {
        return Err((buf, ErrorKind::EOF));
    }
    if buf[1] != 10 {
        return Err((buf, ErrorKind::NotMatched));
    }
    Ok((slice_subrange(buf, 2, buf.len()), ()))
}

/// The input begins with the two bytes of a line end.
pub open spec fn starts_with_crlf(buf: Seq<u8>) -> bool {
    buf.len() >= 2 && buf[0] == 13 && buf[1] == 10
}

/// The reason `crlf` gives on an input that does not begin with a line end:
/// exhaustion where the input is a proper prefix of one, mismatch otherwise.
pub open spec fn crlf_failure(buf: Seq<u8>) -> ErrorKind {
    if buf.len() == 0 || (buf.len() == 1 && buf[0] == 13) {
        ErrorKind::EOF
    } else {
        ErrorKind::NotMatched
    }
}

/// The reason a single-byte matcher gives on an input that does not begin
/// with its byte.
pub open spec fn byte_failure(buf: Seq<u8>) -> ErrorKind {
    if buf.len() == 0 {
        ErrorKind::EOF
    } else {
        ErrorKind::NotMatched
    }
}

/// Matches one space.
pub fn space<'a>(buf: &'a [u8]) -> (r: R<'a, ()>)
    ensures
        r is Ok <==> buf@.len() > 0 && buf@[0] == 32,
        r matches Ok((rest, _)) ==> rest@ == buf@.skip(1),
        r matches Err((rest, kind)) ==> rest@ == buf@ && kind == byte_failure(buf@),
{
    match char(buf, ' ') {
        Ok((rest, _)) => Ok((rest, ())),
        Err(e) => Err(e),
    }
}

/// Matches one line feed.
pub fn lf<'a>(buf: &'a [u8]) -> (r: R<'a, ()>)
    ensures
        r is Ok <==> buf@.len() > 0 && buf@[0] == 10,
        r matches Ok((rest, _)) ==> rest@ == buf@.skip(1),
        r matches Err((rest, kind)) ==> rest@ == buf@ && kind == byte_failure(buf@),
{
    match char(buf, '\n') {
        Ok((rest, _)) => Ok((rest, ())),
        Err(e) => Err(e),
    }
}

/// The reason `chars` gives on an input that does not begin with `lit`:
/// exhaustion where the input is empty or a proper prefix of `lit`, mismatch
/// where some byte differs.
pub open spec fn literal_failure(buf: Seq<u8>, lit: Seq<u8>) -> ErrorKind {
    if buf.len() == 0 || buf.is_prefix_of(lit) {
        ErrorKind::EOF
    } else {
        ErrorKind::NotMatched
    }
}

/// The input is not empty and begins with `lit`.
pub open spec fn starts_with(buf: Seq<u8>, lit: Seq<u8>) -> bool {
    buf.len() > 0 && lit.is_prefix_of(buf)
}

/// Matches the bytes of `value` and returns the part of the input that
/// held them.
pub fn chars<'a>(buf: &'a [u8], value: &str) -> (r: R<'a, &'a [u8]>)
    ensures
        r is Ok <==> starts_with(buf@, value.spec_bytes()),
        r matches Ok((rest, v)) ==> rest@ == buf@.skip(value.spec_bytes().len() as int) && v@
            == value.spec_bytes(),
        r matches Err((rest, kind)) ==> rest@ == buf@ && kind == literal_failure(
            buf@,
            value.spec_bytes(),
        ),
{
    let lit = value.as_bytes();
    if buf.len() == 0 {
        return Err((buf, ErrorKind::EOF));
    }
    let n = lit.len();
    let mut i: usize = 0;
    while i < n && i < buf.len()
        invariant
            lit@ == value.spec_bytes(),
            buf@.len() > 0,
            n == lit@.len(),
            i <= n,
            i <= buf@.len(),
            forall|j: int| 0 <= j < i ==> buf@[j] == lit@[j],
        decreases n - i,
    {
        if buf[i] != lit[i] {
            assert(!lit@.is_prefix_of(buf@)) by {
                if lit@.is_prefix_of(buf@) {
                    assert(buf@.subrange(0, lit@.len() as int)[i as int] == lit@[i as int]);
                }
            }
            assert(!buf@.is_prefix_of(lit@)) by {
                if buf@.is_prefix_of(lit@) {
                    assert(lit@.subrange(0, buf@.len() as int)[i as int] == buf@[i as int]);
                }
            }
            return Err((buf, ErrorKind::NotMatched));
        }
        i += 1;
    }
    if buf.len() < n {
        assert(buf@ =~= lit@.subrange(0, buf@.len() as int));
        return Err((buf, ErrorKind::EOF));
    }
    assert(lit@ =~= buf@.subrange(0, n as int));
    Ok((slice_subrange(buf, n, buf.len()), slice_subrange(buf, 0, n)))
}

/// An ASCII decimal digit.
pub open spec fn is_digit(b: u8) -> bool {
    48 <= b <= 57
}

/// An ASCII letter.
pub open spec fn is_alphabetic(b: u8) -> bool {
    65 <= b <= 90 || 97 <= b <= 122
}

/// An ASCII letter or digit.
pub open spec fn is_alphanumeric(b: u8) -> bool {
    is_digit(b) || is_alphabetic(b)
}

/// A space, a tab, a line feed, a form feed or a carriage return.
pub open spec fn is_whitespace(b: u8) -> bool {
    b == 32 || b == 9 || b == 10 || b == 12 || b == 13
}

/// Tells whether `b` is an ASCII decimal digit.
#[verifier::when_used_as_spec(is_digit)]
pub fn is_ascii_digit(b: u8) -> (r: bool)
    ensures
        r == is_digit(b),
{
    b >= 48 && b <= 57
}

/// Tells whether `b` is an ASCII letter.
#[verifier::when_used_as_spec(is_alphabetic)]
pub fn is_ascii_alphabetic(b: u8) -> (r: bool)
    ensures
        r == is_alphabetic(b),
{
    (b >= 65 && b <= 90) || (b >= 97 && b <= 122)
}

/// Tells whether `b` is an ASCII letter or digit.
#[verifier::when_used_as_spec(is_alphanumeric)]
pub fn is_ascii_alphanumeric(b: u8) -> (r: bool)
    ensures
        r == is_alphanumeric(b),
{
    is_ascii_digit(b) || is_ascii_alphabetic(b)
}

/// Tells whether `b` is ASCII white space.
#[verifier::when_used_as_spec(is_whitespace)]
pub fn is_ascii_whitespace(b: u8) -> (r: bool)
    ensures
        r == is_whitespace(b),
{
    b == 32 || b == 9 || b == 10 || b == 12 || b == 13
}

/// Takes the longest non-empty run of leading bytes for which `func`
/// answers `true`.
pub fn take_while<'a, F: Fn(u8) -> bool>(buf: &'a [u8], func: F) -> (r: R<'a, &'a [u8]>)
    requires
        forall|b: u8| func.requires((b,)),
    ensures
        r matches Ok((rest, v)) ==> {
            &&& 0 < v@.len() <= buf@.len()
            &&& v@ == buf@.take(v@.len() as int)
            &&& rest@ == buf@.skip(v@.len() as int)
            &&& forall|j: int| 0 <= j < v@.len() ==> func.ensures((#[trigger] buf@[j],), true)
            &&& v@.len() < buf@.len() ==> func.ensures((buf@[v@.len() as int],), false)
        },
        r matches Err((rest, kind)) ==> {
            &&& rest@ == buf@
            &&& kind == byte_failure(buf@)
            &&& buf@.len() > 0 ==> func.ensures((buf@[0],), false)
        },
{
    if buf.len() == 0 {
        return Err((buf, ErrorKind::EOF));
    }
    let mut idx: usize = 0;
    while idx < buf.len()
        invariant
            idx <= buf@.len(),
            forall|b: u8| func.requires((b,)),
            forall|j: int| 0 <= j < idx ==> func.ensures((#[trigger] buf@[j],), true),
        ensures
            idx <= buf@.len(),
            forall|j: int| 0 <= j < idx ==> func.ensures((#[trigger] buf@[j],), true),
            idx < buf@.len() ==> func.ensures((buf@[idx as int],), false),
        decreases buf@.len() - idx,
    {
        if !func(buf[idx]) {
            break ;
        }
        idx += 1;
    }
    if idx == 0 {
        return Err((buf, ErrorKind::NotMatched));
    }
    Ok((slice_subrange(buf, idx, buf.len()), slice_subrange(buf, 0, idx)))
}

/// Takes the longest non-empty run of leading bytes for which `func`
/// answers `false`.
pub fn take_until<'a, F: Fn(u8) -> bool>(buf: &'a [u8], func: F) -> (r: R<'a, &'a [u8]>)
    requires
        forall|b: u8| func.requires((b,)),
    ensures
        r matches Ok((rest, v)) ==> {
            &&& 0 < v@.len() <= buf@.len()
            &&& v@ == buf@.take(v@.len() as int)
            &&& rest@ == buf@.skip(v@.len() as int)
            &&& forall|j: int| 0 <= j < v@.len() ==> func.ensures((#[trigger] buf@[j],), false)
            &&& v@.len() < buf@.len() ==> func.ensures((buf@[v@.len() as int],), true)
        },
        r matches Err((rest, kind)) ==> {
            &&& rest@ == buf@
            &&& kind == byte_failure(buf@)
            &&& buf@.len() > 0 ==> func.ensures((buf@[0],), true)
        },
{
    if buf.len() == 0 {
        return Err((buf, ErrorKind::EOF));
    }
    let mut idx: usize = 0;
    while idx < buf.len()
        invariant
            idx <= buf@.len(),
            forall|b: u8| func.requires((b,)),
            forall|j: int| 0 <= j < idx ==> func.ensures((#[trigger] buf@[j],), false),
        ensures
            idx <= buf@.len(),
            forall|j: int| 0 <= j < idx ==> func.ensures((#[trigger] buf@[j],), false),
            idx < buf@.len() ==> func.ensures((buf@[idx as int],), true),
        decreases buf@.len() - idx,
    {
        if func(buf[idx]) {
            break ;
        }
        idx += 1;
    }
    if idx == 0 {
        return Err((buf, ErrorKind::NotMatched));
    }
    Ok((slice_subrange(buf, idx, buf.len()), slice_subrange(buf, 0, idx)))
}

/// Takes the first `len` bytes. An input that is empty or shorter than
/// `len` is exhausted.
pub fn take<'a>(buf: &'a [u8], len: usize) -> (r: R<'a, &'a [u8]>)
    ensures
        r is Ok <==> 0 < buf@.len() && len <= buf@.len(),
        r matches Ok((rest, v)) ==> rest@ == buf@.skip(len as int) && v@ == buf@.take(len as int),
        r matches Err((rest, kind)) ==> rest@ == buf@ && kind == ErrorKind::EOF,
{
    if buf.len() == 0 || buf.len() < len {
        return Err((buf, ErrorKind::EOF));
    }
    Ok((slice_subrange(buf, len, buf.len()), slice_subrange(buf, 0, len)))
}

/// Skipping twice is skipping the sum.
pub proof fn lemma_skip_skip(buf: Seq<u8>, m: int, n: int)
    requires
        0 <= m,
        0 <= n,
        m + n <= buf.len(),
    ensures
        buf.skip(m).skip(n) =~= buf.skip(m + n),
{
}

/// Length of the longest run of leading bytes of `buf` that satisfy `p`.
pub open spec fn run_len(buf: Seq<u8>, p: spec_fn(u8) -> bool) -> nat
    decreases buf.len(),
{
    if buf.len() > 0 && p(buf[0]) {
        1 + run_len(buf.skip(1), p)
    } else {
        0
    }
}

/// A count `n` of leading bytes that all satisfy `p`, with the input ending
/// there or going on with a byte that does not, is the run's length.
pub proof fn lemma_run_len_is(buf: Seq<u8>, p: spec_fn(u8) -> bool, n: int)
    requires
        0 <= n <= buf.len(),
        forall|j: int| 0 <= j < n ==> p(#[trigger] buf[j]),
        n < buf.len() ==> !p(buf[n]),
    ensures
        run_len(buf, p) == n,
    decreases n,
{
    if n > 0 {
        let tail = buf.skip(1);
        assert forall|j: int| 0 <= j < n - 1 implies p(#[trigger] tail[j]) by {
            assert(tail[j] == buf[j + 1]);
        }
        lemma_run_len_is(tail, p, n - 1);
    }
}

/// The run is within the input, every byte of it satisfies `p`, and the
/// byte after it, if there is one, does not.
pub proof fn lemma_run_len_bounds(buf: Seq<u8>, p: spec_fn(u8) -> bool)
    ensures
        run_len(buf, p) <= buf.len(),
        forall|j: int| 0 <= j < run_len(buf, p) ==> p(#[trigger] buf[j]),
        run_len(buf, p) < buf.len() ==> !p(buf[run_len(buf, p) as int]),
    decreases buf.len(),
{
    if buf.len() > 0 && p(buf[0]) {
        let tail = buf.skip(1);
        lemma_run_len_bounds(tail, p);
        assert forall|j: int| 0 <= j < run_len(buf, p) implies p(#[trigger] buf[j]) by {
            if j > 0 {
                assert(buf[j] == tail[j - 1]);
            }
        }
        if run_len(buf, p) < buf.len() {
            assert(buf[run_len(buf, p) as int] == tail[run_len(tail, p) as int]);
        }
    }
}

/// The number that a sequence of decimal digits writes.
pub open spec fn digits_value(s: Seq<u8>) -> nat
    decreases s.len(),
{
    if s.len() == 0 {
        0
    } else {
        digits_value(s.drop_last()) * 10 + (s.last() - 48) as nat
    }
}

/// A prefix of a sequence writes no larger a number than the whole.
pub proof fn lemma_digits_value_prefix(s: Seq<u8>, k: int)
    requires
        0 <= k <= s.len(),
    ensures
        digits_value(s.take(k)) <= digits_value(s),
    decreases s.len() - k,
{
    if k == s.len() {
        assert(s.take(k) =~= s);
    } else {
        let init = s.drop_last();
        lemma_digits_value_prefix(init, k);
        assert(init.take(k) =~= s.take(k));
    }
}

/// Length of the leading run of decimal digits.
pub open spec fn digits_len(buf: Seq<u8>) -> nat {
    run_len(buf, |b: u8| is_digit(b))
}

/// The number that the leading run of decimal digits writes.
pub open spec fn leading_number(buf: Seq<u8>) -> nat {
    digits_value(buf.take(digits_len(buf) as int))
}

/// The reason `u64` gives where it reads no number: exhaustion on an empty
/// input, mismatch where the first byte is no digit, and a malformed
/// integer where the digits write a number above `u64::MAX`.
pub open spec fn integer_failure(buf: Seq<u8>) -> ErrorKind {
    if buf.len() == 0 {
        ErrorKind::EOF
    } else if digits_len(buf) == 0 {
        ErrorKind::NotMatched
    } else {
        ErrorKind::Integer
    }
}

/// Reads the leading run of decimal digits as a number.
pub fn u64<'a>(buf: &'a [u8]) -> (r: R<'a, u64>)
    ensures
        r is Ok <==> digits_len(buf@) > 0 && leading_number(buf@) <= u64::MAX,
        r matches Ok((rest, v)) ==> rest@ == buf@.skip(digits_len(buf@) as int) && v
            == leading_number(buf@),
        r matches Err((rest, kind)) ==> rest@ == buf@ && kind == integer_failure(buf@),
{
    let ghost p = |b: u8| is_digit(b);
    proof {
        lemma_run_len_bounds(buf@, p);
    }
    if buf.len() == 0 {
        return Err((buf, ErrorKind::EOF));
    }
    let mut idx: usize = 0;
    let mut acc: u64 = 0;
    while idx < buf.len() && is_ascii_digit(buf[idx])
        invariant
            idx <= buf@.len(),
            idx <= digits_len(buf@),
            digits_len(buf@) <= buf@.len(),
            p == (|b: u8| is_digit(b)),
            forall|j: int| 0 <= j < digits_len(buf@) ==> is_digit(#[trigger] buf@[j]),
            forall|j: int| 0 <= j < idx ==> is_digit(#[trigger] buf@[j]),
            acc == digits_value(buf@.take(idx as int)),
        decreases buf@.len() - idx,
    {
        let d: u64 = (buf[idx] - 48) as u64;
        proof {
            assert(buf@.take(idx + 1).drop_last() =~= buf@.take(idx as int));
            assert(buf@.take(idx + 1).last() == buf@[idx as int]);
            if idx as nat == digits_len(buf@) {
                lemma_run_len_bounds(buf@, p);
            }
            let run = buf@.take(digits_len(buf@) as int);
            lemma_digits_value_prefix(run, idx + 1);
            assert(run.take(idx + 1) =~= buf@.take(idx + 1));
        }
        if acc > (u64::MAX - d) / 10 {
            return Err((buf, ErrorKind::Integer));
        }
        acc = acc * 10 + d;
        idx += 1;
    }
    proof {
        lemma_run_len_is(buf@, p, idx as int);
    }
    if idx == 0 {
        return Err((buf, ErrorKind::NotMatched));
    }
    Ok((slice_subrange(buf, idx, buf.len()), acc))
}

/// `core::str::from_utf8`: the text that `bytes` encode, or nothing where
/// they are not UTF-8. Believed of std: it answers with a text exactly on
/// valid UTF-8, and the text then has those same bytes.
#[verifier::external_body]
pub(crate) fn utf8_text<'a>(bytes: &'a [u8]) -> (r: Option<&'a str>)
    ensures
        r is Some <==> valid_utf8(bytes@),
        r matches Some(s) ==> s.spec_bytes() == bytes@,
{
    core::str::from_utf8(bytes).ok()
}

/// Length of the leading run of ASCII letters and digits.
pub open spec fn word_len(buf: Seq<u8>) -> nat {
    run_len(buf, |b: u8| is_alphanumeric(b))
}

/// Bytes below 128 are UTF-8 as they stand.
pub proof fn lemma_ascii_is_utf8(bytes: Seq<u8>)
    requires
        forall|j: int| 0 <= j < bytes.len() ==> #[trigger] bytes[j] < 128,
    ensures
        valid_utf8(bytes),
{
    assert(bytes.subrange(0, 0) =~= Seq::<u8>::empty());
    assert(partial_valid_utf8(bytes, 0));
    partial_valid_utf8_extend_ascii_block(bytes, 0, bytes.len() as int);
    assert(bytes.subrange(0, bytes.len() as int) =~= bytes);
}

/// Reads the leading run of ASCII letters and digits as a text.
pub fn string<'a>(buf: &'a [u8]) -> (r: R<'a, &'a str>)
    ensures
        r is Ok <==> word_len(buf@) > 0,
        r matches Ok((rest, s)) ==> rest@ == buf@.skip(word_len(buf@) as int) && s.spec_bytes()
            == buf@.take(word_len(buf@) as int),
        r matches Err((rest, kind)) ==> rest@ == buf@ && kind == byte_failure(buf@),
{
    let ghost p = |b: u8| is_alphanumeric(b);
    match take_while(buf, is_ascii_alphanumeric) {
        Ok((rest, word)) => {
            proof {
                lemma_run_len_is(buf@, p, word@.len() as int);
                lemma_ascii_is_utf8(word@);
            }
            match utf8_text(word) {
                Some(s) => Ok((rest, s)),
                None => Err((buf, ErrorKind::NotUTF8)),
            }
        },
        Err(e) => {
            proof {
                lemma_run_len_is(buf@, p, 0);
            }
            Err(e)
        },
    }
}

/// The bytes of an ASCII text are its characters, one byte each.
pub proof fn lemma_ascii_bytes(s: &str)
    requires
        is_ascii_chars(s@),
    ensures
        s.spec_bytes().len() == s@.len(),
        forall|i: int| 0 <= i < s@.len() ==> #[trigger] s.spec_bytes()[i] == s@[i] as u8,
{
    is_ascii_chars_encode_utf8(s@);
}

/// The bytes of the two literals that write a boolean.
pub proof fn lemma_bool_literals()
    ensures
        "true".spec_bytes() =~= seq![116u8, 114, 117, 101],
        "false".spec_bytes() =~= seq![102u8, 97, 108, 115, 101],
{
    reveal_strlit("true");
    reveal_strlit("false");
    lemma_ascii_bytes("true");
    lemma_ascii_bytes("false");
}

/// The reason `bool` gives where the input begins with neither literal:
/// exhaustion where the input is empty or a proper prefix of one of them.
pub open spec fn bool_failure(buf: Seq<u8>) -> ErrorKind {
    if buf.len() == 0 || buf.is_prefix_of("true".spec_bytes()) || buf.is_prefix_of(
        "false".spec_bytes(),
    ) {
        ErrorKind::EOF
    } else {
        ErrorKind::NotMatched
    }
}

/// Matches the literal `true` or the literal `false`.
pub fn bool<'a>(buf: &'a [u8]) -> (r: R<'a, bool>)
    ensures
        r is Ok <==> starts_with(buf@, "true".spec_bytes()) || starts_with(
            buf@,
            "false".spec_bytes(),
        ),
        r matches Ok((rest, v)) ==> v == starts_with(buf@, "true".spec_bytes()) && rest@
            == buf@.skip(if v { 4int } else { 5int }),
        r matches Err((rest, kind)) ==> rest@ == buf@ && kind == bool_failure(buf@),
{
    proof {
        lemma_bool_literals();
    }
    match chars(buf, "true") {
        Ok((rest, _)) => Ok((rest, true)),
        Err((_, first)) => match chars(buf, "false") {
            Ok((rest, _)) => Ok((rest, false)),
            Err((_, second)) => {
                if matches!(first, ErrorKind::EOF) || matches!(second, ErrorKind::EOF) {
                    Err((buf, ErrorKind::EOF))
                } else {
                    Err((buf, ErrorKind::NotMatched))
                }
            },
        },
    }
}

/// The bytes after the dot that follows the leading run of digits.
pub open spec fn fraction(buf: Seq<u8>) -> Seq<u8> {
    buf.skip(digits_len(buf) as int + 1)
}

/// The leading run of digits is followed by a dot and at least one digit.
pub open spec fn has_fraction(buf: Seq<u8>) -> bool {
    &&& digits_len(buf) < buf.len()
    &&& buf[digits_len(buf) as int] == 46
    &&& digits_len(fraction(buf)) > 0
}

/// How many bytes the number at the start of `buf` takes.
pub open spec fn number_len(buf: Seq<u8>) -> nat {
    if has_fraction(buf) {
        digits_len(buf) + 1 + digits_len(fraction(buf))
    } else {
        digits_len(buf)
    }
}

/// The number at the start of `buf`: a decimal where a fraction follows the
/// digits, an integer otherwise.
pub open spec fn number_value(buf: Seq<u8>) -> ScalarValue {
    if has_fraction(buf) {
        ScalarValue::Decimal {
            whole: leading_number(buf),
            frac: leading_number(fraction(buf)),
            digits: digits_len(fraction(buf)),
        }
    } else {
        ScalarValue::Integer(leading_number(buf))
    }
}

/// The number at the start of `buf` can be held: its digits, and those of
/// its fraction if it has one, write numbers up to `u64::MAX`.
pub open spec fn number_fits(buf: Seq<u8>) -> bool {
    &&& leading_number(buf) <= u64::MAX
    &&& has_fraction(buf) ==> leading_number(fraction(buf)) <= u64::MAX
}

/// The reason `number` gives where it reads no number: that of `u64` for
/// the leading digits, and a malformed decimal where only the fraction does
/// not fit.
pub open spec fn number_failure(buf: Seq<u8>) -> ErrorKind {
    if digits_len(buf) > 0 && leading_number(buf) <= u64::MAX {
        ErrorKind::Float
    } else {
        integer_failure(buf)
    }
}

/// Reads an integer, or a decimal where a dot and further digits follow.
pub fn number<'a>(buf: &'a [u8]) -> (r: R<'a, Scalar<'a>>)
    ensures
        r is Ok <==> digits_len(buf@) > 0 && number_fits(buf@),
        r matches Ok((rest, v)) ==> rest@ == buf@.skip(number_len(buf@) as int) && v@
            == number_value(buf@),
        r matches Err((rest, kind)) ==> rest@ == buf@ && kind == number_failure(buf@),
{
    proof {
        lemma_run_len_bounds(buf@, |b: u8| is_digit(b));
    }
    let (after, whole) = match u64(buf) {
        Ok(found) => found,
        Err(e) => {
            return Err(e);
        },
    };
    match char(after, '.') {
        Ok((tail, _)) => {
            assert(tail@ =~= fraction(buf@));
            proof {
                lemma_run_len_bounds(tail@, |b: u8| is_digit(b));
            }
            match u64(tail) {
                Ok((rest, frac)) => {
                    let digits: usize = tail.len() - rest.len();
                    assert(rest@ =~= buf@.skip(number_len(buf@) as int));
                    Ok((rest, Scalar::Float { whole, frac, digits }))
                },
                Err((_, kind)) => {
                    if matches!(kind, ErrorKind::Integer) {
                        Err((buf, ErrorKind::Float))
                    } else {
                        Ok((after, Scalar::Integer(whole)))
                    }
                },
            }
        },
        Err(_) => Ok((after, Scalar::Integer(whole))),
    }
}

/// A number lies within the input.
pub proof fn lemma_number_len(buf: Seq<u8>)
    ensures
        number_len(buf) <= buf.len(),
{
    lemma_run_len_bounds(buf, |b: u8| is_digit(b));
    if has_fraction(buf) {
        lemma_run_len_bounds(fraction(buf), |b: u8| is_digit(b));
    }
}

/// A scalar lies within the input.
pub proof fn lemma_scalar_len(buf: Seq<u8>)
    ensures
        scalar_len(buf) <= buf.len(),
{
    lemma_bool_literals();
    lemma_number_len(buf);
    lemma_run_len_bounds(buf, |b: u8| is_alphanumeric(b));
}

/// The input begins with one of the two boolean literals.
pub open spec fn is_bool(buf: Seq<u8>) -> bool {
    starts_with(buf, "true".spec_bytes()) || starts_with(buf, "false".spec_bytes())
}

/// How many bytes the scalar at the start of `buf` takes: a boolean literal,
/// else a number, else a run of letters and digits.
pub open spec fn scalar_len(buf: Seq<u8>) -> nat {
    if starts_with(buf, "true".spec_bytes()) {
        4
    } else if starts_with(buf, "false".spec_bytes()) {
        5
    } else if digits_len(buf) > 0 {
        number_len(buf)
    } else {
        word_len(buf)
    }
}

/// The scalar at the start of `buf`.
pub open spec fn scalar_value(buf: Seq<u8>) -> ScalarValue {
    if is_bool(buf) {
        ScalarValue::Bool(starts_with(buf, "true".spec_bytes()))
    } else if digits_len(buf) > 0 {
        number_value(buf)
    } else {
        ScalarValue::Text(decode_utf8(buf.take(word_len(buf) as int)))
    }
}

/// The input begins with a scalar that can be held.
pub open spec fn scalar_ok(buf: Seq<u8>) -> bool {
    is_bool(buf) || (if digits_len(buf) > 0 {
        number_fits(buf)
    } else {
        word_len(buf) > 0
    })
}

/// The reason `scalar` gives where it reads none: that of `number` once the
/// input begins with a digit, else exhaustion on an empty input and mismatch
/// on any other.
pub open spec fn scalar_failure(buf: Seq<u8>) -> ErrorKind {
    if digits_len(buf) > 0 {
        number_failure(buf)
    } else {
        byte_failure(buf)
    }
}

/// Reads a boolean, else a number, else a bare text. A number that begins
/// with a digit and does not fit is an error: the text is not tried.
pub fn scalar<'a>(i: &'a [u8]) -> (r: R<'a, Scalar<'a>>)
    ensures
        r is Ok <==> scalar_ok(i@),
        r matches Ok((rest, v)) ==> rest@ == i@.skip(scalar_len(i@) as int) && v@
            == scalar_value(i@),
        r matches Err((rest, kind)) ==> rest@ == i@ && kind == scalar_failure(i@),
{
    if let Ok((rest, val)) = bool(i) {
        return Ok((rest, Scalar::Bool(val)));
    }
    match number(i) {
        Ok(found) => Ok(found),
        Err((_, kind)) => {
            if matches!(kind, ErrorKind::Integer) || matches!(kind, ErrorKind::Float) {
                return Err((i, kind));
            }
            match string(i) {
                Ok((rest, val)) => {
                    proof {
                        encode_utf8_decode_utf8(val@);
                    }
                    Ok((rest, Scalar::String(val)))
                },
                Err(e) => Err(e),
            }
        },
    }
}

} // verus!
