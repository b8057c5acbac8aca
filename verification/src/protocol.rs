//! The replies of the server and the commands of the client: one recognizer
//! per reply keyword, the decoder that tries them in turn, the parser that
//! drains a buffer of every complete reply, and the command encoder.

use vstd::prelude::*;
use vstd::slice::slice_to_vec;
use vstd::string::StringSliceAdditionalSpecFns;
use vstd::utf8::{decode_utf8, encode_utf8_decode_utf8, valid_utf8};
use crate::parser::{
    byte_failure, chars, crlf, crlf_failure, digits_len, integer_failure, is_ascii_whitespace,
    is_digit, is_whitespace, leading_number, lemma_ascii_bytes, lemma_run_len_bounds,
    lemma_run_len_is, lemma_skip_skip, literal_failure, run_len, space, starts_with,
    starts_with_crlf, take, take_until, u64, utf8_text,
};
use crate::types::{reads, ErrorKind, R};

verus! {

/// A reply of the server.
#[derive(Debug, PartialEq)]
pub enum Msg {
    Inserted(u64),
    Buried(Option<u64>),
    Using(String),
    Reserved(u64, Vec<u8>),
    Watching(u64),
    Found(u64, Vec<u8>),
    Kicked(Option<u64>),
    Okay(Vec<u8>),
    Paused,
    Deleted,
    ExpectedCrlf,
    JobTooBig,
    Draining,
    OutOfMemory,
    InternalError,
    BadFormat,
    UnknownCommand,
    DeadlineSoon,
    TimedOut,
    NotFound,
    Released,
    Touched,
    NotIgnored,
}

/// What a `Msg` stands for: the same reply with its text and payload as
/// sequences.
pub enum MsgView {
    Inserted(u64),
    Buried(Option<u64>),
    Using(Seq<char>),
    Reserved(u64, Seq<u8>),
    Watching(u64),
    Found(u64, Seq<u8>),
    Kicked(Option<u64>),
    Okay(Seq<u8>),
    Paused,
    Deleted,
    ExpectedCrlf,
    JobTooBig,
    Draining,
    OutOfMemory,
    InternalError,
    BadFormat,
    UnknownCommand,
    DeadlineSoon,
    TimedOut,
    NotFound,
    Released,
    Touched,
    NotIgnored,
}

impl View for Msg {
    type V = MsgView;

    open spec fn view(&self) -> MsgView {
        match *self {
            Msg::Inserted(id) => MsgView::Inserted(id),
            Msg::Buried(id) => MsgView::Buried(id),
            Msg::Using(name) => MsgView::Using(name@),
            Msg::Reserved(id, data) => MsgView::Reserved(id, data@),
            Msg::Watching(count) => MsgView::Watching(count),
            Msg::Found(id, data) => MsgView::Found(id, data@),
            Msg::Kicked(count) => MsgView::Kicked(count),
            Msg::Okay(data) => MsgView::Okay(data@),
            Msg::Paused => MsgView::Paused,
            Msg::Deleted => MsgView::Deleted,
            Msg::ExpectedCrlf => MsgView::ExpectedCrlf,
            Msg::JobTooBig => MsgView::JobTooBig,
            Msg::Draining => MsgView::Draining,
            Msg::OutOfMemory => MsgView::OutOfMemory,
            Msg::InternalError => MsgView::InternalError,
            Msg::BadFormat => MsgView::BadFormat,
            Msg::UnknownCommand => MsgView::UnknownCommand,
            Msg::DeadlineSoon => MsgView::DeadlineSoon,
            Msg::TimedOut => MsgView::TimedOut,
            Msg::NotFound => MsgView::NotFound,
            Msg::Released => MsgView::Released,
            Msg::Touched => MsgView::Touched,
            Msg::NotIgnored => MsgView::NotIgnored,
        }
    }
}

/// The reply keywords, one per recognizer.
#[derive(Debug, Clone, Copy, PartialEq, Eq, Structural)]
pub enum ReplyKind {
    Inserted,
    Using,
    Reserved,
    OutOfMemory,
    InternalError,
    BadFormat,
    UnknownCommand,
    ExpectedCrlf,
    JobTooBig,
    Draining,
    DeadlineSoon,
    TimedOut,
    NotFound,
    Deleted,
    Released,
    Buried,
    Touched,
    Watching,
    NotIgnored,
    Found,
    Kicked,
    Okay,
    Paused,
}

/// The bytes of the keyword that opens a reply of this kind.
pub open spec fn keyword(kind: ReplyKind) -> Seq<u8> {
    match kind {
        ReplyKind::Inserted => "INSERTED".spec_bytes(),
        ReplyKind::Using => "USING".spec_bytes(),
        ReplyKind::Reserved => "RESERVED".spec_bytes(),
        ReplyKind::OutOfMemory => "OUT_OF_MEMORY".spec_bytes(),
        ReplyKind::InternalError => "INTERNAL_ERROR".spec_bytes(),
        ReplyKind::BadFormat => "BAD_FORMAT".spec_bytes(),
        ReplyKind::UnknownCommand => "UNKNOWN_COMMAND".spec_bytes(),
        ReplyKind::ExpectedCrlf => "EXPECTED_CRLF".spec_bytes(),
        ReplyKind::JobTooBig => "JOB_TOO_BIG".spec_bytes(),
        ReplyKind::Draining => "DRAINING".spec_bytes(),
        ReplyKind::DeadlineSoon => "DEADLINE_SOON".spec_bytes(),
        ReplyKind::TimedOut => "TIMED_OUT".spec_bytes(),
        ReplyKind::NotFound => "NOT_FOUND".spec_bytes(),
        ReplyKind::Deleted => "DELETED".spec_bytes(),
        ReplyKind::Released => "RELEASED".spec_bytes(),
        ReplyKind::Buried => "BURIED".spec_bytes(),
        ReplyKind::Touched => "TOUCHED".spec_bytes(),
        ReplyKind::Watching => "WATCHING".spec_bytes(),
        ReplyKind::NotIgnored => "NOT_IGNORED".spec_bytes(),
        ReplyKind::Found => "FOUND".spec_bytes(),
        ReplyKind::Kicked => "KICKED".spec_bytes(),
        ReplyKind::Okay => "OK".spec_bytes(),
        ReplyKind::Paused => "PAUSED".spec_bytes(),
    }
}

/// What a recognizer makes of an input: the reply and the number of bytes
/// it takes, or the reason there is none.
pub type Outcome = Result<(MsgView, nat), ErrorKind>;

/// The result `r` of a recognizer on `buf` is the outcome `want`: the same
/// reply with the input after it, or the same reason with the input
/// untouched.
pub open spec fn agrees<'a>(r: R<'a, Msg>, buf: Seq<u8>, want: Outcome) -> bool {
    match (r, want) {
        (Ok((rest, msg)), Ok((value, used))) => msg@ == value && used <= buf.len() && rest@
            == buf.skip(used as int),
        (Err((rest, kind)), Err(reason)) => rest@ == buf && kind == reason,
        _ => false,
    }
}

/// The keyword alone on its line.
pub open spec fn bare(buf: Seq<u8>, word: Seq<u8>) -> Result<((), nat), ErrorKind> {
    let a = buf.skip(word.len() as int);
    if !starts_with(buf, word) {
        Err(literal_failure(buf, word))
    } else if !starts_with_crlf(a) {
        Err(crlf_failure(a))
    } else {
        Ok(((), word.len() + 2))
    }
}

/// The keyword, a space and a number on one line.
pub open spec fn counted(buf: Seq<u8>, word: Seq<u8>) -> Result<(u64, nat), ErrorKind> {
    let a = buf.skip(word.len() as int);
    let b = a.skip(1);
    let c = b.skip(digits_len(b) as int);
    if !starts_with(buf, word) {
        Err(literal_failure(buf, word))
    } else if !(a.len() > 0 && a[0] == 32) {
        Err(byte_failure(a))
    } else if !(digits_len(b) > 0 && leading_number(b) <= u64::MAX) {
        Err(integer_failure(b))
    } else if !starts_with_crlf(c) {
        Err(crlf_failure(c))
    } else {
        Ok((leading_number(b) as u64, word.len() + 1 + digits_len(b) + 2))
    }
}

/// Hands a matcher's result on, with the whole input `buf` in place of the
/// position at which a later step failed.
fn anchored<'a, T>(buf: &'a [u8], r: R<'a, T>) -> (out: R<'a, T>)
    ensures
        r is Ok ==> out == r,
        r matches Err((_, kind)) ==> out matches Err((rest, reason)) && rest@ == buf@ && reason
            == kind,
{
    match r {
        Ok(found) => Ok(found),
        Err((_, kind)) => Err((buf, kind)),
    }
}

/// Matches `word` and the line end after it.
fn bare_line<'a>(buf: &'a [u8], word: &str) -> (r: R<'a, ()>)
    ensures
        reads(r, buf@, bare(buf@, word.spec_bytes())),
{
    let (a, _) = chars(buf, word)?;
    let (rest, _) = anchored(buf, crlf(a))?;
    proof {
        lemma_skip_skip(buf@, word.spec_bytes().len() as int, 2);
    }
    Ok((rest, ()))
}

/// Matches `word`, a space, a number and the line end.
fn counted_line<'a>(buf: &'a [u8], word: &str) -> (r: R<'a, u64>)
    ensures
        reads(r, buf@, counted(buf@, word.spec_bytes())),
{
    let (a, _) = chars(buf, word)?;
    let (b, _) = anchored(buf, space(a))?;
    proof {
        lemma_run_len_bounds(b@, |x: u8| is_digit(x));
    }
    let (c, n) = anchored(buf, u64(b))?;
    let (rest, _) = anchored(buf, crlf(c))?;
    proof {
        let k = word.spec_bytes().len() as int;
        lemma_skip_skip(buf@, k, 1);
        lemma_skip_skip(buf@, k + 1, digits_len(b@) as int);
        lemma_skip_skip(buf@, k + 1 + digits_len(b@), 2);
    }
    Ok((rest, n))
}

/// The keyword on one line, alone or followed by a space and a number. Once
/// the space is there the number is owed.
pub open spec fn optional(buf: Seq<u8>, word: Seq<u8>) -> Result<(Option<u64>, nat), ErrorKind> {
    let a = buf.skip(word.len() as int);
    if starts_with(buf, word) && !(a.len() > 0 && a[0] == 32) {
        match bare(buf, word) {
            Ok((_, used)) => Ok((None, used)),
            Err(reason) => Err(reason),
        }
    } else {
        match counted(buf, word) {
            Ok((n, used)) => Ok((Some(n), used)),
            Err(reason) => Err(reason),
        }
    }
}

/// Matches `word` and the line end, or `word`, a space, a number and the
/// line end.
fn optional_line<'a>(buf: &'a [u8], word: &str) -> (r: R<'a, Option<u64>>)
    ensures
        reads(r, buf@, optional(buf@, word.spec_bytes())),
{
    let (a, _) = chars(buf, word)?;
    if space(a).is_ok() {
        let (rest, n) = counted_line(buf, word)?;
        Ok((rest, Some(n)))
    } else {
        let (rest, _) = bare_line(buf, word)?;
        Ok((rest, None))
    }
}

/// Length of the name at the start of `buf`: the bytes up to the first
/// white space.
pub open spec fn name_len(buf: Seq<u8>) -> nat {
    run_len(buf, |b: u8| !is_whitespace(b))
}

/// The reason there is no name at the start of `buf`: exhaustion on an
/// empty input, mismatch where it begins with a hyphen or with white space.
pub open spec fn name_failure(buf: Seq<u8>) -> ErrorKind {
    byte_failure(buf)
}

/// A name begins `buf`: at least one byte before the first white space, the
/// first of them no hyphen.
pub open spec fn has_name(buf: Seq<u8>) -> bool {
    buf.len() > 0 && buf[0] != 45 && name_len(buf) > 0
}

/// Takes the bytes of a name: those up to the first white space, at least
/// one, the first no hyphen.
fn name<'a>(buf: &'a [u8]) -> (r: R<'a, &'a [u8]>)
    ensures
        r is Ok <==> has_name(buf@),
        r matches Ok((rest, v)) ==> rest@ == buf@.skip(name_len(buf@) as int) && v@ == buf@.take(
            name_len(buf@) as int,
        ),
        r matches Err((rest, kind)) ==> rest@ == buf@ && kind == name_failure(buf@),
{
    let ghost p = |b: u8| !is_whitespace(b);
    if buf.len() == 0 {
        return Err((buf, ErrorKind::EOF));
    }
    if buf[0] == 45 {
        return Err((buf, ErrorKind::NotMatched));
    }
    match take_until(buf, is_ascii_whitespace) {
        Ok((rest, v)) => {
            proof {
                lemma_run_len_is(buf@, p, v@.len() as int);
            }
            Ok((rest, v))
        },
        Err(e) => {
            proof {
                lemma_run_len_is(buf@, p, 0);
            }
            Err(e)
        },
    }
}

/// The keyword, a space and a name on one line. The name's bytes are held
/// to be UTF-8 once the line is complete.
pub open spec fn named(buf: Seq<u8>, word: Seq<u8>) -> Result<(Seq<char>, nat), ErrorKind> {
    let a = buf.skip(word.len() as int);
    let b = a.skip(1);
    let c = b.skip(name_len(b) as int);
    if !starts_with(buf, word) {
        Err(literal_failure(buf, word))
    } else if !(a.len() > 0 && a[0] == 32) {
        Err(byte_failure(a))
    } else if !has_name(b) {
        Err(name_failure(b))
    } else if !starts_with_crlf(c) {
        Err(crlf_failure(c))
    } else if !valid_utf8(b.take(name_len(b) as int)) {
        Err(ErrorKind::NotUTF8)
    } else {
        Ok((decode_utf8(b.take(name_len(b) as int)), word.len() + 1 + name_len(b) + 2))
    }
}

/// Matches `word`, a space, a name and the line end.
fn named_line<'a>(buf: &'a [u8], word: &str) -> (r: R<'a, String>)
    ensures
        r matches Ok((rest, text)) ==> named(buf@, word.spec_bytes()) matches Ok((value, used))
            && text@ == value && used <= buf@.len() && rest@ == buf@.skip(used as int),
        r matches Err((rest, kind)) ==> named(buf@, word.spec_bytes()) == Err::<
            (Seq<char>, nat),
            ErrorKind,
        >(kind) && rest@ == buf@,
{
    let (a, _) = chars(buf, word)?;
    let (b, _) = anchored(buf, space(a))?;
    proof {
        lemma_run_len_bounds(b@, |x: u8| !is_whitespace(x));
    }
    let (c, bytes) = anchored(buf, name(b))?;
    let (rest, _) = anchored(buf, crlf(c))?;
    proof {
        let k = word.spec_bytes().len() as int;
        lemma_skip_skip(buf@, k, 1);
        lemma_skip_skip(buf@, k + 1, name_len(b@) as int);
        lemma_skip_skip(buf@, k + 1 + name_len(b@), 2);
    }
    match utf8_text(bytes) {
        Some(text) => {
            proof {
                encode_utf8_decode_utf8(text@);
            }
            Ok((rest, text.to_owned()))
        },
        None => Err((buf, ErrorKind::NotUTF8)),
    }
}

/// The `len` bytes of a payload and the line end after them. An input that
/// does not yet hold them all is exhausted.
pub open spec fn payload(buf: Seq<u8>, len: nat) -> Result<(Seq<u8>, nat), ErrorKind> {
    let after = buf.skip(len as int);
    if buf.len() == 0 || buf.len() < len {
        Err(ErrorKind::EOF)
    } else if !starts_with_crlf(after) {
        Err(crlf_failure(after))
    } else {
        Ok((buf.take(len as int), len + 2))
    }
}

/// Takes `len` bytes, whatever they hold, and the line end after them.
fn payload_block<'a>(buf: &'a [u8], len: u64) -> (r: R<'a, &'a [u8]>)
    ensures
        r matches Ok((rest, data)) ==> payload(buf@, len as nat) matches Ok((value, used))
            && data@ == value && used <= buf@.len() && rest@ == buf@.skip(used as int),
        r matches Err((rest, kind)) ==> payload(buf@, len as nat) == Err::<
            (Seq<u8>, nat),
            ErrorKind,
        >(kind) && rest@ == buf@,
{
    let held: usize = buf.len();
    if len > usize::MAX as u64 {
        assert(held < len);
        return Err((buf, ErrorKind::EOF));
    }
    let (after, data) = take(buf, len as usize)?;
    let (rest, _) = anchored(buf, crlf(after))?;
    proof {
        lemma_skip_skip(buf@, len as int, 2);
    }
    Ok((rest, data))
}

/// The keyword, a space, a length and the line end, then a payload of that
/// length and its line end.
pub open spec fn body(buf: Seq<u8>, word: Seq<u8>) -> Result<(Seq<u8>, nat), ErrorKind> {
    match counted(buf, word) {
        Ok((len, head)) => match payload(buf.skip(head as int), len as nat) {
            Ok((data, used)) => Ok((data, head + used)),
            Err(reason) => Err(reason),
        },
        Err(reason) => Err(reason),
    }
}

/// Matches `word`, a space, a length and the line end, then the payload.
fn body_block<'a>(buf: &'a [u8], word: &str) -> (r: R<'a, &'a [u8]>)
    ensures
        r matches Ok((rest, data)) ==> body(buf@, word.spec_bytes()) matches Ok((value, used))
            && data@ == value && used <= buf@.len() && rest@ == buf@.skip(used as int),
        r matches Err((rest, kind)) ==> body(buf@, word.spec_bytes()) == Err::<
            (Seq<u8>, nat),
            ErrorKind,
        >(kind) && rest@ == buf@,
{
    let (d, len) = counted_line(buf, word)?;
    let ghost head = (buf@.len() - d@.len()) as int;
    let (rest, data) = anchored(buf, payload_block(d, len))?;
    proof {
        lemma_skip_skip(buf@, head, len + 2);
    }
    Ok((rest, data))
}

/// The keyword, a space, an id, a space, a length and the line end, then a
/// payload of that length and its line end.
pub open spec fn job(buf: Seq<u8>, word: Seq<u8>) -> Result<((u64, Seq<u8>), nat), ErrorKind> {
    let a = buf.skip(word.len() as int);
    let b = a.skip(1);
    let c = b.skip(digits_len(b) as int);
    let d = c.skip(1);
    let e = d.skip(digits_len(d) as int);
    let head = word.len() + 1 + digits_len(b) + 1 + digits_len(d) + 2;
    if !starts_with(buf, word) {
        Err(literal_failure(buf, word))
    } else if !(a.len() > 0 && a[0] == 32) {
        Err(byte_failure(a))
    } else if !(digits_len(b) > 0 && leading_number(b) <= u64::MAX) {
        Err(integer_failure(b))
    } else if !(c.len() > 0 && c[0] == 32) {
        Err(byte_failure(c))
    } else if !(digits_len(d) > 0 && leading_number(d) <= u64::MAX) {
        Err(integer_failure(d))
    } else if !starts_with_crlf(e) {
        Err(crlf_failure(e))
    } else {
        match payload(e.skip(2), leading_number(d)) {
            Ok((data, used)) => Ok(((leading_number(b) as u64, data), head + used)),
            Err(reason) => Err(reason),
        }
    }
}

/// Matches `word`, a space, an id, a space, a length and the line end, then
/// the payload.
fn job_block<'a>(buf: &'a [u8], word: &str) -> (r: R<'a, (u64, &'a [u8])>)
    ensures
        r matches Ok((rest, found)) ==> job(buf@, word.spec_bytes()) matches Ok((value, used))
            && found.0 == value.0 && found.1@ == value.1 && used <= buf@.len() && rest@
            == buf@.skip(used as int),
        r matches Err((rest, kind)) ==> job(buf@, word.spec_bytes()) == Err::<
            ((u64, Seq<u8>), nat),
            ErrorKind,
        >(kind) && rest@ == buf@,
{
    let (a, _) = chars(buf, word)?;
    let (b, _) = anchored(buf, space(a))?;
    proof {
        lemma_run_len_bounds(b@, |x: u8| is_digit(x));
    }
    let (c, id) = anchored(buf, u64(b))?;
    let (d, _) = anchored(buf, space(c))?;
    proof {
        lemma_run_len_bounds(d@, |x: u8| is_digit(x));
    }
    let (e, len) = anchored(buf, u64(d))?;
    let (f, _) = anchored(buf, crlf(e))?;
    let ghost k = word.spec_bytes().len() as int;
    let ghost head = k + 1 + digits_len(b@) + 1 + digits_len(d@) + 2;
    proof {
        lemma_skip_skip(buf@, k, 1);
        lemma_skip_skip(buf@, k + 1, digits_len(b@) as int);
        lemma_skip_skip(buf@, k + 1 + digits_len(b@), 1);
        lemma_skip_skip(buf@, k + 1 + digits_len(b@) + 1, digits_len(d@) as int);
        lemma_skip_skip(buf@, k + 1 + digits_len(b@) + 1 + digits_len(d@), 2);
        assert(f@ =~= buf@.skip(head));
    }
    let (rest, data) = anchored(buf, payload_block(f, len))?;
    proof {
        lemma_skip_skip(buf@, head, len + 2);
    }
    Ok((rest, (id, data)))
}

/// The outcome of a line or block as that of a reply: `make` builds the
/// reply from the value read.
pub open spec fn reply_with<T>(
    r: Result<(T, nat), ErrorKind>,
    make: spec_fn(T) -> MsgView,
) -> Outcome {
    match r {
        Ok((value, used)) => Ok((make(value), used)),
        Err(reason) => Err(reason),
    }
}

/// What the recognizer of `kind` makes of `buf`.
#[verifier::opaque]
pub open spec fn recognize(kind: ReplyKind, buf: Seq<u8>) -> Outcome {
    let word = keyword(kind);
    match kind {
        ReplyKind::Inserted => reply_with(counted(buf, word), |n: u64| MsgView::Inserted(n)),
        ReplyKind::Using => reply_with(named(buf, word), |s: Seq<char>| MsgView::Using(s)),
        ReplyKind::Reserved => reply_with(
            job(buf, word),
            |j: (u64, Seq<u8>)| MsgView::Reserved(j.0, j.1),
        ),
        ReplyKind::OutOfMemory => reply_with(bare(buf, word), |u: ()| MsgView::OutOfMemory),
        ReplyKind::InternalError => reply_with(bare(buf, word), |u: ()| MsgView::InternalError),
        ReplyKind::BadFormat => reply_with(bare(buf, word), |u: ()| MsgView::BadFormat),
        ReplyKind::UnknownCommand => reply_with(bare(buf, word), |u: ()| MsgView::UnknownCommand),
        ReplyKind::ExpectedCrlf => reply_with(bare(buf, word), |u: ()| MsgView::ExpectedCrlf),
        ReplyKind::JobTooBig => reply_with(bare(buf, word), |u: ()| MsgView::JobTooBig),
        ReplyKind::Draining => reply_with(bare(buf, word), |u: ()| MsgView::Draining),
        ReplyKind::DeadlineSoon => reply_with(bare(buf, word), |u: ()| MsgView::DeadlineSoon),
        ReplyKind::TimedOut => reply_with(bare(buf, word), |u: ()| MsgView::TimedOut),
        ReplyKind::NotFound => reply_with(bare(buf, word), |u: ()| MsgView::NotFound),
        ReplyKind::Deleted => reply_with(bare(buf, word), |u: ()| MsgView::Deleted),
        ReplyKind::Released => reply_with(bare(buf, word), |u: ()| MsgView::Released),
        ReplyKind::Buried => reply_with(optional(buf, word), |n: Option<u64>| MsgView::Buried(n)),
        ReplyKind::Touched => reply_with(bare(buf, word), |u: ()| MsgView::Touched),
        ReplyKind::Watching => reply_with(counted(buf, word), |n: u64| MsgView::Watching(n)),
        ReplyKind::NotIgnored => reply_with(bare(buf, word), |u: ()| MsgView::NotIgnored),
        ReplyKind::Found => reply_with(
            job(buf, word),
            |j: (u64, Seq<u8>)| MsgView::Found(j.0, j.1),
        ),
        ReplyKind::Kicked => reply_with(optional(buf, word), |n: Option<u64>| MsgView::Kicked(n)),
        ReplyKind::Okay => reply_with(body(buf, word), |d: Seq<u8>| MsgView::Okay(d)),
        ReplyKind::Paused => reply_with(bare(buf, word), |u: ()| MsgView::Paused),
    }
}

/// Recognizes `INSERTED <id>` and the line end.
pub fn inserted<'a>(buf: &'a [u8]) -> (r: R<'a, Msg>)
    ensures
        agrees(r, buf@, recognize(ReplyKind::Inserted, buf@)),
{
    proof {
        reveal(recognize);
    }
    let (rest, n) = counted_line(buf, "INSERTED")?;
    Ok((rest, Msg::Inserted(n)))
}

/// Recognizes `USING <name>` and the line end.
pub fn using<'a>(buf: &'a [u8]) -> (r: R<'a, Msg>)
    ensures
        agrees(r, buf@, recognize(ReplyKind::Using, buf@)),
{
    proof {
        reveal(recognize);
    }
    let (rest, text) = named_line(buf, "USING")?;
    Ok((rest, Msg::Using(text)))
}

/// Recognizes `RESERVED <id> <bytes>`, the line end, the payload and its line end.
pub fn reserved<'a>(buf: &'a [u8]) -> (r: R<'a, Msg>)
    ensures
        agrees(r, buf@, recognize(ReplyKind::Reserved, buf@)),
{
    proof {
        reveal(recognize);
    }
    let (rest, found) = job_block(buf, "RESERVED")?;
    Ok((rest, Msg::Reserved(found.0, slice_to_vec(found.1))))
}

/// Recognizes `OUT_OF_MEMORY` and the line end.
pub fn out_of_memory<'a>(buf: &'a [u8]) -> (r: R<'a, Msg>)
    ensures
        agrees(r, buf@, recognize(ReplyKind::OutOfMemory, buf@)),
{
    proof {
        reveal(recognize);
    }
    let (rest, _) = bare_line(buf, "OUT_OF_MEMORY")?;
    Ok((rest, Msg::OutOfMemory))
}

/// Recognizes `INTERNAL_ERROR` and the line end.
pub fn internal_error<'a>(buf: &'a [u8]) -> (r: R<'a, Msg>)
    ensures
        agrees(r, buf@, recognize(ReplyKind::InternalError, buf@)),
{
    proof {
        reveal(recognize);
    }
    let (rest, _) = bare_line(buf, "INTERNAL_ERROR")?;
    Ok((rest, Msg::InternalError))
}

/// Recognizes `BAD_FORMAT` and the line end.
pub fn bad_format<'a>(buf: &'a [u8]) -> (r: R<'a, Msg>)
    ensures
        agrees(r, buf@, recognize(ReplyKind::BadFormat, buf@)),
{
    proof {
        reveal(recognize);
    }
    let (rest, _) = bare_line(buf, "BAD_FORMAT")?;
    Ok((rest, Msg::BadFormat))
}

/// Recognizes `UNKNOWN_COMMAND` and the line end.
pub fn unknown_command<'a>(buf: &'a [u8]) -> (r: R<'a, Msg>)
    ensures
        agrees(r, buf@, recognize(ReplyKind::UnknownCommand, buf@)),
{
    proof {
        reveal(recognize);
    }
    let (rest, _) = bare_line(buf, "UNKNOWN_COMMAND")?;
    Ok((rest, Msg::UnknownCommand))
}

/// Recognizes `EXPECTED_CRLF` and the line end.
pub fn expected_crlf<'a>(buf: &'a [u8]) -> (r: R<'a, Msg>)
    ensures
        agrees(r, buf@, recognize(ReplyKind::ExpectedCrlf, buf@)),
{
    proof {
        reveal(recognize);
    }
    let (rest, _) = bare_line(buf, "EXPECTED_CRLF")?;
    Ok((rest, Msg::ExpectedCrlf))
}

/// Recognizes `JOB_TOO_BIG` and the line end.
pub fn job_too_big<'a>(buf: &'a [u8]) -> (r: R<'a, Msg>)
    ensures
        agrees(r, buf@, recognize(ReplyKind::JobTooBig, buf@)),
{
    proof {
        reveal(recognize);
    }
    let (rest, _) = bare_line(buf, "JOB_TOO_BIG")?;
    Ok((rest, Msg::JobTooBig))
}

/// Recognizes `DRAINING` and the line end.
pub fn draining<'a>(buf: &'a [u8]) -> (r: R<'a, Msg>)
    ensures
        agrees(r, buf@, recognize(ReplyKind::Draining, buf@)),
{
    proof {
        reveal(recognize);
    }
    let (rest, _) = bare_line(buf, "DRAINING")?;
    Ok((rest, Msg::Draining))
}

/// Recognizes `DEADLINE_SOON` and the line end.
pub fn deadline_soon<'a>(buf: &'a [u8]) -> (r: R<'a, Msg>)
    ensures
        agrees(r, buf@, recognize(ReplyKind::DeadlineSoon, buf@)),
{
    proof {
        reveal(recognize);
    }
    let (rest, _) = bare_line(buf, "DEADLINE_SOON")?;
    Ok((rest, Msg::DeadlineSoon))
}

/// Recognizes `TIMED_OUT` and the line end.
pub fn timed_out<'a>(buf: &'a [u8]) -> (r: R<'a, Msg>)
    ensures
        agrees(r, buf@, recognize(ReplyKind::TimedOut, buf@)),
{
    proof {
        reveal(recognize);
    }
    let (rest, _) = bare_line(buf, "TIMED_OUT")?;
    Ok((rest, Msg::TimedOut))
}

/// Recognizes `NOT_FOUND` and the line end.
pub fn not_found<'a>(buf: &'a [u8]) -> (r: R<'a, Msg>)
    ensures
        agrees(r, buf@, recognize(ReplyKind::NotFound, buf@)),
{
    proof {
        reveal(recognize);
    }
    let (rest, _) = bare_line(buf, "NOT_FOUND")?;
    Ok((rest, Msg::NotFound))
}

/// Recognizes `DELETED` and the line end.
pub fn deleted<'a>(buf: &'a [u8]) -> (r: R<'a, Msg>)
    ensures
        agrees(r, buf@, recognize(ReplyKind::Deleted, buf@)),
{
    proof {
        reveal(recognize);
    }
    let (rest, _) = bare_line(buf, "DELETED")?;
    Ok((rest, Msg::Deleted))
}

/// Recognizes `RELEASED` and the line end.
pub fn released<'a>(buf: &'a [u8]) -> (r: R<'a, Msg>)
    ensures
        agrees(r, buf@, recognize(ReplyKind::Released, buf@)),
{
    proof {
        reveal(recognize);
    }
    let (rest, _) = bare_line(buf, "RELEASED")?;
    Ok((rest, Msg::Released))
}

/// Recognizes `BURIED` or `BURIED <id>`, and the line end.
pub fn buried<'a>(buf: &'a [u8]) -> (r: R<'a, Msg>)
    ensures
        agrees(r, buf@, recognize(ReplyKind::Buried, buf@)),
{
    proof {
        reveal(recognize);
    }
    let (rest, n) = optional_line(buf, "BURIED")?;
    Ok((rest, Msg::Buried(n)))
}

/// Recognizes `TOUCHED` and the line end.
pub fn touched<'a>(buf: &'a [u8]) -> (r: R<'a, Msg>)
    ensures
        agrees(r, buf@, recognize(ReplyKind::Touched, buf@)),
{
    proof {
        reveal(recognize);
    }
    let (rest, _) = bare_line(buf, "TOUCHED")?;
    Ok((rest, Msg::Touched))
}

/// Recognizes `WATCHING <count>` and the line end.
pub fn watching<'a>(buf: &'a [u8]) -> (r: R<'a, Msg>)
    ensures
        agrees(r, buf@, recognize(ReplyKind::Watching, buf@)),
{
    proof {
        reveal(recognize);
    }
    let (rest, n) = counted_line(buf, "WATCHING")?;
    Ok((rest, Msg::Watching(n)))
}

/// Recognizes `NOT_IGNORED` and the line end.
pub fn not_ignored<'a>(buf: &'a [u8]) -> (r: R<'a, Msg>)
    ensures
        agrees(r, buf@, recognize(ReplyKind::NotIgnored, buf@)),
{
    proof {
        reveal(recognize);
    }
    let (rest, _) = bare_line(buf, "NOT_IGNORED")?;
    Ok((rest, Msg::NotIgnored))
}

/// Recognizes `FOUND <id> <bytes>`, the line end, the payload and its line end.
pub fn found<'a>(buf: &'a [u8]) -> (r: R<'a, Msg>)
    ensures
        agrees(r, buf@, recognize(ReplyKind::Found, buf@)),
{
    proof {
        reveal(recognize);
    }
    let (rest, found) = job_block(buf, "FOUND")?;
    Ok((rest, Msg::Found(found.0, slice_to_vec(found.1))))
}

/// Recognizes `KICKED` or `KICKED <count>`, and the line end.
pub fn kicked<'a>(buf: &'a [u8]) -> (r: R<'a, Msg>)
    ensures
        agrees(r, buf@, recognize(ReplyKind::Kicked, buf@)),
{
    proof {
        reveal(recognize);
    }
    let (rest, n) = optional_line(buf, "KICKED")?;
    Ok((rest, Msg::Kicked(n)))
}

/// Recognizes `OK <bytes>`, the line end, the payload and its line end.
pub fn ok<'a>(buf: &'a [u8]) -> (r: R<'a, Msg>)
    ensures
        agrees(r, buf@, recognize(ReplyKind::Okay, buf@)),
{
    proof {
        reveal(recognize);
    }
    let (rest, data) = body_block(buf, "OK")?;
    Ok((rest, Msg::Okay(slice_to_vec(data))))
}

/// Recognizes `PAUSED` and the line end.
pub fn paused<'a>(buf: &'a [u8]) -> (r: R<'a, Msg>)
    ensures
        agrees(r, buf@, recognize(ReplyKind::Paused, buf@)),
{
    proof {
        reveal(recognize);
    }
    let (rest, _) = bare_line(buf, "PAUSED")?;
    Ok((rest, Msg::Paused))
}

/// The order in which the decoder tries the recognizers.
pub open spec fn reply_order() -> Seq<ReplyKind> {
    seq![
        ReplyKind::Inserted,
        ReplyKind::Using,
        ReplyKind::Reserved,
        ReplyKind::OutOfMemory,
        ReplyKind::InternalError,
        ReplyKind::BadFormat,
        ReplyKind::UnknownCommand,
        ReplyKind::ExpectedCrlf,
        ReplyKind::JobTooBig,
        ReplyKind::Draining,
        ReplyKind::DeadlineSoon,
        ReplyKind::TimedOut,
        ReplyKind::NotFound,
        ReplyKind::Deleted,
        ReplyKind::Released,
        ReplyKind::Buried,
        ReplyKind::Touched,
        ReplyKind::Watching,
        ReplyKind::NotIgnored,
        ReplyKind::Found,
        ReplyKind::Kicked,
        ReplyKind::Okay,
        ReplyKind::Paused,
    ]
}

/// The kind that the decoder tries in place `i`.
fn kind_at(i: usize) -> (kind: ReplyKind)
    requires
        i < 23,
    ensures
        kind == reply_order()[i as int],
{
    if i == 0 {
        ReplyKind::Inserted
    } else if i == 1 {
        ReplyKind::Using
    } else if i == 2 {
        ReplyKind::Reserved
    } else if i == 3 {
        ReplyKind::OutOfMemory
    } else if i == 4 {
        ReplyKind::InternalError
    } else if i == 5 {
        ReplyKind::BadFormat
    } else if i == 6 {
        ReplyKind::UnknownCommand
    } else if i == 7 {
        ReplyKind::ExpectedCrlf
    } else if i == 8 {
        ReplyKind::JobTooBig
    } else if i == 9 {
        ReplyKind::Draining
    } else if i == 10 {
        ReplyKind::DeadlineSoon
    } else if i == 11 {
        ReplyKind::TimedOut
    } else if i == 12 {
        ReplyKind::NotFound
    } else if i == 13 {
        ReplyKind::Deleted
    } else if i == 14 {
        ReplyKind::Released
    } else if i == 15 {
        ReplyKind::Buried
    } else if i == 16 {
        ReplyKind::Touched
    } else if i == 17 {
        ReplyKind::Watching
    } else if i == 18 {
        ReplyKind::NotIgnored
    } else if i == 19 {
        ReplyKind::Found
    } else if i == 20 {
        ReplyKind::Kicked
    } else if i == 21 {
        ReplyKind::Okay
    } else {
        ReplyKind::Paused
    }
}

/// Runs the recognizer of `kind`.
pub fn recognize_as<'a>(kind: ReplyKind, buf: &'a [u8]) -> (r: R<'a, Msg>)
    ensures
        agrees(r, buf@, recognize(kind, buf@)),
{
    match kind {
        ReplyKind::Inserted => inserted(buf),
        ReplyKind::Using => using(buf),
        ReplyKind::Reserved => reserved(buf),
        ReplyKind::OutOfMemory => out_of_memory(buf),
        ReplyKind::InternalError => internal_error(buf),
        ReplyKind::BadFormat => bad_format(buf),
        ReplyKind::UnknownCommand => unknown_command(buf),
        ReplyKind::ExpectedCrlf => expected_crlf(buf),
        ReplyKind::JobTooBig => job_too_big(buf),
        ReplyKind::Draining => draining(buf),
        ReplyKind::DeadlineSoon => deadline_soon(buf),
        ReplyKind::TimedOut => timed_out(buf),
        ReplyKind::NotFound => not_found(buf),
        ReplyKind::Deleted => deleted(buf),
        ReplyKind::Released => released(buf),
        ReplyKind::Buried => buried(buf),
        ReplyKind::Touched => touched(buf),
        ReplyKind::Watching => watching(buf),
        ReplyKind::NotIgnored => not_ignored(buf),
        ReplyKind::Found => found(buf),
        ReplyKind::Kicked => kicked(buf),
        ReplyKind::Okay => ok(buf),
        ReplyKind::Paused => paused(buf),
    }
}

/// A token was there and ill-formed: no other recognizer is tried.
pub open spec fn is_malformed(kind: ErrorKind) -> bool {
    kind is Integer || kind is Float || kind is NotUTF8
}

/// What two failures amount to: an ill-formed token if the later
/// recognizer met one, else exhaustion if either one ran out of input, else
/// mismatch.
pub open spec fn either_failure(first: ErrorKind, later: ErrorKind) -> ErrorKind {
    if is_malformed(later) {
        later
    } else if first is EOF {
        ErrorKind::EOF
    } else {
        later
    }
}

/// Ordered alternation: the recognizers of `order` are tried in turn, the
/// first reply wins, and an ill-formed token ends the search.
pub open spec fn alternation(order: Seq<ReplyKind>, buf: Seq<u8>) -> Outcome
    decreases order.len(),
{
    if order.len() == 0 {
        Err(ErrorKind::NotMatched)
    } else {
        match recognize(order[0], buf) {
            Ok(found) => Ok(found),
            Err(reason) => if is_malformed(reason) {
                Err(reason)
            } else {
                match alternation(order.skip(1), buf) {
                    Ok(found) => Ok(found),
                    Err(later) => Err(either_failure(reason, later)),
                }
            },
        }
    }
}

/// The one reply at the start of `buf`, or the reason there is none: what
/// ordered alternation over `reply_order` returns.
#[verifier::opaque]
pub open spec fn decode_spec(buf: Seq<u8>) -> Outcome {
    alternation(reply_order(), buf)
}

/// The outcome of the recognizers still to be tried, given whether one of
/// those already tried ran out of input.
pub open spec fn pending(exhausted: bool, later: Outcome) -> Outcome {
    match later {
        Ok(found) => Ok(found),
        Err(reason) => Err(if exhausted {
            either_failure(ErrorKind::EOF, reason)
        } else {
            reason
        }),
    }
}

/// A recognizer fails with exhaustion or mismatch, or with an ill-formed
/// token; a reply takes at least its line end.
pub proof fn lemma_recognize_bounds(kind: ReplyKind, buf: Seq<u8>)
    ensures
        recognize(kind, buf) matches Ok((_, used)) ==> used >= 2,
        recognize(kind, buf) matches Err(reason) ==> reason is EOF || reason is NotMatched
            || reason is Integer || reason is NotUTF8,
{
    reveal(recognize);
}

/// Ordered alternation from place `i` on: the recognizer in that place,
/// then the places after it.
proof fn lemma_alternation_step(order: Seq<ReplyKind>, i: int, buf: Seq<u8>)
    requires
        0 <= i < order.len(),
    ensures
        alternation(order.skip(i), buf) == match recognize(order[i], buf) {
            Ok(found) => Ok::<(MsgView, nat), ErrorKind>(found),
            Err(reason) => if is_malformed(reason) {
                Err(reason)
            } else {
                match alternation(order.skip(i + 1), buf) {
                    Ok(found) => Ok(found),
                    Err(later) => Err(either_failure(reason, later)),
                }
            },
        },
        alternation(order.skip(order.len() as int), buf) == Err::<(MsgView, nat), ErrorKind>(
            ErrorKind::NotMatched,
        ),
{
    assert(order.skip(i)[0] == order[i]);
    assert(order.skip(i).skip(1) =~= order.skip(i + 1));
}

/// Decodes exactly one reply from the start of `buf`.
pub fn atomic_parse<'a>(buf: &'a [u8]) -> (r: R<'a, Msg>)
    ensures
        agrees(r, buf@, decode_spec(buf@)),
{
    let ghost order = reply_order();
    let mut exhausted = false;
    let mut i: usize = 0;
    proof {
        reveal(decode_spec);
        assert(order.skip(0) =~= order);
    }
    while i < 23
        invariant
            i <= 23,
            order == reply_order(),
            decode_spec(buf@) == pending(exhausted, alternation(order.skip(i as int), buf@)),
        decreases 23 - i,
    {
        let kind = kind_at(i);
        proof {
            lemma_alternation_step(order, i as int, buf@);
        }
        match recognize_as(kind, buf) {
            Ok(found) => {
                return Ok(found);
            },
            Err((_, reason)) => {
                if matches!(reason, ErrorKind::EOF) {
                    exhausted = true;
                } else if !matches!(reason, ErrorKind::NotMatched) {
                    return Err((buf, reason));
                }
            },
        }
        i += 1;
    }
    if exhausted {
        Err((buf, ErrorKind::EOF))
    } else {
        Err((buf, ErrorKind::NotMatched))
    }
}

/// What the replies in `msgs` stand for, in order.
pub open spec fn replies_of(msgs: Seq<Msg>) -> Seq<MsgView> {
    msgs.map_values(|m: Msg| m@)
}

/// The complete replies at the start of `buf`, in the order of their
/// frames, up to the first position at which none can be decoded.
pub open spec fn drained_replies(buf: Seq<u8>) -> Seq<MsgView>
    decreases buf.len(),
{
    match decode_spec(buf) {
        Ok((reply, used)) => if 0 < used <= buf.len() {
            seq![reply] + drained_replies(buf.skip(used as int))
        } else {
            Seq::empty()
        },
        Err(_) => Seq::empty(),
    }
}

/// The number of bytes that those replies take.
pub open spec fn drained_len(buf: Seq<u8>) -> nat
    decreases buf.len(),
{
    match decode_spec(buf) {
        Ok((_, used)) => if 0 < used <= buf.len() {
            used + drained_len(buf.skip(used as int))
        } else {
            0
        },
        Err(_) => 0,
    }
}

/// A decoded reply takes at least its line end.
pub proof fn lemma_decode_bounds(buf: Seq<u8>)
    ensures
        decode_spec(buf) matches Ok((_, used)) ==> used >= 2,
{
    reveal(decode_spec);
    lemma_alternation_bounds(reply_order(), buf);
}

/// A reply of ordered alternation takes at least its line end.
pub proof fn lemma_alternation_bounds(order: Seq<ReplyKind>, buf: Seq<u8>)
    ensures
        alternation(order, buf) matches Ok((_, used)) ==> used >= 2,
    decreases order.len(),
{
    if order.len() > 0 {
        lemma_recognize_bounds(order[0], buf);
        lemma_alternation_bounds(order.skip(1), buf);
    }
}

/// Appends to `msgs` every complete reply at the start of `buf`, in the
/// order of their frames. Succeeds with an empty rest once the whole input
/// is consumed. Stops at the first position where no reply can be decoded
/// and hands back the input from there on with the reason: exhaustion where
/// the bytes may be the start of a reply that has not fully arrived, any
/// other reason where they can never form one.
pub fn parse<'a>(buf: &'a [u8], msgs: &mut Vec<Msg>) -> (r: R<'a, ()>)
    ensures
        replies_of(final(msgs)@) == replies_of(old(msgs)@) + drained_replies(buf@),
        drained_len(buf@) <= buf@.len(),
        r is Ok <==> drained_len(buf@) == buf@.len(),
        r matches Ok((rest, _)) ==> rest@.len() == 0,
        r matches Err((rest, kind)) ==> rest@ == buf@.skip(drained_len(buf@) as int)
            && decode_spec(rest@) == Err::<(MsgView, nat), ErrorKind>(kind),
{
    let mut cur = buf;
    let ghost mut done: nat = 0;
    let ghost mut taken: Seq<MsgView> = Seq::empty();
    proof {
        assert(buf@.skip(0) =~= buf@);
        assert(replies_of(msgs@) + taken =~= replies_of(msgs@));
    }
    while cur.len() > 0
        invariant
            done <= buf@.len(),
            cur@ == buf@.skip(done as int),
            replies_of(msgs@) == replies_of(old(msgs)@) + taken,
            drained_replies(buf@) == taken + drained_replies(cur@),
            drained_len(buf@) == done + drained_len(cur@),
        decreases cur@.len(),
    {
        proof {
            lemma_decode_bounds(cur@);
        }
        match atomic_parse(cur) {
            Ok((rest, msg)) => {
                let ghost used = (cur@.len() - rest@.len()) as nat;
                proof {
                    lemma_skip_skip(buf@, done as int, used as int);
                    assert(replies_of(msgs@.push(msg)) =~= replies_of(msgs@).push(msg@));
                    assert(taken.push(msg@) + drained_replies(rest@) =~= taken + (seq![msg@]
                        + drained_replies(rest@)));
                    assert(replies_of(old(msgs)@) + taken.push(msg@) =~= (replies_of(old(msgs)@)
                        + taken).push(msg@));
                    taken = taken.push(msg@);
                    done = done + used;
                }
                msgs.push(msg);
                cur = rest;
            },
            Err((_, kind)) => {
                proof {
                    assert(taken + Seq::<MsgView>::empty() =~= taken);
                }
                return Err((cur, kind));
            },
        }
    }
    proof {
        lemma_decode_bounds(cur@);
        assert(taken + Seq::<MsgView>::empty() =~= taken);
    }
    Ok((cur, ()))
}

/// A command of the client. Names and payloads are borrowed from the
/// caller.
#[derive(Debug, Clone, Copy, PartialEq)]
pub enum Cmd<'a> {
    Put { pri: u32, delay: u32, ttr: u32, payload: &'a [u8] },
    Use(&'a str),
    Reserve,
    ReserveJob(u64),
    ReserveTimeout(u64),
    Delete(u64),
    Release { id: u64, pri: u32, delay: u32 },
    Bury { id: u64, pri: u32 },
    Touch(u64),
    Watch(&'a str),
    Ignore(&'a str),
    Peek(u64),
    PeekReady,
    PeekDelayed,
    PeekBuried,
    Kick(u64),
    KickJob(u64),
    StatsJob(u64),
    StatsTube(&'a str),
    Stats,
    ListTubes,
    ListTubeUsed,
    ListTubesWatched,
    Quit,
    PauseTube { tube: &'a str, delay: u32 },
}

/// The decimal digits that write `n`, without leading zeros.
#[verifier::opaque]
pub open spec fn decimal(n: nat) -> Seq<u8>
    decreases n,
{
    if n < 10 {
        seq![(48 + n) as u8]
    } else {
        decimal(n / 10).push((48 + n % 10) as u8)
    }
}

/// The two bytes that end a line.
pub open spec fn line_end() -> Seq<u8> {
    seq![13u8, 10u8]
}

/// Appends the decimal digits of `n`.
fn push_decimal(out: &mut Vec<u8>, n: u64)
    ensures
        final(out)@ == old(out)@ + decimal(n as nat),
    decreases n,
{
    if n >= 10 {
        push_decimal(out, n / 10);
    }
    let digit: u8 = 48 + (n % 10) as u8;
    out.push(digit);
    proof {
        reveal(decimal);
        if n >= 10 {
            assert(final(out)@ =~= old(out)@ + decimal((n / 10) as nat).push(digit));
        } else {
            assert(final(out)@ =~= old(out)@ + seq![digit]);
        }
    }
}

/// Appends the bytes of `bytes` as they are.
fn push_all(out: &mut Vec<u8>, bytes: &[u8])
    ensures
        final(out)@ == old(out)@ + bytes@,
{
    let mut i: usize = 0;
    while i < bytes.len()
        invariant
            i <= bytes@.len(),
            out@ == old(out)@ + bytes@.take(i as int),
        decreases bytes@.len() - i,
    {
        out.push(bytes[i]);
        proof {
            assert(bytes@.take(i + 1) =~= bytes@.take(i as int).push(bytes@[i as int]));
            assert(out@ =~= old(out)@ + bytes@.take(i + 1));
        }
        i += 1;
    }
    proof {
        assert(bytes@.take(bytes@.len() as int) =~= bytes@);
    }
}

impl<'a> Cmd<'a> {
    /// The bytes that send this command: the verb and its arguments on one
    /// line and, for `Put`, the payload as it is on the next, with its
    /// length, the line end not counted, as the last argument.
    pub open spec fn wire(self) -> Seq<u8> {
        match self {
            Cmd::Put { pri, delay, ttr, payload } => "put ".spec_bytes()
                + decimal(pri as nat)
                + seq![32u8]
                + decimal(delay as nat)
                + seq![32u8]
                + decimal(ttr as nat)
                + seq![32u8]
                + decimal(payload@.len())
                + line_end()
                + payload@
                + line_end(),
            Cmd::Use(tube) => "use ".spec_bytes() + tube.spec_bytes() + line_end(),
            Cmd::Reserve => "reserve".spec_bytes() + line_end(),
            Cmd::ReserveJob(id) => "reserve-job ".spec_bytes() + decimal(id as nat) + line_end(),
            Cmd::ReserveTimeout(secs) => "reserve-with-timeout ".spec_bytes()
                + decimal(secs as nat)
                + line_end(),
            Cmd::Delete(id) => "delete ".spec_bytes() + decimal(id as nat) + line_end(),
            Cmd::Release { id, pri, delay } => "release ".spec_bytes()
                + decimal(id as nat)
                + seq![32u8]
                + decimal(pri as nat)
                + seq![32u8]
                + decimal(delay as nat)
                + line_end(),
            Cmd::Bury { id, pri } => "bury ".spec_bytes()
                + decimal(id as nat)
                + seq![32u8]
                + decimal(pri as nat)
                + line_end(),
            Cmd::Touch(id) => "touch ".spec_bytes() + decimal(id as nat) + line_end(),
            Cmd::Watch(tube) => "watch ".spec_bytes() + tube.spec_bytes() + line_end(),
            Cmd::Ignore(tube) => "ignore ".spec_bytes() + tube.spec_bytes() + line_end(),
            Cmd::Peek(id) => "peek ".spec_bytes() + decimal(id as nat) + line_end(),
            Cmd::PeekReady => "peek-ready".spec_bytes() + line_end(),
            Cmd::PeekDelayed => "peek-delayed".spec_bytes() + line_end(),
            Cmd::PeekBuried => "peek-buried".spec_bytes() + line_end(),
            Cmd::Kick(bound) => "kick ".spec_bytes() + decimal(bound as nat) + line_end(),
            Cmd::KickJob(id) => "kick-job ".spec_bytes() + decimal(id as nat) + line_end(),
            Cmd::StatsJob(id) => "stats-job ".spec_bytes() + decimal(id as nat) + line_end(),
            Cmd::StatsTube(tube) => "stats-tube ".spec_bytes() + tube.spec_bytes() + line_end(),
            Cmd::Stats => "stats".spec_bytes() + line_end(),
            Cmd::ListTubes => "list-tubes".spec_bytes() + line_end(),
            Cmd::ListTubeUsed => "list-tube-used".spec_bytes() + line_end(),
            Cmd::ListTubesWatched => "list-tubes-watched".spec_bytes() + line_end(),
            Cmd::Quit => "quit".spec_bytes() + line_end(),
            Cmd::PauseTube { tube, delay } => "pause-tube ".spec_bytes()
                + tube.spec_bytes()
                + seq![32u8]
                + decimal(delay as nat)
                + line_end(),
        }
    }

    /// Encodes the command. Neither names nor payloads are checked.
    pub fn encode(&self) -> (out: Vec<u8>)
        ensures
            out@ == self.wire(),
    {
        let mut out: Vec<u8> = Vec::new();
        proof {
            lemma_line_end();
        }
        match *self {
            Cmd::Put { pri, delay, ttr, payload } => {
            push_all(&mut out, "put ".as_bytes());
            push_decimal(&mut out, pri as u64);
            out.push(32);
            push_decimal(&mut out, delay as u64);
            out.push(32);
            push_decimal(&mut out, ttr as u64);
            out.push(32);
            push_decimal(&mut out, payload.len() as u64);
            push_all(&mut out, "\r\n".as_bytes());
            push_all(&mut out, payload);
            push_all(&mut out, "\r\n".as_bytes());
            },
            Cmd::Use(tube) => {
            push_all(&mut out, "use ".as_bytes());
            push_all(&mut out, tube.as_bytes());
            push_all(&mut out, "\r\n".as_bytes());
            },
            Cmd::Reserve => {
            push_all(&mut out, "reserve".as_bytes());
            push_all(&mut out, "\r\n".as_bytes());
            },
            Cmd::ReserveJob(id) => {
            push_all(&mut out, "reserve-job ".as_bytes());
            push_decimal(&mut out, id);
            push_all(&mut out, "\r\n".as_bytes());
            },
            Cmd::ReserveTimeout(secs) => {
            push_all(&mut out, "reserve-with-timeout ".as_bytes());
            push_decimal(&mut out, secs);
            push_all(&mut out, "\r\n".as_bytes());
            },
            Cmd::Delete(id) => {
            push_all(&mut out, "delete ".as_bytes());
            push_decimal(&mut out, id);
            push_all(&mut out, "\r\n".as_bytes());
            },
            Cmd::Release { id, pri, delay } => {
            push_all(&mut out, "release ".as_bytes());
            push_decimal(&mut out, id);
            out.push(32);
            push_decimal(&mut out, pri as u64);
            out.push(32);
            push_decimal(&mut out, delay as u64);
            push_all(&mut out, "\r\n".as_bytes());
            },
            Cmd::Bury { id, pri } => {
            push_all(&mut out, "bury ".as_bytes());
            push_decimal(&mut out, id);
            out.push(32);
            push_decimal(&mut out, pri as u64);
            push_all(&mut out, "\r\n".as_bytes());
            },
            Cmd::Touch(id) => {
            push_all(&mut out, "touch ".as_bytes());
            push_decimal(&mut out, id);
            push_all(&mut out, "\r\n".as_bytes());
            },
            Cmd::Watch(tube) => {
            push_all(&mut out, "watch ".as_bytes());
            push_all(&mut out, tube.as_bytes());
            push_all(&mut out, "\r\n".as_bytes());
            },
            Cmd::Ignore(tube) => {
            push_all(&mut out, "ignore ".as_bytes());
            push_all(&mut out, tube.as_bytes());
            push_all(&mut out, "\r\n".as_bytes());
            },
            Cmd::Peek(id) => {
            push_all(&mut out, "peek ".as_bytes());
            push_decimal(&mut out, id);
            push_all(&mut out, "\r\n".as_bytes());
            },
            Cmd::PeekReady => {
            push_all(&mut out, "peek-ready".as_bytes());
            push_all(&mut out, "\r\n".as_bytes());
            },
            Cmd::PeekDelayed => {
            push_all(&mut out, "peek-delayed".as_bytes());
            push_all(&mut out, "\r\n".as_bytes());
            },
            Cmd::PeekBuried => {
            push_all(&mut out, "peek-buried".as_bytes());
            push_all(&mut out, "\r\n".as_bytes());
            },
            Cmd::Kick(bound) => {
            push_all(&mut out, "kick ".as_bytes());
            push_decimal(&mut out, bound);
            push_all(&mut out, "\r\n".as_bytes());
            },
            Cmd::KickJob(id) => {
            push_all(&mut out, "kick-job ".as_bytes());
            push_decimal(&mut out, id);
            push_all(&mut out, "\r\n".as_bytes());
            },
            Cmd::StatsJob(id) => {
            push_all(&mut out, "stats-job ".as_bytes());
            push_decimal(&mut out, id);
            push_all(&mut out, "\r\n".as_bytes());
            },
            Cmd::StatsTube(tube) => {
            push_all(&mut out, "stats-tube ".as_bytes());
            push_all(&mut out, tube.as_bytes());
            push_all(&mut out, "\r\n".as_bytes());
            },
            Cmd::Stats => {
            push_all(&mut out, "stats".as_bytes());
            push_all(&mut out, "\r\n".as_bytes());
            },
            Cmd::ListTubes => {
            push_all(&mut out, "list-tubes".as_bytes());
            push_all(&mut out, "\r\n".as_bytes());
            },
            Cmd::ListTubeUsed => {
            push_all(&mut out, "list-tube-used".as_bytes());
            push_all(&mut out, "\r\n".as_bytes());
            },
            Cmd::ListTubesWatched => {
            push_all(&mut out, "list-tubes-watched".as_bytes());
            push_all(&mut out, "\r\n".as_bytes());
            },
            Cmd::Quit => {
            push_all(&mut out, "quit".as_bytes());
            push_all(&mut out, "\r\n".as_bytes());
            },
            Cmd::PauseTube { tube, delay } => {
            push_all(&mut out, "pause-tube ".as_bytes());
            push_all(&mut out, tube.as_bytes());
            out.push(32);
            push_decimal(&mut out, delay as u64);
            push_all(&mut out, "\r\n".as_bytes());
            },
        }
        assert(out@ =~= self.wire());
        out
    }
}

impl<'a> From<Cmd<'a>> for Vec<u8> {
    /// The bytes that send the command.
    fn from(c: Cmd<'a>) -> (out: Vec<u8>)
        ensures
            out@ == c.wire(),
    {
        c.encode()
    }
}

impl<'a> vstd::std_specs::convert::FromSpecImpl<Cmd<'a>> for Vec<u8> {
    /// Two vectors with the same bytes need not be one value, so the
    /// conversion is specified through its `ensures`, not as a function.
    open spec fn obeys_from_spec() -> bool {
        false
    }

    open spec fn from_spec(c: Cmd<'a>) -> Vec<u8> {
        choose|out: Vec<u8>| out@ == c.wire()
    }
}

/// The bytes of the line end literal.
proof fn lemma_line_end()
    ensures
        "\r\n".spec_bytes() =~= line_end(),
{
    reveal_strlit("\r\n");
    lemma_ascii_bytes("\r\n");
}

} // verus!
