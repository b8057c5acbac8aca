//! Laws of framing: a complete reply is decoded the same whatever follows
//! it, so a buffer of several replies drains to each of them in order, and
//! a payload comes out as it went in, whatever bytes it holds.

use vstd::prelude::*;
use crate::laws::{lemma_decode_by_keyword, lemma_keyword_len, lemma_reply_is_committed};
use crate::parser::{
    digits_len, digits_value, is_digit, is_whitespace, leading_number, lemma_run_len_bounds,
    lemma_run_len_is, run_len, starts_with, starts_with_crlf,
};
use crate::protocol::{
    alternation, bare, body, counted, decimal, decode_spec, drained_len, drained_replies, job,
    keyword, lemma_decode_bounds, line_end, name_len, named, optional, payload, recognize,
    reply_order, MsgView, ReplyKind,
};
use crate::types::ErrorKind;

verus! {

/// A run that ends before the end of the input is the same run when more
/// input follows.
pub proof fn lemma_run_len_append(buf: Seq<u8>, more: Seq<u8>, p: spec_fn(u8) -> bool)
    requires
        run_len(buf, p) < buf.len(),
    ensures
        run_len(buf + more, p) == run_len(buf, p),
{
    let n = run_len(buf, p) as int;
    lemma_run_len_bounds(buf, p);
    assert forall|j: int| 0 <= j < n implies p(#[trigger] (buf + more)[j]) by {
        assert((buf + more)[j] == buf[j]);
    }
    assert((buf + more)[n] == buf[n]);
    lemma_run_len_is(buf + more, p, n);
}

/// Skipping within the first part of a joined input leaves the rest of
/// that part, joined to the second.
pub proof fn lemma_skip_append(buf: Seq<u8>, more: Seq<u8>, n: int)
    requires
        0 <= n <= buf.len(),
    ensures
        (buf + more).skip(n) =~= buf.skip(n) + more,
        (buf + more).take(n) =~= buf.take(n),
{
}

/// A number that ends before the end of the input is the same number when
/// more input follows.
pub proof fn lemma_number_append(buf: Seq<u8>, more: Seq<u8>)
    requires
        digits_len(buf) < buf.len(),
    ensures
        digits_len(buf + more) == digits_len(buf),
        leading_number(buf + more) == leading_number(buf),
{
    lemma_run_len_append(buf, more, |b: u8| is_digit(b));
    lemma_skip_append(buf, more, digits_len(buf) as int);
}

/// An input that begins with `word` still does when more input follows.
pub proof fn lemma_starts_with_append(buf: Seq<u8>, more: Seq<u8>, word: Seq<u8>)
    requires
        starts_with(buf, word),
    ensures
        starts_with(buf + more, word),
        (buf + more).skip(word.len() as int) =~= buf.skip(word.len() as int) + more,
{
    assert(word =~= (buf + more).subrange(0, word.len() as int)) by {
        assert forall|j: int| 0 <= j < word.len() implies word[j] == (buf + more)[j] by {
            assert(buf.subrange(0, word.len() as int)[j] == buf[j]);
        }
    }
}

/// A keyword alone on its line reads the same whatever follows the line.
pub proof fn lemma_bare_append(buf: Seq<u8>, more: Seq<u8>, word: Seq<u8>)
    requires
        bare(buf, word) is Ok,
    ensures
        bare(buf + more, word) == bare(buf, word),
{
    lemma_starts_with_append(buf, more, word);
}

/// A keyword with its number reads the same whatever follows the line.
pub proof fn lemma_counted_append(buf: Seq<u8>, more: Seq<u8>, word: Seq<u8>)
    requires
        counted(buf, word) is Ok,
    ensures
        counted(buf + more, word) == counted(buf, word),
{
    let a = buf.skip(word.len() as int);
    let b = a.skip(1);
    lemma_starts_with_append(buf, more, word);
    lemma_skip_append(a, more, 1);
    lemma_run_len_bounds(b, |x: u8| is_digit(x));
    lemma_number_append(b, more);
    lemma_skip_append(b, more, digits_len(b) as int);
    let wide = (buf + more).skip(word.len() as int);
    assert(wide == a + more);
    assert(wide.skip(1) == b + more);
}

/// A keyword with or without its number reads the same whatever follows
/// the line.
pub proof fn lemma_optional_append(buf: Seq<u8>, more: Seq<u8>, word: Seq<u8>)
    requires
        optional(buf, word) is Ok,
    ensures
        optional(buf + more, word) == optional(buf, word),
{
    let a = buf.skip(word.len() as int);
    if starts_with(buf, word) && !(a.len() > 0 && a[0] == 32) {
        lemma_bare_append(buf, more, word);
        lemma_starts_with_append(buf, more, word);
        assert((a + more)[0] == a[0]);
    } else {
        lemma_counted_append(buf, more, word);
        lemma_starts_with_append(buf, more, word);
        assert((a + more)[0] == a[0]);
    }
}

/// A keyword with its name reads the same whatever follows the line.
pub proof fn lemma_named_append(buf: Seq<u8>, more: Seq<u8>, word: Seq<u8>)
    requires
        named(buf, word) is Ok,
    ensures
        named(buf + more, word) == named(buf, word),
{
    let a = buf.skip(word.len() as int);
    let b = a.skip(1);
    let solid = |x: u8| !is_whitespace(x);
    lemma_starts_with_append(buf, more, word);
    lemma_skip_append(a, more, 1);
    lemma_run_len_bounds(b, solid);
    lemma_run_len_append(b, more, solid);
    lemma_skip_append(b, more, name_len(b) as int);
    let wide = (buf + more).skip(word.len() as int);
    assert(wide == a + more);
    assert(wide.skip(1) == b + more);
    assert((b + more)[0] == b[0]);
}

/// A payload with its line end reads the same whatever follows it.
pub proof fn lemma_payload_append(buf: Seq<u8>, more: Seq<u8>, len: nat)
    requires
        payload(buf, len) is Ok,
    ensures
        payload(buf + more, len) == payload(buf, len),
{
    lemma_skip_append(buf, more, len as int);
}

/// A keyword, a length and a payload read the same whatever follows them.
pub proof fn lemma_body_append(buf: Seq<u8>, more: Seq<u8>, word: Seq<u8>)
    requires
        body(buf, word) is Ok,
    ensures
        body(buf + more, word) == body(buf, word),
{
    lemma_counted_append(buf, more, word);
    let head = counted(buf, word)->Ok_0.1;
    let len = counted(buf, word)->Ok_0.0;
    lemma_counted_within(buf, word);
    lemma_skip_append(buf, more, head as int);
    lemma_payload_append(buf.skip(head as int), more, len as nat);
}

/// A line of a keyword and a number lies within the input.
pub proof fn lemma_counted_within(buf: Seq<u8>, word: Seq<u8>)
    requires
        counted(buf, word) is Ok,
    ensures
        counted(buf, word)->Ok_0.1 <= buf.len(),
{
    let a = buf.skip(word.len() as int);
    let b = a.skip(1);
    lemma_run_len_bounds(b, |x: u8| is_digit(x));
}

/// A keyword, an id, a length and a payload read the same whatever follows
/// them.
pub proof fn lemma_job_append(buf: Seq<u8>, more: Seq<u8>, word: Seq<u8>)
    requires
        job(buf, word) is Ok,
    ensures
        job(buf + more, word) == job(buf, word),
{
    let a = buf.skip(word.len() as int);
    let b = a.skip(1);
    let c = b.skip(digits_len(b) as int);
    let d = c.skip(1);
    let e = d.skip(digits_len(d) as int);
    lemma_starts_with_append(buf, more, word);
    lemma_skip_append(a, more, 1);
    lemma_run_len_bounds(b, |x: u8| is_digit(x));
    lemma_number_append(b, more);
    lemma_skip_append(b, more, digits_len(b) as int);
    lemma_skip_append(c, more, 1);
    lemma_run_len_bounds(d, |x: u8| is_digit(x));
    lemma_number_append(d, more);
    lemma_skip_append(d, more, digits_len(d) as int);
    lemma_skip_append(e, more, 2);
    lemma_payload_append(e.skip(2), more, leading_number(d));
    let wide = (buf + more).skip(word.len() as int);
    assert(wide == a + more);
    assert(wide.skip(1) == b + more);
    assert((b + more).skip(digits_len(b) as int) == c + more);
    assert((c + more).skip(1) == d + more);
    assert((d + more).skip(digits_len(d) as int) == e + more);
    assert((e + more).skip(2) == e.skip(2) + more);
    assert((a + more)[0] == a[0]);
    assert((c + more)[0] == c[0]);
}

/// A complete reply is recognized the same whatever follows it.
pub proof fn lemma_reply_ignores_what_follows(kind: ReplyKind, buf: Seq<u8>, more: Seq<u8>)
    requires
        recognize(kind, buf) is Ok,
    ensures
        recognize(kind, buf + more) == recognize(kind, buf),
{
    reveal(recognize);
    let word = keyword(kind);
    match kind {
        ReplyKind::Inserted | ReplyKind::Watching => {
            lemma_counted_append(buf, more, word);
        },
        ReplyKind::Using => {
            lemma_named_append(buf, more, word);
        },
        ReplyKind::Reserved | ReplyKind::Found => {
            lemma_job_append(buf, more, word);
        },
        ReplyKind::Buried | ReplyKind::Kicked => {
            lemma_optional_append(buf, more, word);
        },
        ReplyKind::Okay => {
            lemma_body_append(buf, more, word);
        },
        _ => {
            lemma_bare_append(buf, more, word);
        },
    }
}

/// A reply that ordered alternation returns is the reply of one of its
/// recognizers.
pub proof fn lemma_alternation_witness(order: Seq<ReplyKind>, buf: Seq<u8>) -> (kind: ReplyKind)
    requires
        alternation(order, buf) is Ok,
    ensures
        order.contains(kind),
        recognize(kind, buf) == alternation(order, buf),
    decreases order.len(),
{
    if recognize(order[0], buf) is Ok {
        order[0]
    } else {
        let rest = order.skip(1);
        let kind = lemma_alternation_witness(rest, buf);
        let i = choose|i: int| 0 <= i < rest.len() && rest[i] == kind;
        assert(order[i + 1] == kind);
        kind
    }
}

/// A complete reply is decoded the same whatever follows it.
pub proof fn lemma_decode_ignores_what_follows(buf: Seq<u8>, more: Seq<u8>)
    requires
        decode_spec(buf) is Ok,
    ensures
        decode_spec(buf + more) == decode_spec(buf),
{
    reveal(decode_spec);
    let kind = lemma_alternation_witness(reply_order(), buf);
    lemma_reply_is_committed(kind, buf);
    lemma_reply_ignores_what_follows(kind, buf, more);
    lemma_reply_is_committed(kind, buf + more);
    lemma_decode_by_keyword(kind, buf);
    lemma_decode_by_keyword(kind, buf + more);
}

/// Draining takes a complete reply at the start of the input and goes on
/// with what follows it: the replies of a buffer come out one by one, in
/// the order of their frames.
pub proof fn lemma_drain_frame_then_rest(frame: Seq<u8>, rest: Seq<u8>)
    requires
        decode_spec(frame) matches Ok((_, used)) && used == frame.len(),
    ensures
        drained_replies(frame + rest) == seq![decode_spec(frame)->Ok_0.0] + drained_replies(rest),
        drained_len(frame + rest) == frame.len() + drained_len(rest),
{
    lemma_decode_ignores_what_follows(frame, rest);
    lemma_decode_bounds(frame);
    assert((frame + rest).skip(frame.len() as int) =~= rest);
}

/// The digits of `decimal` are digits, there is at least one, and they
/// write the number they were made from.
pub proof fn lemma_decimal_round_trip(n: nat)
    ensures
        decimal(n).len() > 0,
        forall|j: int| 0 <= j < decimal(n).len() ==> is_digit(#[trigger] decimal(n)[j]),
        digits_value(decimal(n)) == n,
    decreases n,
{
    reveal(decimal);
    if n < 10 {
        let one = decimal(n);
        assert(one.drop_last() =~= Seq::<u8>::empty());
        assert(digits_value(one) == digits_value(one.drop_last()) * 10 + (one.last() - 48) as nat);
    } else {
        let init = decimal(n / 10);
        let digit = (48 + n % 10) as u8;
        lemma_decimal_round_trip(n / 10);
        assert(init.push(digit).drop_last() =~= init);
        assert(init.push(digit).last() == digit);
    }
}

/// The frame of a reply that carries a job: the keyword, the id, the
/// length of the payload, and the payload between two line ends.
pub open spec fn job_frame(word: Seq<u8>, id: u64, data: Seq<u8>) -> Seq<u8> {
    word + (seq![32u8] + (decimal(id as nat) + (seq![32u8] + (decimal(data.len()) + (line_end() + (
    data + line_end()))))))
}

/// Digits followed by a byte that is no digit form the leading run of
/// digits, and what follows the run is what followed the digits.
pub proof fn lemma_digits_then_tail(text: Seq<u8>, tail: Seq<u8>)
    requires
        forall|j: int| 0 <= j < text.len() ==> is_digit(#[trigger] text[j]),
        tail.len() > 0,
        !is_digit(tail[0]),
    ensures
        digits_len(text + tail) == text.len(),
        leading_number(text + tail) == digits_value(text),
        (text + tail).skip(text.len() as int) == tail,
{
    assert forall|j: int| 0 <= j < text.len() implies is_digit(#[trigger] (text + tail)[j]) by {
        assert((text + tail)[j] == text[j]);
    }
    assert((text + tail)[text.len() as int] == tail[0]);
    lemma_run_len_is(text + tail, |b: u8| is_digit(b), text.len() as int);
    assert((text + tail).take(text.len() as int) =~= text);
    assert((text + tail).skip(text.len() as int) =~= tail);
}

/// A keyword, a space, the digits of an id, a space, the digits of a
/// length, a line end, as many bytes as the length says and a line end are
/// read as that id and those bytes, and as nothing more.
#[verifier::rlimit(40)]
pub proof fn lemma_job_of_parts(
    word: Seq<u8>,
    id_text: Seq<u8>,
    len_text: Seq<u8>,
    id: u64,
    data: Seq<u8>,
)
    requires
        word.len() > 0,
        id_text.len() > 0,
        len_text.len() > 0,
        forall|j: int| 0 <= j < id_text.len() ==> is_digit(#[trigger] id_text[j]),
        forall|j: int| 0 <= j < len_text.len() ==> is_digit(#[trigger] len_text[j]),
        digits_value(id_text) == id,
        digits_value(len_text) == data.len(),
        data.len() <= u64::MAX,
    ensures
        ({
            let frame = word + (seq![32u8] + (id_text + (seq![32u8] + (len_text + (line_end() + (
            data + line_end()))))));
            job(frame, word) == Ok::<((u64, Seq<u8>), nat), ErrorKind>(((id, data), frame.len()))
        }),
{
    let f = data + line_end();
    let e = line_end() + f;
    let d = len_text + e;
    let c = seq![32u8] + d;
    let b = id_text + c;
    let a = seq![32u8] + b;
    lemma_word_then_tail(word, a);
    lemma_byte_then_tail(32, b);
    lemma_digits_then_tail(id_text, c);
    lemma_byte_then_tail(32, d);
    lemma_digits_then_tail(len_text, e);
    lemma_line_end_then_tail(f);
    lemma_payload_then_line_end(data);
}

/// An input made of `word` and a tail begins with `word` and goes on with
/// the tail.
pub proof fn lemma_word_then_tail(word: Seq<u8>, tail: Seq<u8>)
    requires
        word.len() > 0,
    ensures
        starts_with(word + tail, word),
        (word + tail).skip(word.len() as int) == tail,
{
    assert(word =~= (word + tail).subrange(0, word.len() as int));
    assert((word + tail).skip(word.len() as int) =~= tail);
}

/// An input made of one byte and a tail begins with the byte and goes on
/// with the tail.
pub proof fn lemma_byte_then_tail(byte: u8, tail: Seq<u8>)
    ensures
        (seq![byte] + tail).len() > 0,
        (seq![byte] + tail)[0] == byte,
        (seq![byte] + tail).skip(1) == tail,
{
    assert((seq![byte] + tail).skip(1) =~= tail);
}

/// An input made of a line end and a tail begins with the line end and
/// goes on with the tail.
pub proof fn lemma_line_end_then_tail(tail: Seq<u8>)
    ensures
        starts_with_crlf(line_end() + tail),
        (line_end() + tail).skip(2) == tail,
{
    assert((line_end() + tail).skip(2) =~= tail);
}

/// A payload followed by a line end is read as the payload, whatever bytes
/// it holds.
pub proof fn lemma_payload_then_line_end(data: Seq<u8>)
    ensures
        payload(data + line_end(), data.len()) == Ok::<(Seq<u8>, nat), ErrorKind>(
            (data, data.len() + 2),
        ),
{
    let f = data + line_end();
    assert(f.skip(data.len() as int) =~= line_end());
    assert(f.take(data.len() as int) =~= data);
}

/// The frame of a job is read back as that id and that payload, whatever
/// bytes the payload holds, line ends among them.
pub proof fn lemma_job_frame_is_read_back(word: Seq<u8>, id: u64, data: Seq<u8>)
    requires
        word.len() > 0,
        data.len() <= u64::MAX,
    ensures
        job(job_frame(word, id, data), word) == Ok::<((u64, Seq<u8>), nat), ErrorKind>(
            ((id, data), job_frame(word, id, data).len()),
        ),
{
    lemma_decimal_round_trip(id as nat);
    lemma_decimal_round_trip(data.len());
    lemma_job_of_parts(word, decimal(id as nat), decimal(data.len()), id, data);
}

/// A `RESERVED` frame decodes to the job it was made from: the payload
/// comes out as it went in, whatever bytes it holds.
pub proof fn lemma_reserved_frame_decodes(id: u64, data: Seq<u8>)
    requires
        data.len() <= u64::MAX,
    ensures
        decode_spec(job_frame(keyword(ReplyKind::Reserved), id, data)) == Ok::<
            (MsgView, nat),
            ErrorKind,
        >((MsgView::Reserved(id, data), job_frame(keyword(ReplyKind::Reserved), id, data).len())),
{
    let word = keyword(ReplyKind::Reserved);
    lemma_keyword_len(ReplyKind::Reserved);
    lemma_keyword_len(ReplyKind::Found);
    lemma_job_frame_is_read_back(word, id, data);
    let frame = job_frame(word, id, data);
    reveal(recognize);
    assert(recognize(ReplyKind::Reserved, frame) is Ok);
    lemma_reply_is_committed(ReplyKind::Reserved, frame);
    lemma_decode_by_keyword(ReplyKind::Reserved, frame);
}

/// A `FOUND` frame decodes to the job it was made from.
pub proof fn lemma_found_frame_decodes(id: u64, data: Seq<u8>)
    requires
        data.len() <= u64::MAX,
    ensures
        decode_spec(job_frame(keyword(ReplyKind::Found), id, data)) == Ok::<
            (MsgView, nat),
            ErrorKind,
        >((MsgView::Found(id, data), job_frame(keyword(ReplyKind::Found), id, data).len())),
{
    let word = keyword(ReplyKind::Found);
    lemma_keyword_len(ReplyKind::Reserved);
    lemma_keyword_len(ReplyKind::Found);
    lemma_job_frame_is_read_back(word, id, data);
    let frame = job_frame(word, id, data);
    reveal(recognize);
    assert(recognize(ReplyKind::Found, frame) is Ok);
    lemma_reply_is_committed(ReplyKind::Found, frame);
    lemma_decode_by_keyword(ReplyKind::Found, frame);
}

} // verus!
