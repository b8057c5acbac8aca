//! The law of exhaustion: an input that holds only the start of a complete
//! reply is reported as exhausted, never as a mismatch or as another reply,
//! so a reader knows to wait for more bytes.

use vstd::prelude::*;
use crate::parser::{
    crlf_failure, digits_len, is_digit, is_whitespace, leading_number,
    lemma_digits_value_prefix, lemma_run_len_bounds, lemma_run_len_is, literal_failure,
    run_len, starts_with, starts_with_crlf,
};
use crate::framing::{lemma_alternation_witness, lemma_drain_frame_then_rest};
use crate::laws::{
    any_exhausted, committed, lemma_alternation_uncommitted, lemma_decode_by_keyword,
    lemma_keyword_len, lemma_keywords_prefix_free, lemma_prefix_chain,
    lemma_reply_is_committed, lemma_reply_order_complete,
};
use crate::protocol::{
    bare, body, counted, decode_spec, drained_len, drained_replies, job, keyword, name_len,
    named, optional, payload, recognize, reply_order, MsgView, ReplyKind,
};
use crate::types::ErrorKind;

verus! {

/// Cutting an input and then skipping is skipping and then cutting.
pub proof fn lemma_take_skip(buf: Seq<u8>, k: int, m: int)
    requires
        0 <= m <= k <= buf.len(),
    ensures
        buf.take(k).skip(m) =~= buf.skip(m).take(k - m),
{
}

/// The run of an input cut within the run, or at its end, is all that is
/// left; cut after the run it is the run.
pub proof fn lemma_run_len_take(buf: Seq<u8>, p: spec_fn(u8) -> bool, k: int)
    requires
        0 <= k <= buf.len(),
    ensures
        run_len(buf.take(k), p) == if k <= run_len(buf, p) {
            k as nat
        } else {
            run_len(buf, p)
        },
{
    let n = run_len(buf, p) as int;
    let cut = buf.take(k);
    lemma_run_len_bounds(buf, p);
    if k <= n {
        assert forall|j: int| 0 <= j < k implies p(#[trigger] cut[j]) by {
            assert(cut[j] == buf[j]);
        }
        lemma_run_len_is(cut, p, k);
    } else {
        assert forall|j: int| 0 <= j < n implies p(#[trigger] cut[j]) by {
            assert(cut[j] == buf[j]);
        }
        assert(cut[n] == buf[n]);
        lemma_run_len_is(cut, p, n);
    }
}

/// The number at the start of a cut input is at most the number at the
/// start of the whole, and the same once the cut lies after its digits.
pub proof fn lemma_number_take(buf: Seq<u8>, k: int)
    requires
        0 <= k <= buf.len(),
    ensures
        digits_len(buf.take(k)) == if k <= digits_len(buf) {
            k as nat
        } else {
            digits_len(buf)
        },
        leading_number(buf.take(k)) <= leading_number(buf),
        k >= digits_len(buf) ==> leading_number(buf.take(k)) == leading_number(buf),
{
    let n = digits_len(buf) as int;
    lemma_run_len_take(buf, |b: u8| is_digit(b), k);
    lemma_run_len_bounds(buf, |b: u8| is_digit(b));
    if k <= n {
        lemma_digits_value_prefix(buf.take(n), k);
        assert(buf.take(n).take(k) =~= buf.take(k));
        assert(buf.take(k).take(k) =~= buf.take(k));
    } else {
        assert(buf.take(k).take(n) =~= buf.take(n));
    }
}

/// An input that begins with `word`, cut within `word`, is the start of
/// `word`; cut after it, it still begins with `word`.
pub proof fn lemma_literal_take(buf: Seq<u8>, word: Seq<u8>, k: int)
    requires
        starts_with(buf, word),
        word.len() > 0,
        0 <= k <= buf.len(),
    ensures
        k < word.len() ==> !starts_with(buf.take(k), word) && literal_failure(buf.take(k), word)
            == ErrorKind::EOF,
        k >= word.len() ==> starts_with(buf.take(k), word),
{
    let cut = buf.take(k);
    if k < word.len() {
        assert(cut =~= word.subrange(0, k)) by {
            assert forall|j: int| 0 <= j < k implies cut[j] == word[j] by {
                assert(buf.subrange(0, word.len() as int)[j] == buf[j]);
            }
        }
    } else {
        assert(word =~= cut.subrange(0, word.len() as int)) by {
            assert forall|j: int| 0 <= j < word.len() implies word[j] == cut[j] by {
                assert(buf.subrange(0, word.len() as int)[j] == buf[j]);
            }
        }
    }
}

/// A line end cut short is exhausted.
pub proof fn lemma_crlf_cut(buf: Seq<u8>, k: int)
    requires
        starts_with_crlf(buf),
        0 <= k < 2,
    ensures
        !starts_with_crlf(buf.take(k)),
        crlf_failure(buf.take(k)) == ErrorKind::EOF,
{
    if k == 1 {
        assert(buf.take(k)[0] == buf[0]);
    }
}

/// A keyword on its line, cut before the end of the line, is exhausted.
pub proof fn lemma_bare_cut(buf: Seq<u8>, word: Seq<u8>, k: int)
    requires
        word.len() > 0,
        bare(buf, word) matches Ok((_, used)) && 0 <= k < used,
        k <= buf.len(),
    ensures
        bare(buf.take(k), word) == Err::<((), nat), ErrorKind>(ErrorKind::EOF),
{
    let w = word.len() as int;
    let a = buf.skip(w);
    lemma_literal_take(buf, word, k);
    if k >= w {
        lemma_take_skip(buf, k, w);
        lemma_crlf_cut(a, k - w);
    }
}

/// A keyword and its number, cut before the end of the line, are
/// exhausted.
pub proof fn lemma_counted_cut(buf: Seq<u8>, word: Seq<u8>, k: int)
    requires
        word.len() > 0,
        counted(buf, word) matches Ok((_, used)) && 0 <= k < used,
        k <= buf.len(),
    ensures
        counted(buf.take(k), word) == Err::<(u64, nat), ErrorKind>(ErrorKind::EOF),
{
    let w = word.len() as int;
    let a = buf.skip(w);
    let b = a.skip(1);
    let r = digits_len(b) as int;
    let c = b.skip(r);
    let cut = buf.take(k);
    lemma_literal_take(buf, word, k);
    lemma_run_len_bounds(b, |x: u8| is_digit(x));
    if k >= w {
        lemma_take_skip(buf, k, w);
        assert(cut.skip(w) == a.take(k - w));
        if k > w {
            let j = k - w - 1;
            assert(a.take(k - w)[0] == a[0]);
            lemma_take_skip(a, k - w, 1);
            assert(cut.skip(w).skip(1) == b.take(j));
            lemma_number_take(b, j);
            if j > 0 {
                if j <= r {
                    assert(b.take(j).skip(j) =~= Seq::<u8>::empty());
                } else {
                    lemma_take_skip(b, j, r);
                    lemma_crlf_cut(c, j - r);
                }
            }
        }
    }
}

/// A keyword and its number read the same from an input cut after the
/// line.
pub proof fn lemma_counted_kept(buf: Seq<u8>, word: Seq<u8>, k: int)
    requires
        word.len() > 0,
        counted(buf, word) matches Ok((_, used)) && used <= k,
        k <= buf.len(),
    ensures
        counted(buf.take(k), word) == counted(buf, word),
{
    let w = word.len() as int;
    let a = buf.skip(w);
    let b = a.skip(1);
    let r = digits_len(b) as int;
    let c = b.skip(r);
    let cut = buf.take(k);
    lemma_literal_take(buf, word, k);
    lemma_run_len_bounds(b, |x: u8| is_digit(x));
    lemma_take_skip(buf, k, w);
    assert(cut.skip(w) == a.take(k - w));
    assert(a.take(k - w)[0] == a[0]);
    lemma_take_skip(a, k - w, 1);
    let j = k - w - 1;
    assert(cut.skip(w).skip(1) == b.take(j));
    lemma_number_take(b, j);
    lemma_take_skip(b, j, r);
    assert(c.take(j - r)[0] == c[0]);
    assert(c.take(j - r)[1] == c[1]);
}

/// A keyword with or without its number, cut before the end of the line,
/// is exhausted.
pub proof fn lemma_optional_cut(buf: Seq<u8>, word: Seq<u8>, k: int)
    requires
        word.len() > 0,
        optional(buf, word) matches Ok((_, used)) && 0 <= k < used,
        k <= buf.len(),
    ensures
        optional(buf.take(k), word) == Err::<(Option<u64>, nat), ErrorKind>(ErrorKind::EOF),
{
    let w = word.len() as int;
    let a = buf.skip(w);
    let cut = buf.take(k);
    lemma_literal_take(buf, word, k);
    if k >= w {
        lemma_take_skip(buf, k, w);
        assert(cut.skip(w) == a.take(k - w));
        if k > w {
            assert(a.take(k - w)[0] == a[0]);
        }
    }
    if starts_with(buf, word) && !(a.len() > 0 && a[0] == 32) {
        lemma_bare_cut(buf, word, k);
    } else {
        if k > w {
            lemma_counted_cut(buf, word, k);
        } else if k == w {
            assert(cut.skip(w).len() == 0);
        }
    }
}

/// A keyword and its name, cut before the end of the line, are exhausted.
pub proof fn lemma_named_cut(buf: Seq<u8>, word: Seq<u8>, k: int)
    requires
        word.len() > 0,
        named(buf, word) matches Ok((_, used)) && 0 <= k < used,
        k <= buf.len(),
    ensures
        named(buf.take(k), word) == Err::<(Seq<char>, nat), ErrorKind>(ErrorKind::EOF),
{
    let w = word.len() as int;
    let a = buf.skip(w);
    let b = a.skip(1);
    let solid = |x: u8| !is_whitespace(x);
    let r = name_len(b) as int;
    let c = b.skip(r);
    let cut = buf.take(k);
    lemma_literal_take(buf, word, k);
    lemma_run_len_bounds(b, solid);
    if k >= w {
        lemma_take_skip(buf, k, w);
        assert(cut.skip(w) == a.take(k - w));
        if k > w {
            let j = k - w - 1;
            assert(a.take(k - w)[0] == a[0]);
            lemma_take_skip(a, k - w, 1);
            assert(cut.skip(w).skip(1) == b.take(j));
            lemma_run_len_take(b, solid, j);
            if j > 0 {
                assert(b.take(j)[0] == b[0]);
                if j <= r {
                    assert(b.take(j).skip(j) =~= Seq::<u8>::empty());
                } else {
                    lemma_take_skip(b, j, r);
                    lemma_crlf_cut(c, j - r);
                }
            }
        }
    }
}

/// A payload and its line end, cut short, are exhausted.
pub proof fn lemma_payload_cut(buf: Seq<u8>, len: nat, k: int)
    requires
        payload(buf, len) matches Ok((_, used)) && 0 <= k < used,
        k <= buf.len(),
    ensures
        payload(buf.take(k), len) == Err::<(Seq<u8>, nat), ErrorKind>(ErrorKind::EOF),
{
    if k >= len {
        lemma_take_skip(buf, k, len as int);
        lemma_crlf_cut(buf.skip(len as int), k - len);
    }
}

/// A keyword, a length and a payload, cut short, are exhausted.
pub proof fn lemma_body_cut(buf: Seq<u8>, word: Seq<u8>, k: int)
    requires
        word.len() > 0,
        body(buf, word) matches Ok((_, used)) && 0 <= k < used,
        k <= buf.len(),
    ensures
        body(buf.take(k), word) == Err::<(Seq<u8>, nat), ErrorKind>(ErrorKind::EOF),
{
    let head = counted(buf, word)->Ok_0.1 as int;
    let len = counted(buf, word)->Ok_0.0;
    if k < head {
        lemma_counted_cut(buf, word, k);
    } else {
        lemma_counted_kept(buf, word, k);
        lemma_take_skip(buf, k, head);
        lemma_payload_cut(buf.skip(head), len as nat, k - head);
    }
}

/// A keyword, an id, a length and a payload, cut short, are exhausted.
pub proof fn lemma_job_cut(buf: Seq<u8>, word: Seq<u8>, k: int)
    requires
        word.len() > 0,
        job(buf, word) matches Ok((_, used)) && 0 <= k < used,
        k <= buf.len(),
    ensures
        job(buf.take(k), word) == Err::<((u64, Seq<u8>), nat), ErrorKind>(ErrorKind::EOF),
{
    let w = word.len() as int;
    let a = buf.skip(w);
    let b = a.skip(1);
    let r = digits_len(b) as int;
    let c = b.skip(r);
    let d = c.skip(1);
    let q = digits_len(d) as int;
    let e = d.skip(q);
    let f = e.skip(2);
    let cut = buf.take(k);
    lemma_literal_take(buf, word, k);
    lemma_run_len_bounds(b, |x: u8| is_digit(x));
    lemma_run_len_bounds(d, |x: u8| is_digit(x));
    if k >= w {
        lemma_take_skip(buf, k, w);
        assert(cut.skip(w) == a.take(k - w));
        if k > w {
            let j = k - w - 1;
            assert(a.take(k - w)[0] == a[0]);
            lemma_take_skip(a, k - w, 1);
            assert(cut.skip(w).skip(1) == b.take(j));
            lemma_number_take(b, j);
            if j > 0 {
                if j <= r {
                    assert(b.take(j).skip(j) =~= Seq::<u8>::empty());
                } else {
                    lemma_take_skip(b, j, r);
                    assert(b.take(j).skip(r) == c.take(j - r));
                    assert(c.take(j - r)[0] == c[0]);
                    lemma_take_skip(c, j - r, 1);
                    let i = j - r - 1;
                    assert(c.take(j - r).skip(1) == d.take(i));
                    lemma_number_take(d, i);
                    if i > 0 {
                        if i <= q {
                            assert(d.take(i).skip(i) =~= Seq::<u8>::empty());
                        } else {
                            lemma_take_skip(d, i, q);
                            assert(d.take(i).skip(q) == e.take(i - q));
                            if i - q < 2 {
                                lemma_crlf_cut(e, i - q);
                            } else {
                                assert(e.take(i - q)[0] == e[0]);
                                assert(e.take(i - q)[1] == e[1]);
                                lemma_take_skip(e, i - q, 2);
                                lemma_payload_cut(f, leading_number(d), i - q - 2);
                            }
                        }
                    }
                }
            }
        }
    }
}

/// A reply lies within the input.
pub proof fn lemma_reply_within(kind: ReplyKind, buf: Seq<u8>)
    requires
        recognize(kind, buf) is Ok,
    ensures
        recognize(kind, buf)->Ok_0.1 <= buf.len(),
{
    reveal(recognize);
    let word = keyword(kind);
    let a = buf.skip(word.len() as int);
    let b = a.skip(1);
    let c = b.skip(digits_len(b) as int);
    let d = c.skip(1);
    lemma_run_len_bounds(b, |x: u8| is_digit(x));
    lemma_run_len_bounds(d, |x: u8| is_digit(x));
    lemma_run_len_bounds(b, |x: u8| !is_whitespace(x));
}

/// The start of a complete reply, cut anywhere before its end, is reported
/// by the reply's own recognizer as exhausted.
pub proof fn lemma_reply_cut(kind: ReplyKind, buf: Seq<u8>, k: int)
    requires
        recognize(kind, buf) matches Ok((_, used)) && 0 <= k < used,
    ensures
        recognize(kind, buf.take(k)) == Err::<(MsgView, nat), ErrorKind>(ErrorKind::EOF),
{
    lemma_reply_within(kind, buf);
    lemma_keyword_len(kind);
    reveal(recognize);
    let word = keyword(kind);
    match kind {
        ReplyKind::Inserted | ReplyKind::Watching => {
            lemma_counted_cut(buf, word, k);
        },
        ReplyKind::Using => {
            lemma_named_cut(buf, word, k);
        },
        ReplyKind::Reserved | ReplyKind::Found => {
            lemma_job_cut(buf, word, k);
        },
        ReplyKind::Buried | ReplyKind::Kicked => {
            lemma_optional_cut(buf, word, k);
        },
        ReplyKind::Okay => {
            lemma_body_cut(buf, word, k);
        },
        _ => {
            lemma_bare_cut(buf, word, k);
        },
    }
}

/// Exhaustion, never mismatch: an input that holds only the start of a
/// complete reply, cut anywhere before the reply's end, decodes to
/// exhaustion. The bytes that are missing may still arrive.
pub proof fn lemma_prefix_is_exhausted(buf: Seq<u8>, k: int)
    requires
        decode_spec(buf) matches Ok((_, used)) && 0 <= k < used,
    ensures
        decode_spec(buf.take(k)) == Err::<(MsgView, nat), ErrorKind>(ErrorKind::EOF),
{
    let order = reply_order();
    let cut = buf.take(k);
    let kind = {
        reveal(decode_spec);
        lemma_alternation_witness(order, buf)
    };
    let word = keyword(kind);
    lemma_reply_is_committed(kind, buf);
    lemma_reply_within(kind, buf);
    lemma_reply_cut(kind, buf, k);
    lemma_keyword_len(kind);
    lemma_literal_take(buf, word, k);
    if k >= word.len() {
        lemma_decode_by_keyword(kind, cut);
    } else {
        assert forall|other: ReplyKind| order.contains(other) implies !committed(other, cut) by {
            if committed(other, cut) {
                assert(cut.is_prefix_of(word)) by {
                    assert(cut =~= word.subrange(0, k)) by {
                        assert forall|j: int| 0 <= j < k implies cut[j] == word[j] by {
                            assert(buf.subrange(0, word.len() as int)[j] == buf[j]);
                        }
                    }
                }
                lemma_prefix_chain(keyword(other), cut, word);
                lemma_keywords_prefix_free(other, kind);
            }
        }
        lemma_alternation_uncommitted(order, cut);
        lemma_reply_order_complete(kind);
        assert(any_exhausted(order, cut));
        reveal(decode_spec);
    }
}

/// Draining a complete reply followed by the start of another gives the
/// first reply and stops where the second begins: that start is what the
/// reader keeps until more bytes arrive.
pub proof fn lemma_drain_keeps_the_partial_reply(frame: Seq<u8>, next: Seq<u8>, k: int)
    requires
        decode_spec(frame) matches Ok((_, used)) && used == frame.len(),
        decode_spec(next) matches Ok((_, used)) && 0 <= k < used,
    ensures
        drained_replies(frame + next.take(k)) == seq![decode_spec(frame)->Ok_0.0],
        drained_len(frame + next.take(k)) == frame.len(),
        decode_spec(next.take(k)) == Err::<(MsgView, nat), ErrorKind>(ErrorKind::EOF),
{
    lemma_prefix_is_exhausted(next, k);
    lemma_drain_frame_then_rest(frame, next.take(k));
    assert(seq![decode_spec(frame)->Ok_0.0] + Seq::<MsgView>::empty() =~= seq![
        decode_spec(frame)->Ok_0.0,
    ]);
}

} // verus!
