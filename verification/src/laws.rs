//! Laws of the reply grammar: no two recognizers accept the same input, and
//! the order in which the decoder tries them does not change what it
//! returns.

use vstd::prelude::*;
use vstd::string::StringSliceAdditionalSpecFns;
use crate::parser::{lemma_ascii_bytes, literal_failure, starts_with};
use crate::protocol::{
    alternation, decode_spec, either_failure, is_malformed, keyword, lemma_recognize_bounds,
    recognize, reply_order, MsgView, Outcome, ReplyKind,
};
use crate::types::ErrorKind;

verus! {

/// The bytes of every reply keyword.
pub proof fn lemma_keyword_bytes()
    ensures
        keyword(ReplyKind::Inserted) =~= seq![73u8, 78, 83, 69, 82, 84, 69, 68],
        keyword(ReplyKind::Using) =~= seq![85u8, 83, 73, 78, 71],
        keyword(ReplyKind::Reserved) =~= seq![82u8, 69, 83, 69, 82, 86, 69, 68],
        keyword(ReplyKind::OutOfMemory) =~= seq![
            79u8, 85, 84, 95, 79, 70, 95, 77, 69, 77, 79, 82, 89,
        ],
        keyword(ReplyKind::InternalError) =~= seq![
            73u8, 78, 84, 69, 82, 78, 65, 76, 95, 69, 82, 82, 79, 82,
        ],
        keyword(ReplyKind::BadFormat) =~= seq![66u8, 65, 68, 95, 70, 79, 82, 77, 65, 84],
        keyword(ReplyKind::UnknownCommand) =~= seq![
            85u8, 78, 75, 78, 79, 87, 78, 95, 67, 79, 77, 77, 65, 78, 68,
        ],
        keyword(ReplyKind::ExpectedCrlf) =~= seq![
            69u8, 88, 80, 69, 67, 84, 69, 68, 95, 67, 82, 76, 70,
        ],
        keyword(ReplyKind::JobTooBig) =~= seq![74u8, 79, 66, 95, 84, 79, 79, 95, 66, 73, 71],
        keyword(ReplyKind::Draining) =~= seq![68u8, 82, 65, 73, 78, 73, 78, 71],
        keyword(ReplyKind::DeadlineSoon) =~= seq![
            68u8, 69, 65, 68, 76, 73, 78, 69, 95, 83, 79, 79, 78,
        ],
        keyword(ReplyKind::TimedOut) =~= seq![84u8, 73, 77, 69, 68, 95, 79, 85, 84],
        keyword(ReplyKind::NotFound) =~= seq![78u8, 79, 84, 95, 70, 79, 85, 78, 68],
        keyword(ReplyKind::Deleted) =~= seq![68u8, 69, 76, 69, 84, 69, 68],
        keyword(ReplyKind::Released) =~= seq![82u8, 69, 76, 69, 65, 83, 69, 68],
        keyword(ReplyKind::Buried) =~= seq![66u8, 85, 82, 73, 69, 68],
        keyword(ReplyKind::Touched) =~= seq![84u8, 79, 85, 67, 72, 69, 68],
        keyword(ReplyKind::Watching) =~= seq![87u8, 65, 84, 67, 72, 73, 78, 71],
        keyword(ReplyKind::NotIgnored) =~= seq![78u8, 79, 84, 95, 73, 71, 78, 79, 82, 69, 68],
        keyword(ReplyKind::Found) =~= seq![70u8, 79, 85, 78, 68],
        keyword(ReplyKind::Kicked) =~= seq![75u8, 73, 67, 75, 69, 68],
        keyword(ReplyKind::Okay) =~= seq![79u8, 75],
        keyword(ReplyKind::Paused) =~= seq![80u8, 65, 85, 83, 69, 68],
{
    reveal_strlit("INSERTED");
    lemma_ascii_bytes("INSERTED");
    reveal_strlit("USING");
    lemma_ascii_bytes("USING");
    reveal_strlit("RESERVED");
    lemma_ascii_bytes("RESERVED");
    reveal_strlit("OUT_OF_MEMORY");
    lemma_ascii_bytes("OUT_OF_MEMORY");
    reveal_strlit("INTERNAL_ERROR");
    lemma_ascii_bytes("INTERNAL_ERROR");
    reveal_strlit("BAD_FORMAT");
    lemma_ascii_bytes("BAD_FORMAT");
    reveal_strlit("UNKNOWN_COMMAND");
    lemma_ascii_bytes("UNKNOWN_COMMAND");
    reveal_strlit("EXPECTED_CRLF");
    lemma_ascii_bytes("EXPECTED_CRLF");
    reveal_strlit("JOB_TOO_BIG");
    lemma_ascii_bytes("JOB_TOO_BIG");
    reveal_strlit("DRAINING");
    lemma_ascii_bytes("DRAINING");
    reveal_strlit("DEADLINE_SOON");
    lemma_ascii_bytes("DEADLINE_SOON");
    reveal_strlit("TIMED_OUT");
    lemma_ascii_bytes("TIMED_OUT");
    reveal_strlit("NOT_FOUND");
    lemma_ascii_bytes("NOT_FOUND");
    reveal_strlit("DELETED");
    lemma_ascii_bytes("DELETED");
    reveal_strlit("RELEASED");
    lemma_ascii_bytes("RELEASED");
    reveal_strlit("BURIED");
    lemma_ascii_bytes("BURIED");
    reveal_strlit("TOUCHED");
    lemma_ascii_bytes("TOUCHED");
    reveal_strlit("WATCHING");
    lemma_ascii_bytes("WATCHING");
    reveal_strlit("NOT_IGNORED");
    lemma_ascii_bytes("NOT_IGNORED");
    reveal_strlit("FOUND");
    lemma_ascii_bytes("FOUND");
    reveal_strlit("KICKED");
    lemma_ascii_bytes("KICKED");
    reveal_strlit("OK");
    lemma_ascii_bytes("OK");
    reveal_strlit("PAUSED");
    lemma_ascii_bytes("PAUSED");
}

/// The input begins with the keyword of `kind`.
pub open spec fn committed(kind: ReplyKind, buf: Seq<u8>) -> bool {
    starts_with(buf, keyword(kind))
}

/// The one kind whose keyword an input can begin with, read off the few
/// bytes in which the keywords differ.
spec fn kind_by_prefix(buf: Seq<u8>) -> ReplyKind {
    if buf[0] == 73 {
        if buf[2] == 83 {
            ReplyKind::Inserted
        } else {
            ReplyKind::InternalError
        }
    } else if buf[0] == 85 {
        if buf[1] == 83 {
            ReplyKind::Using
        } else {
            ReplyKind::UnknownCommand
        }
    } else if buf[0] == 82 {
        if buf[2] == 83 {
            ReplyKind::Reserved
        } else {
            ReplyKind::Released
        }
    } else if buf[0] == 79 {
        if buf[1] == 85 {
            ReplyKind::OutOfMemory
        } else {
            ReplyKind::Okay
        }
    } else if buf[0] == 66 {
        if buf[1] == 65 {
            ReplyKind::BadFormat
        } else {
            ReplyKind::Buried
        }
    } else if buf[0] == 69 {
        ReplyKind::ExpectedCrlf
    } else if buf[0] == 74 {
        ReplyKind::JobTooBig
    } else if buf[0] == 68 {
        if buf[1] == 82 {
            ReplyKind::Draining
        } else if buf[2] == 65 {
            ReplyKind::DeadlineSoon
        } else {
            ReplyKind::Deleted
        }
    } else if buf[0] == 84 {
        if buf[1] == 73 {
            ReplyKind::TimedOut
        } else {
            ReplyKind::Touched
        }
    } else if buf[0] == 78 {
        if buf[4] == 70 {
            ReplyKind::NotFound
        } else {
            ReplyKind::NotIgnored
        }
    } else if buf[0] == 87 {
        ReplyKind::Watching
    } else if buf[0] == 70 {
        ReplyKind::Found
    } else if buf[0] == 75 {
        ReplyKind::Kicked
    } else {
        ReplyKind::Paused
    }
}

/// An input that begins with `word` has the bytes of `word`.
proof fn lemma_prefix_byte(buf: Seq<u8>, word: Seq<u8>, j: int)
    requires
        word.is_prefix_of(buf),
        0 <= j < word.len(),
    ensures
        buf[j] == word[j],
{
    assert(buf.subrange(0, word.len() as int)[j] == buf[j]);
}

/// The keyword that an input begins with fixes the kind.
proof fn lemma_committed_kind(kind: ReplyKind, buf: Seq<u8>)
    requires
        committed(kind, buf),
    ensures
        kind_by_prefix(buf) == kind,
{
    let word = keyword(kind);
    match kind {
        ReplyKind::Inserted => {
            reveal_strlit("INSERTED");
            lemma_ascii_bytes("INSERTED");
            lemma_prefix_byte(buf, word, 0);
            lemma_prefix_byte(buf, word, 1);
            lemma_prefix_byte(buf, word, 2);
            lemma_prefix_byte(buf, word, 4);
        },
        ReplyKind::Using => {
            reveal_strlit("USING");
            lemma_ascii_bytes("USING");
            lemma_prefix_byte(buf, word, 0);
            lemma_prefix_byte(buf, word, 1);
            lemma_prefix_byte(buf, word, 2);
            lemma_prefix_byte(buf, word, 4);
        },
        ReplyKind::Reserved => {
            reveal_strlit("RESERVED");
            lemma_ascii_bytes("RESERVED");
            lemma_prefix_byte(buf, word, 0);
            lemma_prefix_byte(buf, word, 1);
            lemma_prefix_byte(buf, word, 2);
            lemma_prefix_byte(buf, word, 4);
        },
        ReplyKind::OutOfMemory => {
            reveal_strlit("OUT_OF_MEMORY");
            lemma_ascii_bytes("OUT_OF_MEMORY");
            lemma_prefix_byte(buf, word, 0);
            lemma_prefix_byte(buf, word, 1);
            lemma_prefix_byte(buf, word, 2);
            lemma_prefix_byte(buf, word, 4);
        },
        ReplyKind::InternalError => {
            reveal_strlit("INTERNAL_ERROR");
            lemma_ascii_bytes("INTERNAL_ERROR");
            lemma_prefix_byte(buf, word, 0);
            lemma_prefix_byte(buf, word, 1);
            lemma_prefix_byte(buf, word, 2);
            lemma_prefix_byte(buf, word, 4);
        },
        ReplyKind::BadFormat => {
            reveal_strlit("BAD_FORMAT");
            lemma_ascii_bytes("BAD_FORMAT");
            lemma_prefix_byte(buf, word, 0);
            lemma_prefix_byte(buf, word, 1);
            lemma_prefix_byte(buf, word, 2);
            lemma_prefix_byte(buf, word, 4);
        },
        ReplyKind::UnknownCommand => {
            reveal_strlit("UNKNOWN_COMMAND");
            lemma_ascii_bytes("UNKNOWN_COMMAND");
            lemma_prefix_byte(buf, word, 0);
            lemma_prefix_byte(buf, word, 1);
            lemma_prefix_byte(buf, word, 2);
            lemma_prefix_byte(buf, word, 4);
        },
        ReplyKind::ExpectedCrlf => {
            reveal_strlit("EXPECTED_CRLF");
            lemma_ascii_bytes("EXPECTED_CRLF");
            lemma_prefix_byte(buf, word, 0);
            lemma_prefix_byte(buf, word, 1);
            lemma_prefix_byte(buf, word, 2);
            lemma_prefix_byte(buf, word, 4);
        },
        ReplyKind::JobTooBig => {
            reveal_strlit("JOB_TOO_BIG");
            lemma_ascii_bytes("JOB_TOO_BIG");
            lemma_prefix_byte(buf, word, 0);
            lemma_prefix_byte(buf, word, 1);
            lemma_prefix_byte(buf, word, 2);
            lemma_prefix_byte(buf, word, 4);
        },
        ReplyKind::Draining => {
            reveal_strlit("DRAINING");
            lemma_ascii_bytes("DRAINING");
            lemma_prefix_byte(buf, word, 0);
            lemma_prefix_byte(buf, word, 1);
            lemma_prefix_byte(buf, word, 2);
            lemma_prefix_byte(buf, word, 4);
        },
        ReplyKind::DeadlineSoon => {
            reveal_strlit("DEADLINE_SOON");
            lemma_ascii_bytes("DEADLINE_SOON");
            lemma_prefix_byte(buf, word, 0);
            lemma_prefix_byte(buf, word, 1);
            lemma_prefix_byte(buf, word, 2);
            lemma_prefix_byte(buf, word, 4);
        },
        ReplyKind::TimedOut => {
            reveal_strlit("TIMED_OUT");
            lemma_ascii_bytes("TIMED_OUT");
            lemma_prefix_byte(buf, word, 0);
            lemma_prefix_byte(buf, word, 1);
            lemma_prefix_byte(buf, word, 2);
            lemma_prefix_byte(buf, word, 4);
        },
        ReplyKind::NotFound => {
            reveal_strlit("NOT_FOUND");
            lemma_ascii_bytes("NOT_FOUND");
            lemma_prefix_byte(buf, word, 0);
            lemma_prefix_byte(buf, word, 1);
            lemma_prefix_byte(buf, word, 2);
            lemma_prefix_byte(buf, word, 4);
        },
        ReplyKind::Deleted => {
            reveal_strlit("DELETED");
            lemma_ascii_bytes("DELETED");
            lemma_prefix_byte(buf, word, 0);
            lemma_prefix_byte(buf, word, 1);
            lemma_prefix_byte(buf, word, 2);
            lemma_prefix_byte(buf, word, 4);
        },
        ReplyKind::Released => {
            reveal_strlit("RELEASED");
            lemma_ascii_bytes("RELEASED");
            lemma_prefix_byte(buf, word, 0);
            lemma_prefix_byte(buf, word, 1);
            lemma_prefix_byte(buf, word, 2);
            lemma_prefix_byte(buf, word, 4);
        },
        ReplyKind::Buried => {
            reveal_strlit("BURIED");
            lemma_ascii_bytes("BURIED");
            lemma_prefix_byte(buf, word, 0);
            lemma_prefix_byte(buf, word, 1);
            lemma_prefix_byte(buf, word, 2);
            lemma_prefix_byte(buf, word, 4);
        },
        ReplyKind::Touched => {
            reveal_strlit("TOUCHED");
            lemma_ascii_bytes("TOUCHED");
            lemma_prefix_byte(buf, word, 0);
            lemma_prefix_byte(buf, word, 1);
            lemma_prefix_byte(buf, word, 2);
            lemma_prefix_byte(buf, word, 4);
        },
        ReplyKind::Watching => {
            reveal_strlit("WATCHING");
            lemma_ascii_bytes("WATCHING");
            lemma_prefix_byte(buf, word, 0);
            lemma_prefix_byte(buf, word, 1);
            lemma_prefix_byte(buf, word, 2);
            lemma_prefix_byte(buf, word, 4);
        },
        ReplyKind::NotIgnored => {
            reveal_strlit("NOT_IGNORED");
            lemma_ascii_bytes("NOT_IGNORED");
            lemma_prefix_byte(buf, word, 0);
            lemma_prefix_byte(buf, word, 1);
            lemma_prefix_byte(buf, word, 2);
            lemma_prefix_byte(buf, word, 4);
        },
        ReplyKind::Found => {
            reveal_strlit("FOUND");
            lemma_ascii_bytes("FOUND");
            lemma_prefix_byte(buf, word, 0);
            lemma_prefix_byte(buf, word, 1);
            lemma_prefix_byte(buf, word, 2);
            lemma_prefix_byte(buf, word, 4);
        },
        ReplyKind::Kicked => {
            reveal_strlit("KICKED");
            lemma_ascii_bytes("KICKED");
            lemma_prefix_byte(buf, word, 0);
            lemma_prefix_byte(buf, word, 1);
            lemma_prefix_byte(buf, word, 2);
            lemma_prefix_byte(buf, word, 4);
        },
        ReplyKind::Okay => {
            reveal_strlit("OK");
            lemma_ascii_bytes("OK");
            lemma_prefix_byte(buf, word, 0);
            lemma_prefix_byte(buf, word, 1);
        },
        ReplyKind::Paused => {
            reveal_strlit("PAUSED");
            lemma_ascii_bytes("PAUSED");
            lemma_prefix_byte(buf, word, 0);
            lemma_prefix_byte(buf, word, 1);
            lemma_prefix_byte(buf, word, 2);
            lemma_prefix_byte(buf, word, 4);
        },
    }
}

/// No input begins with the keywords of two kinds.
pub proof fn lemma_committed_unique(buf: Seq<u8>, one: ReplyKind, other: ReplyKind)
    requires
        committed(one, buf),
        committed(other, buf),
    ensures
        one == other,
{
    lemma_committed_kind(one, buf);
    lemma_committed_kind(other, buf);
}

/// An input that does not begin with the keyword of `kind` fails its
/// recognizer at the keyword.
pub proof fn lemma_uncommitted_fails(kind: ReplyKind, buf: Seq<u8>)
    requires
        !committed(kind, buf),
    ensures
        recognize(kind, buf) == Err::<(MsgView, nat), ErrorKind>(
            literal_failure(buf, keyword(kind)),
        ),
{
    reveal(recognize);
}

/// A reply needs its keyword.
pub proof fn lemma_reply_is_committed(kind: ReplyKind, buf: Seq<u8>)
    requires
        recognize(kind, buf) is Ok || is_malformed(recognize(kind, buf)->Err_0),
    ensures
        committed(kind, buf),
{
    reveal(recognize);
}

/// A prefix of a prefix is a prefix.
pub proof fn lemma_prefix_chain(a: Seq<u8>, b: Seq<u8>, c: Seq<u8>)
    requires
        a.is_prefix_of(b),
        b.is_prefix_of(c),
    ensures
        a.is_prefix_of(c),
{
    assert(a =~= c.subrange(0, a.len() as int)) by {
        assert forall|j: int| 0 <= j < a.len() implies a[j] == c[j] by {
            lemma_prefix_byte(b, a, j);
            lemma_prefix_byte(c, b, j);
        }
    }
}

/// Every keyword has at least two bytes.
pub proof fn lemma_keyword_len(kind: ReplyKind)
    ensures
        keyword(kind).len() >= 2,
{
    lemma_keyword_bytes();
}

/// No keyword is the start of another.
pub proof fn lemma_keywords_prefix_free(one: ReplyKind, other: ReplyKind)
    requires
        keyword(one).is_prefix_of(keyword(other)),
    ensures
        one == other,
{
    let second = keyword(other);
    lemma_keyword_len(other);
    assert(second.is_prefix_of(second)) by {
        assert(second =~= second.subrange(0, second.len() as int));
    }
    lemma_committed_unique(second, one, other);
}

/// On an input that begins with the keyword of one kind, the input is
/// neither the start of another keyword nor does it begin with one.
proof fn lemma_other_keyword_mismatch(buf: Seq<u8>, one: ReplyKind, other: ReplyKind)
    requires
        committed(one, buf),
        one != other,
    ensures
        !committed(other, buf),
        literal_failure(buf, keyword(other)) == ErrorKind::NotMatched,
{
    if committed(other, buf) {
        lemma_committed_unique(buf, one, other);
    }
    if buf.is_prefix_of(keyword(other)) {
        lemma_prefix_chain(keyword(one), buf, keyword(other));
        lemma_keywords_prefix_free(one, other);
    }
}

/// On an input that begins with the keyword of one kind, the recognizer of
/// every other kind reports a mismatch.
pub proof fn lemma_others_mismatch(buf: Seq<u8>, one: ReplyKind, other: ReplyKind)
    requires
        committed(one, buf),
        one != other,
    ensures
        recognize(other, buf) == Err::<(MsgView, nat), ErrorKind>(ErrorKind::NotMatched),
{
    lemma_other_keyword_mismatch(buf, one, other);
    lemma_uncommitted_fails(other, buf);
}

/// At most one recognizer accepts an input.
pub proof fn lemma_at_most_one_reply(buf: Seq<u8>, one: ReplyKind, other: ReplyKind)
    requires
        recognize(one, buf) is Ok,
        recognize(other, buf) is Ok,
    ensures
        one == other,
{
    lemma_reply_is_committed(one, buf);
    if one != other {
        lemma_others_mismatch(buf, one, other);
    }
}

/// A kind stands in an order exactly if it is the first or stands in the
/// rest.
proof fn lemma_contains_split(order: Seq<ReplyKind>, kind: ReplyKind)
    requires
        order.len() > 0,
    ensures
        order.contains(kind) <==> (order[0] == kind || order.skip(1).contains(kind)),
{
    let rest = order.skip(1);
    if order.contains(kind) {
        let i = choose|i: int| 0 <= i < order.len() && order[i] == kind;
        if i > 0 {
            assert(rest[i - 1] == kind);
        }
    }
    if rest.contains(kind) {
        let i = choose|i: int| 0 <= i < rest.len() && rest[i] == kind;
        assert(order[i + 1] == kind);
    }
}

/// On an input that begins with the keyword of `kind`, ordered alternation
/// returns what the recognizer of `kind` returns, wherever `kind` stands in
/// the order, and a mismatch where it does not stand in it.
pub proof fn lemma_alternation_committed(order: Seq<ReplyKind>, buf: Seq<u8>, kind: ReplyKind)
    requires
        committed(kind, buf),
    ensures
        alternation(order, buf) == if order.contains(kind) {
            recognize(kind, buf)
        } else {
            Err::<(MsgView, nat), ErrorKind>(ErrorKind::NotMatched)
        },
    decreases order.len(),
{
    if order.len() > 0 {
        let rest = order.skip(1);
        lemma_contains_split(order, kind);
        lemma_alternation_committed(rest, buf, kind);
        lemma_recognize_bounds(kind, buf);
        if order[0] != kind {
            lemma_others_mismatch(buf, kind, order[0]);
        }
    }
}

/// One of the kinds in `order` has a keyword of which the input is a
/// proper start, or the input is empty and `order` is not.
pub open spec fn any_exhausted(order: Seq<ReplyKind>, buf: Seq<u8>) -> bool {
    exists|kind: ReplyKind|
        order.contains(kind) && literal_failure(buf, #[trigger] keyword(kind)) == ErrorKind::EOF
}

/// On an input that begins with no keyword of `order`, ordered alternation
/// reports exhaustion if the input may still grow into one of them, and a
/// mismatch if not.
pub proof fn lemma_alternation_uncommitted(order: Seq<ReplyKind>, buf: Seq<u8>)
    requires
        forall|kind: ReplyKind| order.contains(kind) ==> !committed(kind, buf),
    ensures
        alternation(order, buf) == Err::<(MsgView, nat), ErrorKind>(
            if any_exhausted(order, buf) {
                ErrorKind::EOF
            } else {
                ErrorKind::NotMatched
            },
        ),
    decreases order.len(),
{
    if order.len() == 0 {
        assert(!any_exhausted(order, buf));
    } else {
        let rest = order.skip(1);
        let first = order[0];
        assert(order.contains(first));
        assert forall|kind: ReplyKind| rest.contains(kind) implies !committed(kind, buf) by {
            lemma_contains_split(order, kind);
        }
        lemma_alternation_uncommitted(rest, buf);
        lemma_uncommitted_fails(first, buf);
        if any_exhausted(rest, buf) {
            let kind = choose|kind: ReplyKind|
                rest.contains(kind) && literal_failure(buf, #[trigger] keyword(kind))
                    == ErrorKind::EOF;
            lemma_contains_split(order, kind);
            assert(any_exhausted(order, buf));
        }
        if any_exhausted(order, buf) {
            let kind = choose|kind: ReplyKind|
                order.contains(kind) && literal_failure(buf, #[trigger] keyword(kind))
                    == ErrorKind::EOF;
            lemma_contains_split(order, kind);
            if kind != first {
                assert(any_exhausted(rest, buf));
            }
        }
    }
}

/// The order of the recognizers does not matter: two orders that hold the
/// same kinds give the same outcome on every input.
pub proof fn lemma_order_is_irrelevant(first: Seq<ReplyKind>, second: Seq<ReplyKind>, buf: Seq<u8>)
    requires
        forall|kind: ReplyKind| first.contains(kind) <==> second.contains(kind),
    ensures
        alternation(first, buf) == alternation(second, buf),
{
    if exists|kind: ReplyKind| committed(kind, buf) {
        let kind = choose|kind: ReplyKind| committed(kind, buf);
        lemma_alternation_committed(first, buf, kind);
        lemma_alternation_committed(second, buf, kind);
    } else {
        lemma_alternation_uncommitted(first, buf);
        lemma_alternation_uncommitted(second, buf);
        if any_exhausted(first, buf) {
            let kind = choose|kind: ReplyKind|
                first.contains(kind) && literal_failure(buf, #[trigger] keyword(kind))
                    == ErrorKind::EOF;
            assert(second.contains(kind));
        }
        if any_exhausted(second, buf) {
            let kind = choose|kind: ReplyKind|
                second.contains(kind) && literal_failure(buf, #[trigger] keyword(kind))
                    == ErrorKind::EOF;
            assert(first.contains(kind));
        }
    }
}

/// The decoder tries the recognizer of every kind.
pub proof fn lemma_reply_order_complete(kind: ReplyKind)
    ensures
        reply_order().contains(kind),
{
    let order = reply_order();
    let i: int = match kind {
        ReplyKind::Inserted => 0,
        ReplyKind::Using => 1,
        ReplyKind::Reserved => 2,
        ReplyKind::OutOfMemory => 3,
        ReplyKind::InternalError => 4,
        ReplyKind::BadFormat => 5,
        ReplyKind::UnknownCommand => 6,
        ReplyKind::ExpectedCrlf => 7,
        ReplyKind::JobTooBig => 8,
        ReplyKind::Draining => 9,
        ReplyKind::DeadlineSoon => 10,
        ReplyKind::TimedOut => 11,
        ReplyKind::NotFound => 12,
        ReplyKind::Deleted => 13,
        ReplyKind::Released => 14,
        ReplyKind::Buried => 15,
        ReplyKind::Touched => 16,
        ReplyKind::Watching => 17,
        ReplyKind::NotIgnored => 18,
        ReplyKind::Found => 19,
        ReplyKind::Kicked => 20,
        ReplyKind::Okay => 21,
        ReplyKind::Paused => 22,
    };
    assert(order[i] == kind);
}

/// An input that begins with a reply keyword is decoded by that keyword's
/// recognizer alone.
pub proof fn lemma_decode_by_keyword(kind: ReplyKind, buf: Seq<u8>)
    requires
        committed(kind, buf),
    ensures
        decode_spec(buf) == recognize(kind, buf),
{
    reveal(decode_spec);
    lemma_reply_order_complete(kind);
    lemma_alternation_committed(reply_order(), buf, kind);
}

/// The decoder returns the same for every order in which the recognizers
/// of all kinds may be tried.
pub proof fn lemma_decode_any_order(order: Seq<ReplyKind>, buf: Seq<u8>)
    requires
        forall|kind: ReplyKind| order.contains(kind),
    ensures
        alternation(order, buf) == decode_spec(buf),
{
    reveal(decode_spec);
    assert forall|kind: ReplyKind| order.contains(kind) <==> reply_order().contains(kind) by {
        lemma_reply_order_complete(kind);
    }
    lemma_order_is_irrelevant(order, reply_order(), buf);
}

} // verus!
