//! Decoder for the restricted YAML of statistics payloads: a `---` line,
//! then either ` - value` lines or `key: value` lines.

use vstd::prelude::*;
use vstd::hash_map::StringHashMap;
use vstd::string::StringSliceAdditionalSpecFns;
use vstd::utf8::{decode_utf8, encode_utf8_decode_utf8};
use crate::parser::{
    byte_failure, chars, is_alphanumeric, lemma_run_len_bounds, lemma_scalar_len,
    lemma_skip_skip, lf, literal_failure, scalar, scalar_failure, scalar_len, scalar_ok,
    scalar_value, starts_with, string, word_len,
};
use crate::types::{reads, ErrorKind, Scalar, ScalarValue, R};

verus! {

/// The entries of a list document, in the order of their lines.
pub type YAMLList<'a> = Vec<&'a str>;

/// The entries of a map document, by key.
pub type YAMLMap<'a> = StringHashMap<Scalar<'a>>;

/// The line that opens a document: three hyphens and a line feed.
pub open spec fn header(buf: Seq<u8>) -> Result<((), nat), ErrorKind> {
    let mark = "---".spec_bytes();
    let a = buf.skip(mark.len() as int);
    if !starts_with(buf, mark) {
        Err(literal_failure(buf, mark))
    } else if !(a.len() > 0 && a[0] == 10) {
        Err(byte_failure(a))
    } else {
        Ok(((), mark.len() + 1))
    }
}

/// What follows the opening line of a document.
pub open spec fn body_of(buf: Seq<u8>) -> Seq<u8> {
    buf.skip("---".spec_bytes().len() as int + 1)
}

/// Matches the line that opens a document.
pub fn start<'a>(i: &'a [u8]) -> (r: R<'a, ()>)
    ensures
        reads(r, i@, header(i@)),
{
    let (a, _) = chars(i, "---")?;
    match lf(a) {
        Ok((rest, _)) => {
            proof {
                lemma_skip_skip(i@, "---".spec_bytes().len() as int, 1);
            }
            Ok((rest, ()))
        },
        Err((_, kind)) => Err((i, kind)),
    }
}

/// Matches the mark that opens a list entry: a space, a hyphen, a space.
pub fn list_entry<'a>(i: &'a [u8]) -> (r: R<'a, ()>)
    ensures
        r is Ok <==> starts_with(i@, " - ".spec_bytes()),
        r matches Ok((rest, _)) ==> rest@ == i@.skip(" - ".spec_bytes().len() as int),
        r matches Err((rest, kind)) ==> rest@ == i@ && kind == literal_failure(
            i@,
            " - ".spec_bytes(),
        ),
{
    let (buf, _) = chars(i, " - ")?;
    Ok((buf, ()))
}

/// One line of a list: the mark, a text of letters and digits, a line feed.
pub open spec fn list_item(buf: Seq<u8>) -> Result<(Seq<char>, nat), ErrorKind> {
    let mark = " - ".spec_bytes();
    let a = buf.skip(mark.len() as int);
    let b = a.skip(word_len(a) as int);
    if !starts_with(buf, mark) {
        Err(literal_failure(buf, mark))
    } else if word_len(a) == 0 {
        Err(byte_failure(a))
    } else if !(b.len() > 0 && b[0] == 10) {
        Err(byte_failure(b))
    } else {
        Ok((decode_utf8(a.take(word_len(a) as int)), mark.len() + word_len(a) + 1))
    }
}

/// The texts of the list lines at the start of `buf`, in order, up to the
/// first position that holds no such line.
pub open spec fn list_items(buf: Seq<u8>) -> Seq<Seq<char>>
    decreases buf.len(),
{
    match list_item(buf) {
        Ok((text, used)) => if 0 < used <= buf.len() {
            seq![text] + list_items(buf.skip(used as int))
        } else {
            Seq::empty()
        },
        Err(_) => Seq::empty(),
    }
}

/// The number of bytes that those lines take.
pub open spec fn list_items_len(buf: Seq<u8>) -> nat
    decreases buf.len(),
{
    match list_item(buf) {
        Ok((_, used)) => if 0 < used <= buf.len() {
            used + list_items_len(buf.skip(used as int))
        } else {
            0
        },
        Err(_) => 0,
    }
}

/// The characters of each text of `list`, in order.
pub open spec fn texts_of(list: Seq<&str>) -> Seq<Seq<char>> {
    list.map_values(|s: &str| s@)
}

/// Matches one line of a list and returns its text.
fn list_line<'a>(buf: &'a [u8]) -> (r: R<'a, &'a str>)
    ensures
        r matches Ok((rest, text)) ==> list_item(buf@) matches Ok((value, used)) && text@ == value
            && 0 < used <= buf@.len() && rest@ == buf@.skip(used as int),
        r matches Err((rest, kind)) ==> list_item(buf@) == Err::<(Seq<char>, nat), ErrorKind>(kind)
            && rest@ == buf@,
{
    let (a, _) = list_entry(buf)?;
    let (b, text) = match string(a) {
        Ok(found) => found,
        Err((_, kind)) => {
            return Err((buf, kind));
        },
    };
    match lf(b) {
        Ok((rest, _)) => {
            proof {
                let k = " - ".spec_bytes().len() as int;
                lemma_run_len_bounds(a@, |x: u8| is_alphanumeric(x));
                lemma_skip_skip(buf@, k, word_len(a@) as int);
                lemma_skip_skip(buf@, k + word_len(a@), 1);
                encode_utf8_decode_utf8(text@);
            }
            Ok((rest, text))
        },
        Err((_, kind)) => Err((buf, kind)),
    }
}

/// The result `r` is what decoding `buf` as a list document gives. It is a
/// list exactly if the opening line is there and list lines fill the input
/// to its end; the list then holds the texts of the lines in their order,
/// and nothing of the input is left. Else the error is that of the opening
/// line with the whole input, or that of the first line that is no list
/// line with the input from that line on.
pub open spec fn list_document<'a>(r: R<'a, YAMLList<'a>>, buf: Seq<u8>) -> bool {
    &&& r is Ok <==> header(buf) is Ok && list_items_len(body_of(buf)) == body_of(buf).len()
    &&& r matches Ok((rest, list)) ==> rest@.len() == 0 && texts_of(list@) == list_items(
        body_of(buf),
    )
    &&& r matches Err((rest, kind)) ==> match header(buf) {
        Err(reason) => rest@ == buf && kind == reason,
        Ok(_) => rest@ == body_of(buf).skip(list_items_len(body_of(buf)) as int) && list_item(
            rest@,
        ) == Err::<(Seq<char>, nat), ErrorKind>(kind),
    }
}

/// Decodes a list document: the opening line, then one list line after
/// another to the end of the input. The texts come in the order of their
/// lines. Where a line cannot be decoded, the input from that line on comes
/// back with the reason.
pub fn yaml_list<'a>(buf: &'a [u8]) -> (r: R<'a, YAMLList<'a>>)
    ensures
        list_document(r, buf@),
{
    let (body, _) = start(buf)?;
    let mut cur = body;
    let mut list: Vec<&'a str> = Vec::new();
    let ghost mut done: nat = 0;
    proof {
        assert(body@.skip(0) =~= body@);
        assert(texts_of(list@) =~= Seq::<Seq<char>>::empty());
        assert(texts_of(list@) + list_items(body@) =~= list_items(body@));
    }
    while cur.len() > 0
        invariant
            header(buf@) is Ok,
            body@ == body_of(buf@),
            done <= body@.len(),
            cur@ == body@.skip(done as int),
            list_items(body@) == texts_of(list@) + list_items(cur@),
            list_items_len(body@) == done + list_items_len(cur@),
        decreases cur@.len(),
    {
        match list_line(cur) {
            Ok((rest, text)) => {
                let ghost used = (cur@.len() - rest@.len()) as nat;
                proof {
                    lemma_skip_skip(body@, done as int, used as int);
                    assert(texts_of(list@.push(text)) =~= texts_of(list@).push(text@));
                    assert(texts_of(list@).push(text@) + list_items(rest@) =~= texts_of(list@) + (
                    seq![text@] + list_items(rest@)));
                    done = done + used;
                }
                list.push(text);
                cur = rest;
            },
            Err((_, kind)) => {
                return Err((cur, kind));
            },
        }
    }
    proof {
        assert(texts_of(list@) + Seq::<Seq<char>>::empty() =~= texts_of(list@));
    }
    Ok((cur, list))
}

/// One entry of a map without its line end: a key of letters and digits, a
/// colon and a space, a scalar.
pub open spec fn map_pair(buf: Seq<u8>) -> Result<((Seq<char>, ScalarValue), nat), ErrorKind> {
    let sep = ": ".spec_bytes();
    let a = buf.skip(word_len(buf) as int);
    let b = a.skip(sep.len() as int);
    if word_len(buf) == 0 {
        Err(byte_failure(buf))
    } else if !starts_with(a, sep) {
        Err(literal_failure(a, sep))
    } else if !scalar_ok(b) {
        Err(scalar_failure(b))
    } else {
        Ok(
            (
                (decode_utf8(buf.take(word_len(buf) as int)), scalar_value(b)),
                word_len(buf) + sep.len() + scalar_len(b),
            ),
        )
    }
}

/// One line of a map: an entry and a line feed.
pub open spec fn map_item(buf: Seq<u8>) -> Result<((Seq<char>, ScalarValue), nat), ErrorKind> {
    match map_pair(buf) {
        Ok((pair, used)) => {
            let rest = buf.skip(used as int);
            if rest.len() > 0 && rest[0] == 10 {
                Ok((pair, used + 1))
            } else {
                Err(byte_failure(rest))
            }
        },
        Err(reason) => Err(reason),
    }
}

/// The map that the lines at the start of `buf` add to `acc`, up to the
/// first position that holds no such line. A key that comes again takes
/// the later value.
pub open spec fn map_items_onto(acc: Map<Seq<char>, ScalarValue>, buf: Seq<u8>) -> Map<
    Seq<char>,
    ScalarValue,
>
    decreases buf.len(),
{
    match map_item(buf) {
        Ok((pair, used)) => if 0 < used <= buf.len() {
            map_items_onto(acc.insert(pair.0, pair.1), buf.skip(used as int))
        } else {
            acc
        },
        Err(_) => acc,
    }
}

/// The map of the lines at the start of `buf`.
pub open spec fn map_items(buf: Seq<u8>) -> Map<Seq<char>, ScalarValue> {
    map_items_onto(Map::empty(), buf)
}

/// The number of bytes that those lines take.
pub open spec fn map_items_len(buf: Seq<u8>) -> nat
    decreases buf.len(),
{
    match map_item(buf) {
        Ok((_, used)) => if 0 < used <= buf.len() {
            used + map_items_len(buf.skip(used as int))
        } else {
            0
        },
        Err(_) => 0,
    }
}

/// What each value of `map` stands for, by key.
pub open spec fn values_of(map: Map<Seq<char>, Scalar>) -> Map<Seq<char>, ScalarValue> {
    map.map_values(|s: Scalar| s@)
}

/// Matches one entry of a map: the key, a colon and a space, the value.
pub fn map_entry<'a>(i: &'a [u8]) -> (r: R<'a, (&'a str, Scalar<'a>)>)
    ensures
        r matches Ok((rest, pair)) ==> map_pair(i@) matches Ok((value, used)) && pair.0@ == value.0
            && pair.1@ == value.1 && 0 < used <= i@.len() && rest@ == i@.skip(used as int),
        r matches Err((rest, kind)) ==> map_pair(i@) == Err::<
            ((Seq<char>, ScalarValue), nat),
            ErrorKind,
        >(kind) && rest@ == i@,
{
    let (a, key) = string(i)?;
    let (b, _) = match chars(a, ": ") {
        Ok(found) => found,
        Err((_, kind)) => {
            return Err((i, kind));
        },
    };
    match scalar(b) {
        Ok((rest, value)) => {
            proof {
                let k = ": ".spec_bytes().len() as int;
                lemma_run_len_bounds(i@, |x: u8| is_alphanumeric(x));
                lemma_scalar_len(b@);
                lemma_skip_skip(i@, word_len(i@) as int, k);
                lemma_skip_skip(i@, word_len(i@) + k, scalar_len(b@) as int);
                encode_utf8_decode_utf8(key@);
            }
            Ok((rest, (key, value)))
        },
        Err((_, kind)) => Err((i, kind)),
    }
}

/// Matches one line of a map.
fn map_line<'a>(buf: &'a [u8]) -> (r: R<'a, (&'a str, Scalar<'a>)>)
    ensures
        r matches Ok((rest, pair)) ==> map_item(buf@) matches Ok((value, used)) && pair.0@
            == value.0 && pair.1@ == value.1 && 0 < used <= buf@.len() && rest@ == buf@.skip(
            used as int,
        ),
        r matches Err((rest, kind)) ==> map_item(buf@) == Err::<
            ((Seq<char>, ScalarValue), nat),
            ErrorKind,
        >(kind) && rest@ == buf@,
{
    let (a, pair) = map_entry(buf)?;
    match lf(a) {
        Ok((rest, _)) => {
            proof {
                lemma_skip_skip(buf@, buf@.len() - a@.len(), 1);
            }
            Ok((rest, pair))
        },
        Err((_, kind)) => Err((buf, kind)),
    }
}

/// The result `r` is what decoding `buf` as a map document gives. It is a
/// map exactly if the opening line is there and map lines fill the input to
/// its end; the map then holds each key with the value of its last line,
/// and nothing of the input is left. Else the error is that of the opening
/// line with the whole input, or that of the first line that is no map line
/// with the input from that line on.
pub open spec fn map_document<'a>(r: R<'a, YAMLMap<'a>>, buf: Seq<u8>) -> bool {
    &&& r is Ok <==> header(buf) is Ok && map_items_len(body_of(buf)) == body_of(buf).len()
    &&& r matches Ok((rest, map)) ==> rest@.len() == 0 && values_of(map@) == map_items(
        body_of(buf),
    )
    &&& r matches Err((rest, kind)) ==> match header(buf) {
        Err(reason) => rest@ == buf && kind == reason,
        Ok(_) => rest@ == body_of(buf).skip(map_items_len(body_of(buf)) as int) && map_item(
            rest@,
        ) == Err::<((Seq<char>, ScalarValue), nat), ErrorKind>(kind),
    }
}

/// Decodes a map document: the opening line, then one map line after
/// another to the end of the input. A key that comes again takes the later
/// value. Where a line cannot be decoded, the input from that line on comes
/// back with the reason.
pub fn yaml_map<'a>(buf: &'a [u8]) -> (r: R<'a, YAMLMap<'a>>)
    ensures
        map_document(r, buf@),
{
    let (body, _) = start(buf)?;
    let mut cur = body;
    let mut map: StringHashMap<Scalar<'a>> = StringHashMap::new();
    let ghost mut done: nat = 0;
    proof {
        assert(body@.skip(0) =~= body@);
        assert(values_of(map@) =~= Map::<Seq<char>, ScalarValue>::empty());
    }
    while cur.len() > 0
        invariant
            header(buf@) is Ok,
            body@ == body_of(buf@),
            done <= body@.len(),
            cur@ == body@.skip(done as int),
            map_items(body@) == map_items_onto(values_of(map@), cur@),
            map_items_len(body@) == done + map_items_len(cur@),
        decreases cur@.len(),
    {
        match map_line(cur) {
            Ok((rest, pair)) => {
                let ghost used = (cur@.len() - rest@.len()) as nat;
                proof {
                    lemma_skip_skip(body@, done as int, used as int);
                    assert(values_of(map@.insert(pair.0@, pair.1)) =~= values_of(map@).insert(
                        pair.0@,
                        pair.1@,
                    ));
                    done = done + used;
                }
                map.insert(pair.0.to_owned(), pair.1);
                cur = rest;
            },
            Err((_, kind)) => {
                return Err((cur, kind));
            },
        }
    }
    Ok((cur, map))
}

/// A document in the form that its first entry showed.
pub enum YAMLDocument<'a> {
    List(YAMLList<'a>),
    Mapping(YAMLMap<'a>),
}

/// The document is in list form: after the opening line comes the mark of
/// a list entry. Every other document, one without entries among them, is
/// taken as a map.
pub open spec fn is_list_form(buf: Seq<u8>) -> bool {
    header(buf) is Ok && starts_with(body_of(buf), " - ".spec_bytes())
}

/// Decodes a document in the form that its first entry shows: as a list
/// where the entry opens with the list mark, as a map otherwise. The two
/// forms are not mixed: a line of the other form is an error.
pub fn yaml_document<'a>(buf: &'a [u8]) -> (r: R<'a, YAMLDocument<'a>>)
    ensures
        match r {
            Ok((rest, YAMLDocument::List(list))) => is_list_form(buf@) && list_document(
                Ok((rest, list)),
                buf@,
            ),
            Ok((rest, YAMLDocument::Mapping(map))) => !is_list_form(buf@) && map_document(
                Ok((rest, map)),
                buf@,
            ),
            Err(e) => if is_list_form(buf@) {
                list_document(Err(e), buf@)
            } else {
                map_document(Err(e), buf@)
            },
        },
{
    let (body, _) = start(buf)?;
    if list_entry(body).is_ok() {
        match yaml_list(buf) {
            Ok((rest, list)) => Ok((rest, YAMLDocument::List(list))),
            Err(e) => Err(e),
        }
    } else {
        match yaml_map(buf) {
            Ok((rest, map)) => Ok((rest, YAMLDocument::Mapping(map))),
            Err(e) => Err(e),
        }
    }
}

} // verus!
