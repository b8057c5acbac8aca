//! The first line of a reply, read as the answer to one command. The line
//! comes without its line end.

use vstd::prelude::*;
use vstd::slice::slice_subrange;
use vstd::string::StringSliceAdditionalSpecFns;
use vstd::utf8::encode_utf8;
use crate::integer::{parse_spec, parse_unsigned, IntError};
use crate::parser::{
    is_ascii_whitespace, is_whitespace, lemma_run_len_bounds, lemma_run_len_is, run_len,
    starts_with, take_until, take_while,
};

verus! {

/// The id of a job.
pub type Id = u32;

/// A line that is no answer to the command, with the line itself or the
/// sentence that says what is wrong with it.
#[derive(Debug)]
pub enum Error {
    Bs(String),
}

/// The result `r` is what `want` says: the same answer, or an error with
/// the same text.
pub open spec fn answers<T>(r: Result<T, Error>, want: Result<T, Seq<char>>) -> bool {
    match (r, want) {
        (Ok(got), Ok(value)) => got == value,
        (Err(Error::Bs(got)), Err(text)) => got@ == text,
        _ => false,
    }
}

/// The number up to `max` that `text` writes, or the sentence that says why
/// it writes none.
pub open spec fn number_or_text(text: Seq<u8>, max: nat) -> Result<nat, Seq<char>> {
    match parse_spec(text, max) {
        Ok(n) => Ok(n),
        Err(reason) => Err(reason.describe()),
    }
}

/// Reads the whole of `text` as a number up to `max`.
fn number(text: &[u8], max: u64) -> (r: Result<u64, Error>)
    ensures
        match (r, number_or_text(text@, max as nat)) {
            (Ok(got), Ok(value)) => got == value,
            (Err(Error::Bs(got)), Err(text)) => got@ == text,
            _ => false,
        },
{
    match parse_unsigned(text, max) {
        Ok(n) => Ok(n),
        Err(reason) => Err(Error::Bs(reason.message())),
    }
}

/// The error that hands an unexpected line back.
fn unexpected(line: &str) -> (e: Error)
    ensures
        e matches Error::Bs(text) && text@ == line@,
{
    Error::Bs(line.to_owned())
}

/// Tells whether the line is exactly `word`.
fn is_line(line: &[u8], word: &str) -> (r: bool)
    ensures
        r == (line@ == word.spec_bytes()),
{
    let lit = word.as_bytes();
    if line.len() != lit.len() {
        return false;
    }
    let mut i: usize = 0;
    while i < line.len()
        invariant
            i <= line@.len(),
            line@.len() == lit@.len(),
            lit@ == word.spec_bytes(),
            forall|j: int| 0 <= j < i ==> line@[j] == lit@[j],
        decreases line@.len() - i,
    {
        if line[i] != lit[i] {
            return false;
        }
        i += 1;
    }
    assert(line@ =~= lit@);
    true
}

/// What follows `word` at the start of the line, if the line starts with
/// it.
fn after_prefix<'a>(line: &'a [u8], word: &str) -> (r: Option<&'a [u8]>)
    ensures
        r is Some <==> word.spec_bytes().is_prefix_of(line@),
        r matches Some(rest) ==> rest@ == line@.skip(word.spec_bytes().len() as int),
{
    let lit = word.as_bytes();
    if line.len() < lit.len() {
        return None;
    }
    let mut i: usize = 0;
    while i < lit.len()
        invariant
            i <= lit@.len(),
            lit@.len() <= line@.len(),
            lit@ == word.spec_bytes(),
            forall|j: int| 0 <= j < i ==> line@[j] == lit@[j],
        decreases lit@.len() - i,
    {
        if line[i] != lit[i] {
            assert(!lit@.is_prefix_of(line@)) by {
                if lit@.is_prefix_of(line@) {
                    assert(line@.subrange(0, lit@.len() as int)[i as int] == lit@[i as int]);
                }
            }
            return None;
        }
        i += 1;
    }
    assert(lit@ =~= line@.subrange(0, lit@.len() as int));
    Some(slice_subrange(line, lit.len(), line.len()))
}

/// Length of the white space at the start of `text`.
pub open spec fn blank_len(text: Seq<u8>) -> nat {
    run_len(text, |b: u8| is_whitespace(b))
}

/// Length of the bytes up to the first white space of `text`.
pub open spec fn token_len(text: Seq<u8>) -> nat {
    run_len(text, |b: u8| !is_whitespace(b))
}

/// The first word of `text`: the bytes between the white space at its start
/// and the next white space. It is empty where `text` holds no word.
pub open spec fn first_token(text: Seq<u8>) -> Seq<u8> {
    let from = text.skip(blank_len(text) as int);
    from.take(token_len(from) as int)
}

/// What follows the first word of `text`.
pub open spec fn after_token(text: Seq<u8>) -> Seq<u8> {
    let from = text.skip(blank_len(text) as int);
    from.skip(token_len(from) as int)
}

/// Splits `text` into its first word and what follows it.
fn next_token<'a>(text: &'a [u8]) -> (r: (&'a [u8], &'a [u8]))
    ensures
        r.0@ == first_token(text@),
        r.1@ == after_token(text@),
{
    let ghost blank = |b: u8| is_whitespace(b);
    let ghost solid = |b: u8| !is_whitespace(b);
    let from = match take_while(text, is_ascii_whitespace) {
        Ok((rest, gap)) => {
            proof {
                lemma_run_len_is(text@, blank, gap@.len() as int);
            }
            rest
        },
        Err(_) => {
            proof {
                lemma_run_len_is(text@, blank, 0);
                assert(text@.skip(0) =~= text@);
            }
            text
        },
    };
    match take_until(from, is_ascii_whitespace) {
        Ok((rest, token)) => {
            proof {
                lemma_run_len_is(from@, solid, token@.len() as int);
            }
            (token, rest)
        },
        Err(_) => {
            proof {
                lemma_run_len_is(from@, solid, 0);
                assert(from@.skip(0) =~= from@);
                assert(from@.take(0) =~= Seq::<u8>::empty());
            }
            (slice_subrange(from, 0, 0), from)
        },
    }
}

/// The id and the byte count that a line announces after `word`: the first
/// two words after it, as numbers. What follows them is not read.
pub open spec fn job_head(
    line: Seq<char>,
    word: Seq<u8>,
    no_id: Seq<char>,
    no_bytes: Seq<char>,
) -> Result<(Id, u64), Seq<char>> {
    let bytes = encode_utf8(line);
    let args = bytes.skip(word.len() as int);
    let id = first_token(args);
    let count = first_token(after_token(args));
    if !word.is_prefix_of(bytes) {
        Err(line)
    } else if id.len() == 0 {
        Err(no_id)
    } else {
        match number_or_text(id, 0xffff_ffff) {
            Err(text) => Err(text),
            Ok(n) => if count.len() == 0 {
                Err(no_bytes)
            } else {
                match number_or_text(count, 0xffff_ffff_ffff_ffff) {
                    Err(text) => Err(text),
                    Ok(m) => Ok((n as u32, m as u64)),
                }
            },
        }
    }
}

/// Reads the id and the byte count after `word`.
fn read_job(input: &str, word: &str, no_id: &str, no_bytes: &str) -> (r: Result<(Id, u64), Error>)
    ensures
        answers(r, job_head(input@, word.spec_bytes(), no_id@, no_bytes@)),
{
    let args = match after_prefix(input.as_bytes(), word) {
        Some(args) => args,
        None => {
            return Err(unexpected(input));
        },
    };
    let (id, rest) = next_token(args);
    if id.len() == 0 {
        return Err(Error::Bs(no_id.to_owned()));
    }
    let n = number(id, 0xffff_ffff)?;
    let (count, _) = next_token(rest);
    if count.len() == 0 {
        return Err(Error::Bs(no_bytes.to_owned()));
    }
    let m = number(count, 0xffff_ffff_ffff_ffff)?;
    Ok((n as u32, m))
}

/// What `read_reserved` makes of a line.
pub open spec fn reserved_head(line: Seq<char>) -> Result<(Id, u64), Seq<char>> {
    job_head(
        line,
        "RESERVED ".spec_bytes(),
        "missing 'id' in RESERVED response"@,
        "missing 'bytes' in RESERVED response"@,
    )
}

/// Reads `RESERVED <id> <bytes>`: the id of the job and the length of the
/// payload that follows the line.
pub fn read_reserved(input: &str) -> (r: Result<(Id, u64), Error>)
    ensures
        answers(r, reserved_head(input@)),
{
    read_job(
        input,
        "RESERVED ",
        "missing 'id' in RESERVED response",
        "missing 'bytes' in RESERVED response",
    )
}

/// What `read_found` makes of a line.
pub open spec fn found_head(line: Seq<char>) -> Result<(Id, u64), Seq<char>> {
    job_head(
        line,
        "FOUND ".spec_bytes(),
        "missing 'id' in FOUND response"@,
        "missing 'bytes' in FOUND response"@,
    )
}

/// Reads `FOUND <id> <bytes>`: the id of the job and the length of the
/// payload that follows the line.
pub fn read_found(input: &str) -> (r: Result<(Id, u64), Error>)
    ensures
        answers(r, found_head(input@)),
{
    read_job(
        input,
        "FOUND ",
        "missing 'id' in FOUND response",
        "missing 'bytes' in FOUND response",
    )
}

/// The number up to `max` that the line writes after `word`, the whole
/// rest of the line taken as the number.
pub open spec fn counted_head(line: Seq<char>, word: Seq<u8>, max: nat) -> Result<
    nat,
    Seq<char>,
> {
    let bytes = encode_utf8(line);
    if !word.is_prefix_of(bytes) {
        Err(line)
    } else {
        number_or_text(bytes.skip(word.len() as int), max)
    }
}

/// Reads the number after `word`.
fn read_counted(input: &str, word: &str, max: u64) -> (r: Result<u64, Error>)
    ensures
        match (r, counted_head(input@, word.spec_bytes(), max as nat)) {
            (Ok(got), Ok(value)) => got == value,
            (Err(Error::Bs(got)), Err(text)) => got@ == text,
            _ => false,
        },
{
    match after_prefix(input.as_bytes(), word) {
        Some(rest) => number(rest, max),
        None => Err(unexpected(input)),
    }
}

/// What `read_ok` makes of a line.
pub open spec fn ok_head(line: Seq<char>) -> Result<u64, Seq<char>> {
    match counted_head(line, "OK ".spec_bytes(), 0xffff_ffff_ffff_ffff) {
        Ok(n) => Ok(n as u64),
        Err(text) => Err(text),
    }
}

/// Reads `OK <bytes>`: the length of the payload that follows the line.
pub fn read_ok(input: &str) -> (r: Result<u64, Error>)
    ensures
        answers(r, ok_head(input@)),
{
    read_counted(input, "OK ", 0xffff_ffff_ffff_ffff)
}

/// The answer to `put`.
#[derive(Debug, Clone, Copy, PartialEq, Eq, Structural)]
pub enum PutResponse {
    /// The job was inserted under this id.
    Inserted(Id),
    /// The job was buried under this id: the server ran out of memory.
    Buried(Id),
    /// The payload was not followed by a line end.
    ExpectedCrlf,
    /// The payload is larger than the server accepts.
    JobTooBig,
    /// The server accepts no new jobs.
    Draining,
}

impl PutResponse {
    /// What `parse` makes of a line. After `INSERTED ` and `BURIED ` the
    /// whole rest of the line is the id; the three other keywords need only
    /// open the line.
    pub open spec fn of_line(line: Seq<char>) -> Result<PutResponse, Seq<char>> {
        let bytes = encode_utf8(line);
        if "INSERTED ".spec_bytes().is_prefix_of(bytes) {
            match counted_head(line, "INSERTED ".spec_bytes(), 0xffff_ffff) {
                Ok(id) => Ok(PutResponse::Inserted(id as u32)),
                Err(text) => Err(text),
            }
        } else if "BURIED ".spec_bytes().is_prefix_of(bytes) {
            match counted_head(line, "BURIED ".spec_bytes(), 0xffff_ffff) {
                Ok(id) => Ok(PutResponse::Buried(id as u32)),
                Err(text) => Err(text),
            }
        } else if "EXPECTED_CRLF".spec_bytes().is_prefix_of(bytes) {
            Ok(PutResponse::ExpectedCrlf)
        } else if "JOB_TOO_BIG".spec_bytes().is_prefix_of(bytes) {
            Ok(PutResponse::JobTooBig)
        } else if "DRAINING".spec_bytes().is_prefix_of(bytes) {
            Ok(PutResponse::Draining)
        } else {
            Err(line)
        }
    }

    /// Reads the answer to `put` from the line.
    pub fn parse(input: &str) -> (r: Result<PutResponse, Error>)
        ensures
            answers(r, Self::of_line(input@)),
    {
        let line = input.as_bytes();
        if after_prefix(line, "INSERTED ").is_some() {
            let id = read_counted(input, "INSERTED ", 0xffff_ffff)?;
            return Ok(PutResponse::Inserted(id as u32));
        }
        if after_prefix(line, "BURIED ").is_some() {
            let id = read_counted(input, "BURIED ", 0xffff_ffff)?;
            return Ok(PutResponse::Buried(id as u32));
        }
        if after_prefix(line, "EXPECTED_CRLF").is_some() {
            return Ok(PutResponse::ExpectedCrlf);
        }
        if after_prefix(line, "JOB_TOO_BIG").is_some() {
            return Ok(PutResponse::JobTooBig);
        }
        if after_prefix(line, "DRAINING").is_some() {
            return Ok(PutResponse::Draining);
        }
        Err(unexpected(input))
    }
}

/// The answer to `delete`.
#[derive(Debug, Clone, Copy, PartialEq, Eq, Structural)]
pub enum DeleteResponse {
    Deleted,
    NotFound,
}

impl DeleteResponse {
    /// What `parse` makes of a line: the answer where the line is one of
    /// `DELETED`, `NOT_FOUND`, else the line as the error.
    pub open spec fn of_line(line: Seq<char>) -> Result<DeleteResponse, Seq<char>> {
        let bytes = encode_utf8(line);
        if bytes == "DELETED".spec_bytes() {
            Ok(DeleteResponse::Deleted)
        } else if bytes == "NOT_FOUND".spec_bytes() {
            Ok(DeleteResponse::NotFound)
        } else {
            Err(line)
        }
    }

    /// Reads the answer from the line.
    pub fn parse(input: &str) -> (r: Result<DeleteResponse, Error>)
        ensures
            answers(r, Self::of_line(input@)),
    {
        let line = input.as_bytes();
        if is_line(line, "DELETED") {
            Ok(DeleteResponse::Deleted)
        } else if is_line(line, "NOT_FOUND") {
            Ok(DeleteResponse::NotFound)
        } else {
            Err(unexpected(input))
        }
    }
}

/// The answer to `release`.
#[derive(Debug, Clone, Copy, PartialEq, Eq, Structural)]
pub enum ReleaseResponse {
    Released,
    Buried,
    NotFound,
}

impl ReleaseResponse {
    /// What `parse` makes of a line: the answer where the line is one of
    /// `RELEASED`, `BURIED`, `NOT_FOUND`, else the line as the error.
    pub open spec fn of_line(line: Seq<char>) -> Result<ReleaseResponse, Seq<char>> {
        let bytes = encode_utf8(line);
        if bytes == "RELEASED".spec_bytes() {
            Ok(ReleaseResponse::Released)
        } else if bytes == "BURIED".spec_bytes() {
            Ok(ReleaseResponse::Buried)
        } else if bytes == "NOT_FOUND".spec_bytes() {
            Ok(ReleaseResponse::NotFound)
        } else {
            Err(line)
        }
    }

    /// Reads the answer from the line.
    pub fn parse(input: &str) -> (r: Result<ReleaseResponse, Error>)
        ensures
            answers(r, Self::of_line(input@)),
    {
        let line = input.as_bytes();
        if is_line(line, "RELEASED") {
            Ok(ReleaseResponse::Released)
        } else if is_line(line, "BURIED") {
            Ok(ReleaseResponse::Buried)
        } else if is_line(line, "NOT_FOUND") {
            Ok(ReleaseResponse::NotFound)
        } else {
            Err(unexpected(input))
        }
    }
}

/// The answer to `bury`.
#[derive(Debug, Clone, Copy, PartialEq, Eq, Structural)]
pub enum BuryResponse {
    Buried,
    NotFound,
}

impl BuryResponse {
    /// What `parse` makes of a line: the answer where the line is one of
    /// `BURIED`, `NOT_FOUND`, else the line as the error.
    pub open spec fn of_line(line: Seq<char>) -> Result<BuryResponse, Seq<char>> {
        let bytes = encode_utf8(line);
        if bytes == "BURIED".spec_bytes() {
            Ok(BuryResponse::Buried)
        } else if bytes == "NOT_FOUND".spec_bytes() {
            Ok(BuryResponse::NotFound)
        } else {
            Err(line)
        }
    }

    /// Reads the answer from the line.
    pub fn parse(input: &str) -> (r: Result<BuryResponse, Error>)
        ensures
            answers(r, Self::of_line(input@)),
    {
        let line = input.as_bytes();
        if is_line(line, "BURIED") {
            Ok(BuryResponse::Buried)
        } else if is_line(line, "NOT_FOUND") {
            Ok(BuryResponse::NotFound)
        } else {
            Err(unexpected(input))
        }
    }
}

/// The answer to `touch`.
#[derive(Debug, Clone, Copy, PartialEq, Eq, Structural)]
pub enum TouchResponse {
    Touched,
    NotFound,
}

impl TouchResponse {
    /// What `parse` makes of a line: the answer where the line is one of
    /// `TOUCHED`, `NOT_FOUND`, else the line as the error.
    pub open spec fn of_line(line: Seq<char>) -> Result<TouchResponse, Seq<char>> {
        let bytes = encode_utf8(line);
        if bytes == "TOUCHED".spec_bytes() {
            Ok(TouchResponse::Touched)
        } else if bytes == "NOT_FOUND".spec_bytes() {
            Ok(TouchResponse::NotFound)
        } else {
            Err(line)
        }
    }

    /// Reads the answer from the line.
    pub fn parse(input: &str) -> (r: Result<TouchResponse, Error>)
        ensures
            answers(r, Self::of_line(input@)),
    {
        let line = input.as_bytes();
        if is_line(line, "TOUCHED") {
            Ok(TouchResponse::Touched)
        } else if is_line(line, "NOT_FOUND") {
            Ok(TouchResponse::NotFound)
        } else {
            Err(unexpected(input))
        }
    }
}

/// The answer to `kick-job`.
#[derive(Debug, Clone, Copy, PartialEq, Eq, Structural)]
pub enum KickJobResponse {
    NotFound,
    Kicked,
}

impl KickJobResponse {
    /// What `parse` makes of a line: the answer where the line is one of
    /// `NOT_FOUND`, `KICKED`, else the line as the error.
    pub open spec fn of_line(line: Seq<char>) -> Result<KickJobResponse, Seq<char>> {
        let bytes = encode_utf8(line);
        if bytes == "NOT_FOUND".spec_bytes() {
            Ok(KickJobResponse::NotFound)
        } else if bytes == "KICKED".spec_bytes() {
            Ok(KickJobResponse::Kicked)
        } else {
            Err(line)
        }
    }

    /// Reads the answer from the line.
    pub fn parse(input: &str) -> (r: Result<KickJobResponse, Error>)
        ensures
            answers(r, Self::of_line(input@)),
    {
        let line = input.as_bytes();
        if is_line(line, "NOT_FOUND") {
            Ok(KickJobResponse::NotFound)
        } else if is_line(line, "KICKED") {
            Ok(KickJobResponse::Kicked)
        } else {
            Err(unexpected(input))
        }
    }
}

/// The answer to `pause-tube`.
#[derive(Debug, Clone, Copy, PartialEq, Eq, Structural)]
pub enum PauseTubeResponse {
    Paused,
    NotFound,
}

impl PauseTubeResponse {
    /// What `parse` makes of a line: the answer where the line is one of
    /// `PAUSED`, `NOT_FOUND`, else the line as the error.
    pub open spec fn of_line(line: Seq<char>) -> Result<PauseTubeResponse, Seq<char>> {
        let bytes = encode_utf8(line);
        if bytes == "PAUSED".spec_bytes() {
            Ok(PauseTubeResponse::Paused)
        } else if bytes == "NOT_FOUND".spec_bytes() {
            Ok(PauseTubeResponse::NotFound)
        } else {
            Err(line)
        }
    }

    /// Reads the answer from the line.
    pub fn parse(input: &str) -> (r: Result<PauseTubeResponse, Error>)
        ensures
            answers(r, Self::of_line(input@)),
    {
        let line = input.as_bytes();
        if is_line(line, "PAUSED") {
            Ok(PauseTubeResponse::Paused)
        } else if is_line(line, "NOT_FOUND") {
            Ok(PauseTubeResponse::NotFound)
        } else {
            Err(unexpected(input))
        }
    }
}

/// The answer to `ignore`.
#[derive(Debug, Clone, Copy, PartialEq, Eq, Structural)]
pub enum IgnoreResponse {
    /// The number of tubes that are still watched.
    Count(usize),
    /// The tube is the only one watched and stays so.
    NotIgnored,
}

impl IgnoreResponse {
    /// What `parse` makes of a line: `NOT_IGNORED`, or `WATCHING ` and a
    /// count that takes the rest of the line.
    pub open spec fn of_line(line: Seq<char>) -> Result<IgnoreResponse, Seq<char>> {
        if encode_utf8(line) == "NOT_IGNORED".spec_bytes() {
            Ok(IgnoreResponse::NotIgnored)
        } else {
            match counted_head(line, "WATCHING ".spec_bytes(), usize::MAX as nat) {
                Ok(n) => Ok(IgnoreResponse::Count(n as usize)),
                Err(text) => Err(text),
            }
        }
    }

    /// Reads the answer to `ignore` from the line.
    pub fn parse(input: &str) -> (r: Result<IgnoreResponse, Error>)
        ensures
            answers(r, Self::of_line(input@)),
    {
        if is_line(input.as_bytes(), "NOT_IGNORED") {
            return Ok(IgnoreResponse::NotIgnored);
        }
        let n = read_counted(input, "WATCHING ", usize::MAX as u64)?;
        Ok(IgnoreResponse::Count(n as usize))
    }
}

/// What `read_watching` makes of a line.
pub open spec fn watching_head(line: Seq<char>) -> Result<usize, Seq<char>> {
    match counted_head(line, "WATCHING ".spec_bytes(), usize::MAX as nat) {
        Ok(n) => Ok(n as usize),
        Err(text) => Err(text),
    }
}

/// Reads `WATCHING <count>`, the answer to `watch`: the number of tubes
/// watched.
pub fn read_watching(input: &str) -> (r: Result<usize, Error>)
    ensures
        answers(r, watching_head(input@)),
{
    let n = read_counted(input, "WATCHING ", usize::MAX as u64)?;
    Ok(n as usize)
}

/// What `read_kicked` makes of a line.
pub open spec fn kicked_head(line: Seq<char>) -> Result<usize, Seq<char>> {
    match counted_head(line, "KICKED ".spec_bytes(), usize::MAX as nat) {
        Ok(n) => Ok(n as usize),
        Err(text) => Err(text),
    }
}

/// Reads `KICKED <count>`, the answer to `kick`: the number of jobs kicked.
pub fn read_kicked(input: &str) -> (r: Result<usize, Error>)
    ensures
        answers(r, kicked_head(input@)),
{
    let n = read_counted(input, "KICKED ", usize::MAX as u64)?;
    Ok(n as usize)
}

/// What the first line of a reply asks for: nothing more, or a payload of
/// `bytes` bytes for the job `id`.
#[derive(Debug, PartialEq, Eq)]
pub enum Head<T> {
    Done(T),
    Payload { id: Id, bytes: u64 },
}

/// The answer to `reserve` and to `reserve-with-timeout`.
#[derive(Debug, PartialEq, Eq)]
pub enum ReserveResponse {
    /// A job reserved by this client is about to time out.
    DeadlineSoon,
    /// No job became ready in time.
    TimedOut,
    /// The job that was reserved, with its payload.
    Reserved { id: Id, data: Vec<u8> },
}

/// The answers to `reserve` that need no payload.
#[derive(Debug, Clone, Copy, PartialEq, Eq, Structural)]
pub enum ReserveStatus {
    DeadlineSoon,
    TimedOut,
}

impl ReserveResponse {
    /// What `head` makes of a line: `DEADLINE_SOON`, `TIMED_OUT`, or the
    /// announcement of a reserved job.
    pub open spec fn of_line(line: Seq<char>) -> Result<Head<ReserveStatus>, Seq<char>> {
        let bytes = encode_utf8(line);
        if bytes == "DEADLINE_SOON".spec_bytes() {
            Ok(Head::Done(ReserveStatus::DeadlineSoon))
        } else if bytes == "TIMED_OUT".spec_bytes() {
            Ok(Head::Done(ReserveStatus::TimedOut))
        } else {
            match reserved_head(line) {
                Ok((id, bytes)) => Ok(Head::Payload { id, bytes }),
                Err(text) => Err(text),
            }
        }
    }

    /// Reads the first line of the answer to `reserve`.
    pub fn head(input: &str) -> (r: Result<Head<ReserveStatus>, Error>)
        ensures
            answers(r, Self::of_line(input@)),
    {
        let line = input.as_bytes();
        if is_line(line, "DEADLINE_SOON") {
            return Ok(Head::Done(ReserveStatus::DeadlineSoon));
        }
        if is_line(line, "TIMED_OUT") {
            return Ok(Head::Done(ReserveStatus::TimedOut));
        }
        let (id, bytes) = read_reserved(input)?;
        Ok(Head::Payload { id, bytes })
    }

    /// The answer for a first line that asked for nothing more.
    pub fn done(status: ReserveStatus) -> (r: ReserveResponse)
        ensures
            r == match status {
                ReserveStatus::DeadlineSoon => ReserveResponse::DeadlineSoon,
                ReserveStatus::TimedOut => ReserveResponse::TimedOut,
            },
    {
        match status {
            ReserveStatus::DeadlineSoon => ReserveResponse::DeadlineSoon,
            ReserveStatus::TimedOut => ReserveResponse::TimedOut,
        }
    }
}

/// The answer to `reserve-job`.
#[derive(Debug, PartialEq, Eq)]
pub enum ReserveByIdResponse {
    /// There is no such job, or it cannot be reserved.
    NotFound,
    /// The job that was reserved, with its payload.
    Reserved { id: Id, data: Vec<u8> },
}

impl ReserveByIdResponse {
    /// What `head` makes of a line: `NOT_FOUND`, or the announcement of a
    /// reserved job.
    pub open spec fn of_line(line: Seq<char>) -> Result<Head<()>, Seq<char>> {
        if encode_utf8(line) == "NOT_FOUND".spec_bytes() {
            Ok(Head::Done(()))
        } else {
            match reserved_head(line) {
                Ok((id, bytes)) => Ok(Head::Payload { id, bytes }),
                Err(text) => Err(text),
            }
        }
    }

    /// Reads the first line of the answer to `reserve-job`.
    pub fn head(input: &str) -> (r: Result<Head<()>, Error>)
        ensures
            answers(r, Self::of_line(input@)),
    {
        if is_line(input.as_bytes(), "NOT_FOUND") {
            return Ok(Head::Done(()));
        }
        let (id, bytes) = read_reserved(input)?;
        Ok(Head::Payload { id, bytes })
    }
}

/// The answer to `peek` and its variants.
#[derive(Debug, PartialEq, Eq)]
pub enum PeekResponse {
    /// There is no such job.
    NotFound,
    /// The job, with its payload.
    Found { id: Id, data: Vec<u8> },
}

impl PeekResponse {
    /// What `head` makes of a line: `NOT_FOUND`, or the announcement of a
    /// job.
    pub open spec fn of_line(line: Seq<char>) -> Result<Head<()>, Seq<char>> {
        if encode_utf8(line) == "NOT_FOUND".spec_bytes() {
            Ok(Head::Done(()))
        } else {
            match found_head(line) {
                Ok((id, bytes)) => Ok(Head::Payload { id, bytes }),
                Err(text) => Err(text),
            }
        }
    }

    /// Reads the first line of the answer to a `peek`.
    pub fn head(input: &str) -> (r: Result<Head<()>, Error>)
        ensures
            answers(r, Self::of_line(input@)),
    {
        if is_line(input.as_bytes(), "NOT_FOUND") {
            return Ok(Head::Done(()));
        }
        let (id, bytes) = read_found(input)?;
        Ok(Head::Payload { id, bytes })
    }
}

/// What `read_stats` makes of a line: nothing for `NOT_FOUND`, else the
/// length that `OK ` announces.
pub open spec fn stats_head(line: Seq<char>) -> Result<Option<u64>, Seq<char>> {
    if encode_utf8(line) == "NOT_FOUND".spec_bytes() {
        Ok(None)
    } else {
        match ok_head(line) {
            Ok(bytes) => Ok(Some(bytes)),
            Err(text) => Err(text),
        }
    }
}

/// Reads the first line of the answer to `stats-job` or `stats-tube`: the
/// length of the document that follows, or nothing where the job or tube
/// does not exist.
pub fn read_stats(input: &str) -> (r: Result<Option<u64>, Error>)
    ensures
        answers(r, stats_head(input@)),
{
    if is_line(input.as_bytes(), "NOT_FOUND") {
        return Ok(None);
    }
    let bytes = read_ok(input)?;
    Ok(Some(bytes))
}

/// What `read_using` makes of a line: what follows `USING `, or the line
/// as the error.
pub open spec fn using_head(line: Seq<char>) -> Result<Seq<u8>, Seq<char>> {
    let bytes = encode_utf8(line);
    if "USING ".spec_bytes().is_prefix_of(bytes) {
        Ok(bytes.skip("USING ".spec_bytes().len() as int))
    } else {
        Err(line)
    }
}

/// Reads `USING <tube>`, the answer to `list-tube-used`: the bytes of the
/// tube's name.
pub fn read_using<'a>(input: &'a str) -> (r: Result<&'a [u8], Error>)
    ensures
        match (r, using_head(input@)) {
            (Ok(got), Ok(value)) => got@ == value,
            (Err(Error::Bs(got)), Err(text)) => got@ == text,
            _ => false,
        },
{
    match after_prefix(input.as_bytes(), "USING ") {
        Some(name) => Ok(name),
        None => Err(unexpected(input)),
    }
}

} // verus!
