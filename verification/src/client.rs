//! What a client decides between its reads and writes: the command to send
//! for a request, whether the bytes read so far hold a reply, and whether
//! the reply is the one the request was made for.

use vstd::prelude::*;
use crate::protocol::{atomic_parse, decode_spec, Cmd, Msg};
use crate::types::{ErrorKind, ParseError};

verus! {

/// Why a request did not get its answer.
#[derive(Debug)]
pub enum BeanstalkError {
    /// The bytes that came are no reply.
    Parse(ErrorKind),
    /// A reply came, and it is not the one the request was made for.
    Msg(Msg),
}

impl<'a> From<ParseError<'a>> for BeanstalkError {
    /// Keeps the reason and lets go of the input.
    fn from(e: ParseError<'a>) -> (out: BeanstalkError)
        ensures
            out == BeanstalkError::Parse(e.1),
    {
        BeanstalkError::Parse(e.1)
    }
}

impl<'a> vstd::std_specs::convert::FromSpecImpl<ParseError<'a>> for BeanstalkError {
    open spec fn obeys_from_spec() -> bool {
        true
    }

    open spec fn from_spec(e: ParseError<'a>) -> BeanstalkError {
        BeanstalkError::Parse(e.1)
    }
}

/// The value of an option, or `default` where there is none.
pub open spec fn or_default(value: Option<u32>, default: u32) -> u32 {
    match value {
        Some(v) => v,
        None => default,
    }
}

/// The command that inserts `payload`: priority and delay are 0 and the
/// time to run is 60 where none is given.
pub fn put_request<'a>(
    payload: &'a [u8],
    pri: Option<u32>,
    delay: Option<u32>,
    ttr: Option<u32>,
) -> (cmd: Cmd<'a>)
    ensures
        cmd == (Cmd::Put {
            pri: or_default(pri, 0),
            delay: or_default(delay, 0),
            ttr: or_default(ttr, 60),
            payload,
        }),
{
    Cmd::Put {
        pri: match pri {
            Some(v) => v,
            None => 0,
        },
        delay: match delay {
            Some(v) => v,
            None => 0,
        },
        ttr: match ttr {
            Some(v) => v,
            None => 60,
        },
        payload,
    }
}

/// The command that releases the job `id`: priority and delay are 0 where
/// none is given.
pub fn release_request(id: u64, pri: Option<u32>, delay: Option<u32>) -> (cmd: Cmd<'static>)
    ensures
        cmd == (Cmd::Release { id, pri: or_default(pri, 0), delay: or_default(delay, 0) }),
{
    Cmd::Release {
        id,
        pri: match pri {
            Some(v) => v,
            None => 0,
        },
        delay: match delay {
            Some(v) => v,
            None => 0,
        },
    }
}

/// What to do with the bytes read so far: hand on the reply that they begin
/// with, read more where they may be the start of one, or give up where
/// they can never form one.
pub fn poll(buf: &[u8]) -> (r: Result<Option<Msg>, BeanstalkError>)
    ensures
        match decode_spec(buf@) {
            Ok((reply, _)) => r matches Ok(Some(msg)) && msg@ == reply,
            Err(ErrorKind::EOF) => r matches Ok(None),
            Err(reason) => r matches Err(BeanstalkError::Parse(kind)) && kind == reason,
        },
{
    match atomic_parse(buf) {
        Ok((_, msg)) => Ok(Some(msg)),
        Err((_, kind)) => {
            if matches!(kind, ErrorKind::EOF) {
                Ok(None)
            } else {
                Err(BeanstalkError::Parse(kind))
            }
        },
    }
}

/// The id under which a `put` was inserted; any other reply is the error.
pub fn put_reply(msg: Msg) -> (r: Result<u64, BeanstalkError>)
    ensures
        match msg {
            Msg::Inserted(id) => r == Ok::<u64, BeanstalkError>(id),
            _ => r == Err::<u64, BeanstalkError>(BeanstalkError::Msg(msg)),
        },
{
    match msg {
        Msg::Inserted(id) => Ok(id),
        m => Err(BeanstalkError::Msg(m)),
    }
}

/// Accepts `DELETED` as the answer to `delete`; any other reply is the
/// error.
pub fn delete_reply(msg: Msg) -> (r: Result<(), BeanstalkError>)
    ensures
        match msg {
            Msg::Deleted => r is Ok,
            _ => r == Err::<(), BeanstalkError>(BeanstalkError::Msg(msg)),
        },
{
    match msg {
        Msg::Deleted => Ok(()),
        m => Err(BeanstalkError::Msg(m)),
    }
}

/// The id and the payload of the job that a `reserve` got; any other reply
/// is the error.
pub fn reserve_reply(msg: Msg) -> (r: Result<(u64, Vec<u8>), BeanstalkError>)
    ensures
        match msg {
            Msg::Reserved(id, payload) => r == Ok::<(u64, Vec<u8>), BeanstalkError>((id, payload)),
            _ => r == Err::<(u64, Vec<u8>), BeanstalkError>(BeanstalkError::Msg(msg)),
        },
{
    match msg {
        Msg::Reserved(id, payload) => Ok((id, payload)),
        m => Err(BeanstalkError::Msg(m)),
    }
}

/// Accepts `RELEASED` as the answer to `release`; any other reply is the
/// error.
pub fn release_reply(msg: Msg) -> (r: Result<(), BeanstalkError>)
    ensures
        match msg {
            Msg::Released => r is Ok,
            _ => r == Err::<(), BeanstalkError>(BeanstalkError::Msg(msg)),
        },
{
    match msg {
        Msg::Released => Ok(()),
        m => Err(BeanstalkError::Msg(m)),
    }
}

/// The priority, the delay and the time to run of a `put`.
#[derive(Debug, Clone, Copy, PartialEq, Eq, Structural)]
pub struct PutOptions {
    pub priority: u64,
    pub delay: u64,
    pub ttr: u64,
}

impl Default for PutOptions {
    /// Priority 0, no delay, 60 seconds to run.
    fn default() -> (out: PutOptions)
        ensures
            out == (PutOptions { priority: 0, delay: 0, ttr: 60 }),
    {
        PutOptions { priority: 0, delay: 0, ttr: 60 }
    }
}

} // verus!
