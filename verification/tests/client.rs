use bsc_core::client;
use bsc_core::client::{BeanstalkError, PutOptions};
use bsc_core::protocol::{Cmd, Msg};
use bsc_core::types::ErrorKind;

#[test]
fn put_request_defaults() {
    assert_eq!(
        client::put_request(b"x", None, None, None),
        Cmd::Put { pri: 0, delay: 0, ttr: 60, payload: b"x" }
    );
    assert_eq!(
        client::put_request(b"x", Some(1), Some(2), Some(3)),
        Cmd::Put { pri: 1, delay: 2, ttr: 3, payload: b"x" }
    );
    assert_eq!(
        client::put_request(b"Hello World", None, None, None).encode(),
        Vec::from("put 0 0 60 11\r\nHello World\r\n")
    );
}

#[test]
fn release_request_defaults() {
    assert_eq!(
        client::release_request(9, None, None),
        Cmd::Release { id: 9, pri: 0, delay: 0 }
    );
    assert_eq!(
        client::release_request(9, Some(5), Some(6)),
        Cmd::Release { id: 9, pri: 5, delay: 6 }
    );
}

#[test]
fn poll_reads_more_only_on_exhaustion() {
    assert!(matches!(client::poll(b"INSERTED 4"), Ok(None)));
    assert!(matches!(client::poll(b""), Ok(None)));
    assert!(matches!(client::poll(b"INSERTED 4\r\n"), Ok(Some(Msg::Inserted(4)))));
    assert!(matches!(
        client::poll(b"GARBAGE\r\n"),
        Err(BeanstalkError::Parse(ErrorKind::NotMatched))
    ));
    assert!(matches!(
        client::poll(b"INSERTED 99999999999999999999\r\n"),
        Err(BeanstalkError::Parse(ErrorKind::Integer))
    ));
}

#[test]
fn replies_to_requests() {
    assert!(matches!(client::put_reply(Msg::Inserted(3)), Ok(3)));
    assert!(matches!(
        client::put_reply(Msg::Draining),
        Err(BeanstalkError::Msg(Msg::Draining))
    ));
    assert!(matches!(client::delete_reply(Msg::Deleted), Ok(())));
    assert!(matches!(
        client::delete_reply(Msg::NotFound),
        Err(BeanstalkError::Msg(Msg::NotFound))
    ));
    match client::reserve_reply(Msg::Reserved(8, Vec::from("Hello World"))) {
        Ok((id, payload)) => {
            assert_eq!(id, 8);
            assert_eq!(payload, Vec::from("Hello World"));
        }
        Err(e) => panic!("{:?}", e),
    }
    assert!(matches!(
        client::reserve_reply(Msg::TimedOut),
        Err(BeanstalkError::Msg(Msg::TimedOut))
    ));
    assert!(matches!(client::release_reply(Msg::Released), Ok(())));
    assert!(matches!(
        client::release_reply(Msg::Buried(None)),
        Err(BeanstalkError::Msg(Msg::Buried(None)))
    ));
}

#[test]
fn parse_error_becomes_client_error() {
    let e: BeanstalkError = ("rest".as_bytes(), ErrorKind::NotMatched).into();
    assert!(matches!(e, BeanstalkError::Parse(ErrorKind::NotMatched)));
}

#[test]
fn put_options_default() {
    assert_eq!(
        PutOptions::default(),
        PutOptions { priority: 0, delay: 0, ttr: 60 }
    );
}
