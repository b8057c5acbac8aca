use bsc_core::response;
use bsc_core::response::{
    BuryResponse, DeleteResponse, Error, Head, IgnoreResponse, KickJobResponse,
    PauseTubeResponse, PeekResponse, PutResponse, ReleaseResponse, ReserveByIdResponse,
    ReserveResponse, ReserveStatus, TouchResponse,
};

fn text<T: std::fmt::Debug>(r: Result<T, Error>) -> String {
    match r {
        Err(Error::Bs(text)) => text,
        Ok(v) => panic!("{:?}", v),
    }
}

#[test]
fn put_response() {
    assert_eq!(PutResponse::parse("INSERTED 42").ok(), Some(PutResponse::Inserted(42)));
    assert_eq!(PutResponse::parse("BURIED 7").ok(), Some(PutResponse::Buried(7)));
    assert_eq!(PutResponse::parse("INSERTED +42").ok(), Some(PutResponse::Inserted(42)));
    assert_eq!(
        PutResponse::parse("INSERTED 4294967295").ok(),
        Some(PutResponse::Inserted(u32::MAX))
    );
    assert_eq!(PutResponse::parse("EXPECTED_CRLF").ok(), Some(PutResponse::ExpectedCrlf));
    assert_eq!(PutResponse::parse("JOB_TOO_BIG").ok(), Some(PutResponse::JobTooBig));
    assert_eq!(PutResponse::parse("DRAINING").ok(), Some(PutResponse::Draining));
    assert_eq!(PutResponse::parse("DRAINING now").ok(), Some(PutResponse::Draining));
}

#[test]
fn put_response_errors() {
    assert_eq!(
        text(PutResponse::parse("INSERTED 4294967296")),
        "number too large to fit in target type"
    );
    assert_eq!(text(PutResponse::parse("INSERTED ")), "cannot parse integer from empty string");
    assert_eq!(text(PutResponse::parse("INSERTED 4 2")), "invalid digit found in string");
    assert_eq!(text(PutResponse::parse("BURIED x")), "invalid digit found in string");
    assert_eq!(text(PutResponse::parse("INSERTED")), "INSERTED");
    assert_eq!(text(PutResponse::parse("BURIED")), "BURIED");
    assert_eq!(text(PutResponse::parse("OUT_OF_MEMORY")), "OUT_OF_MEMORY");
    assert_eq!(text(PutResponse::parse("")), "");
}

#[test]
fn reserved_and_found_heads() {
    assert_eq!(response::read_reserved("RESERVED 42 6").ok(), Some((42, 6)));
    assert_eq!(response::read_reserved("RESERVED   42 \t 6  extra").ok(), Some((42, 6)));
    assert_eq!(
        response::read_reserved("RESERVED 1 18446744073709551615").ok(),
        Some((1, u64::MAX))
    );
    assert_eq!(response::read_found("FOUND 9 5").ok(), Some((9, 5)));
    assert_eq!(text(response::read_reserved("RESERVED ")), "missing 'id' in RESERVED response");
    assert_eq!(
        text(response::read_reserved("RESERVED 42")),
        "missing 'bytes' in RESERVED response"
    );
    assert_eq!(text(response::read_found("FOUND ")), "missing 'id' in FOUND response");
    assert_eq!(text(response::read_found("FOUND 42 ")), "missing 'bytes' in FOUND response");
    assert_eq!(text(response::read_reserved("RESERVED x 6")), "invalid digit found in string");
    assert_eq!(
        text(response::read_reserved("RESERVED 4294967296 6")),
        "number too large to fit in target type"
    );
    assert_eq!(text(response::read_reserved("RESERVED 1 x")), "invalid digit found in string");
    assert_eq!(text(response::read_reserved("RESERVED")), "RESERVED");
    assert_eq!(text(response::read_reserved("FOUND 1 2")), "FOUND 1 2");
    assert_eq!(text(response::read_found("RESERVED 1 2")), "RESERVED 1 2");
}

#[test]
fn ok_watching_kicked_using() {
    assert_eq!(response::read_ok("OK 128").ok(), Some(128));
    assert_eq!(text(response::read_ok("OK 12 8")), "invalid digit found in string");
    assert_eq!(text(response::read_ok("OK")), "OK");
    assert_eq!(response::read_watching("WATCHING 3").ok(), Some(3));
    assert_eq!(text(response::read_watching("NOT_IGNORED")), "NOT_IGNORED");
    assert_eq!(response::read_kicked("KICKED 10").ok(), Some(10));
    assert_eq!(text(response::read_kicked("KICKED")), "KICKED");
    assert_eq!(response::read_using("USING my-tube").ok(), Some("my-tube".as_bytes()));
    assert_eq!(response::read_using("USING ").ok(), Some("".as_bytes()));
    assert_eq!(text(response::read_using("USING")), "USING");
    assert_eq!(response::read_stats("NOT_FOUND").ok(), Some(None));
    assert_eq!(response::read_stats("OK 77").ok(), Some(Some(77)));
    assert_eq!(text(response::read_stats("FOUND 77")), "FOUND 77");
}

#[test]
fn exact_line_answers() {
    assert_eq!(DeleteResponse::parse("DELETED").ok(), Some(DeleteResponse::Deleted));
    assert_eq!(DeleteResponse::parse("NOT_FOUND").ok(), Some(DeleteResponse::NotFound));
    assert_eq!(text(DeleteResponse::parse("DELETED ")), "DELETED ");
    assert_eq!(text(DeleteResponse::parse("")), "");
    assert_eq!(ReleaseResponse::parse("RELEASED").ok(), Some(ReleaseResponse::Released));
    assert_eq!(ReleaseResponse::parse("BURIED").ok(), Some(ReleaseResponse::Buried));
    assert_eq!(ReleaseResponse::parse("NOT_FOUND").ok(), Some(ReleaseResponse::NotFound));
    assert_eq!(text(ReleaseResponse::parse("BURIED 1")), "BURIED 1");
    assert_eq!(BuryResponse::parse("BURIED").ok(), Some(BuryResponse::Buried));
    assert_eq!(BuryResponse::parse("NOT_FOUND").ok(), Some(BuryResponse::NotFound));
    assert_eq!(TouchResponse::parse("TOUCHED").ok(), Some(TouchResponse::Touched));
    assert_eq!(TouchResponse::parse("NOT_FOUND").ok(), Some(TouchResponse::NotFound));
    assert_eq!(KickJobResponse::parse("KICKED").ok(), Some(KickJobResponse::Kicked));
    assert_eq!(KickJobResponse::parse("NOT_FOUND").ok(), Some(KickJobResponse::NotFound));
    assert_eq!(PauseTubeResponse::parse("PAUSED").ok(), Some(PauseTubeResponse::Paused));
    assert_eq!(PauseTubeResponse::parse("NOT_FOUND").ok(), Some(PauseTubeResponse::NotFound));
    assert_eq!(text(PauseTubeResponse::parse("paused")), "paused");
    assert_eq!(IgnoreResponse::parse("NOT_IGNORED").ok(), Some(IgnoreResponse::NotIgnored));
    assert_eq!(IgnoreResponse::parse("WATCHING 2").ok(), Some(IgnoreResponse::Count(2)));
    assert_eq!(text(IgnoreResponse::parse("WATCHING")), "WATCHING");
    assert_eq!(text(IgnoreResponse::parse("WATCHING x")), "invalid digit found in string");
}

#[test]
fn heads_of_payload_answers() {
    assert_eq!(
        ReserveResponse::head("DEADLINE_SOON").ok(),
        Some(Head::Done(ReserveStatus::DeadlineSoon))
    );
    assert_eq!(
        ReserveResponse::head("TIMED_OUT").ok(),
        Some(Head::Done(ReserveStatus::TimedOut))
    );
    assert_eq!(
        ReserveResponse::head("RESERVED 5 11").ok(),
        Some(Head::Payload { id: 5, bytes: 11 })
    );
    assert_eq!(text(ReserveResponse::head("NOT_FOUND")), "NOT_FOUND");
    assert_eq!(
        ReserveResponse::done(ReserveStatus::DeadlineSoon),
        ReserveResponse::DeadlineSoon
    );
    assert_eq!(ReserveResponse::done(ReserveStatus::TimedOut), ReserveResponse::TimedOut);
    assert_eq!(ReserveByIdResponse::head("NOT_FOUND").ok(), Some(Head::Done(())));
    assert_eq!(
        ReserveByIdResponse::head("RESERVED 5 11").ok(),
        Some(Head::Payload { id: 5, bytes: 11 })
    );
    assert_eq!(text(ReserveByIdResponse::head("TIMED_OUT")), "TIMED_OUT");
    assert_eq!(PeekResponse::head("NOT_FOUND").ok(), Some(Head::Done(())));
    assert_eq!(
        PeekResponse::head("FOUND 5 11").ok(),
        Some(Head::Payload { id: 5, bytes: 11 })
    );
    assert_eq!(text(PeekResponse::head("RESERVED 5 11")), "RESERVED 5 11");
}
