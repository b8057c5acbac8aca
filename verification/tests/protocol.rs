use bsc_core::protocol;
use bsc_core::protocol::{Cmd, Msg, ReplyKind};
use bsc_core::types::ErrorKind;

#[test]
fn inserted() {
    assert_eq!(
        protocol::inserted("INSERTED 42\r\n".as_bytes()),
        Ok(("".as_bytes(), Msg::Inserted(42))),
    );
}

#[test]
fn reserved() {
    assert_eq!(
        protocol::reserved("RESERVED 42 6\r\n123456\r\n".as_bytes()),
        Ok(("".as_bytes(), Msg::Reserved(42, Vec::from("123456")))),
    );
}

#[test]
fn kicked_none() {
    assert_eq!(
        protocol::kicked("KICKED\r\n".as_bytes()),
        Ok(("".as_bytes(), Msg::Kicked(None))),
    );
}

#[test]
fn kicked_some() {
    assert_eq!(
        protocol::kicked("KICKED 42\r\n".as_bytes()),
        Ok(("".as_bytes(), Msg::Kicked(Some(42)))),
    );
}

#[test]
fn using() {
    assert_eq!(
        protocol::using("USING foo\r\n".as_bytes()),
        Ok(("".as_bytes(), Msg::Using(String::from("foo")))),
    );
}

#[test]
fn put() {
    let cmd: Vec<u8> = Cmd::Put {
        pri: 1,
        delay: 2,
        ttr: 3,
        payload: "123456".as_bytes(),
    }
    .into();
    assert_eq!(cmd, Vec::from("put 1 2 3 6\r\n123456\r\n".as_bytes()),);
}

#[test]
fn use_() {
    let cmd: Vec<u8> = Cmd::Use("tube").into();
    assert_eq!(cmd, Vec::from("use tube\r\n".as_bytes()));
}

#[test]
fn reserve() {
    let cmd: Vec<u8> = Cmd::Reserve.into();
    assert_eq!(cmd, Vec::from("reserve\r\n".as_bytes()));
}

#[test]
fn reserve_job() {
    let cmd: Vec<u8> = Cmd::ReserveJob(42).into();
    assert_eq!(cmd, Vec::from("reserve-job 42\r\n".as_bytes()));
}

#[test]
fn reserve_timeout() {
    let cmd: Vec<u8> = Cmd::ReserveTimeout(42).into();
    assert_eq!(cmd, Vec::from("reserve-with-timeout 42\r\n".as_bytes()));
}

#[test]
fn delete() {
    let cmd: Vec<u8> = Cmd::Delete(42).into();
    assert_eq!(cmd, Vec::from("delete 42\r\n".as_bytes()));
}

#[test]
fn release() {
    let cmd: Vec<u8> = Cmd::Release {
        id: 42,
        pri: 2,
        delay: 3,
    }
    .into();
    assert_eq!(cmd, Vec::from("release 42 2 3\r\n".as_bytes()));
}

#[test]
fn bury() {
    let cmd: Vec<u8> = Cmd::Bury { id: 42, pri: 2 }.into();
    assert_eq!(cmd, Vec::from("bury 42 2\r\n".as_bytes()));
}

#[test]
fn touch() {
    let cmd: Vec<u8> = Cmd::Touch(42).into();
    assert_eq!(cmd, Vec::from("touch 42\r\n".as_bytes()));
}

#[test]
fn watch() {
    let cmd: Vec<u8> = Cmd::Watch("tube").into();
    assert_eq!(cmd, Vec::from("watch tube\r\n".as_bytes()));
}

#[test]
fn ignore() {
    let cmd: Vec<u8> = Cmd::Ignore("tube").into();
    assert_eq!(cmd, Vec::from("ignore tube\r\n".as_bytes()));
}

#[test]
fn peek() {
    let cmd: Vec<u8> = Cmd::Peek(42).into();
    assert_eq!(cmd, Vec::from("peek 42\r\n".as_bytes()));
}

#[test]
fn peek_ready() {
    let cmd: Vec<u8> = Cmd::PeekReady.into();
    assert_eq!(cmd, Vec::from("peek-ready\r\n".as_bytes()));
}

#[test]
fn peek_delayed() {
    let cmd: Vec<u8> = Cmd::PeekDelayed.into();
    assert_eq!(cmd, Vec::from("peek-delayed\r\n".as_bytes()));
}

#[test]
fn peek_buried() {
    let cmd: Vec<u8> = Cmd::PeekBuried.into();
    assert_eq!(cmd, Vec::from("peek-buried\r\n".as_bytes()));
}

#[test]
fn kick() {
    let cmd: Vec<u8> = Cmd::Kick(42).into();
    assert_eq!(cmd, Vec::from("kick 42\r\n".as_bytes()));
}

#[test]
fn kick_job() {
    let cmd: Vec<u8> = Cmd::KickJob(42).into();
    assert_eq!(cmd, Vec::from("kick-job 42\r\n".as_bytes()));
}

#[test]
fn stats_job() {
    let cmd: Vec<u8> = Cmd::StatsJob(42).into();
    assert_eq!(cmd, Vec::from("stats-job 42\r\n".as_bytes()));
}

#[test]
fn stats_tube() {
    let cmd: Vec<u8> = Cmd::StatsTube("tube").into();
    assert_eq!(cmd, Vec::from("stats-tube tube\r\n".as_bytes()));
}

#[test]
fn stats() {
    let cmd: Vec<u8> = Cmd::Stats.into();
    assert_eq!(cmd, Vec::from("stats\r\n".as_bytes()));
}

#[test]
fn list_tubes() {
    let cmd: Vec<u8> = Cmd::ListTubes.into();
    assert_eq!(cmd, Vec::from("list-tubes\r\n".as_bytes()));
}

#[test]
fn list_tube_used() {
    let cmd: Vec<u8> = Cmd::ListTubeUsed.into();
    assert_eq!(cmd, Vec::from("list-tube-used\r\n".as_bytes()));
}

#[test]
fn list_tubes_watched() {
    let cmd: Vec<u8> = Cmd::ListTubesWatched.into();
    assert_eq!(cmd, Vec::from("list-tubes-watched\r\n".as_bytes()));
}

#[test]
fn protocol_quit() {
    let cmd: Vec<u8> = Cmd::Quit.into();
    assert_eq!(cmd, Vec::from("quit\r\n".as_bytes()));
}

#[test]
fn pause_tube() {
    let cmd: Vec<u8> = Cmd::PauseTube {
        tube: "tube",
        delay: 42,
    }
    .into();
    assert_eq!(cmd, Vec::from("pause-tube tube 42\r\n".as_bytes()));
}

#[test]
fn encode_agrees_with_conversion() {
    let cmd = Cmd::Release { id: 7, pri: 0, delay: 4294967295 };
    assert_eq!(cmd.encode(), Vec::from("release 7 0 4294967295\r\n".as_bytes()));
    let converted: Vec<u8> = cmd.into();
    assert_eq!(converted, cmd.encode());
}

#[test]
fn put_counts_payload_bytes_not_line_end() {
    let empty = Cmd::Put { pri: 0, delay: 0, ttr: 60, payload: &[] };
    assert_eq!(empty.encode(), Vec::from("put 0 0 60 0\r\n\r\n".as_bytes()));
    let with_line_ends = Cmd::Put { pri: 10, delay: 0, ttr: 1, payload: "\r\n\r\n".as_bytes() };
    assert_eq!(
        with_line_ends.encode(),
        Vec::from("put 10 0 1 4\r\n\r\n\r\n\r\n".as_bytes())
    );
    let raw = [0u8, 255, 13, 10, 7, 1, 2, 3, 4, 5, 6, 7];
    let binary = Cmd::Put { pri: 4294967295, delay: 1, ttr: 2, payload: &raw };
    let mut expected = Vec::from("put 4294967295 1 2 12\r\n".as_bytes());
    expected.extend_from_slice(&raw);
    expected.extend_from_slice(b"\r\n");
    assert_eq!(binary.encode(), expected);
}

#[test]
fn encode_writes_largest_numbers() {
    assert_eq!(
        Cmd::Delete(u64::MAX).encode(),
        Vec::from("delete 18446744073709551615\r\n".as_bytes())
    );
    assert_eq!(Cmd::Delete(0).encode(), Vec::from("delete 0\r\n".as_bytes()));
    assert_eq!(Cmd::Kick(10).encode(), Vec::from("kick 10\r\n".as_bytes()));
    assert_eq!(Cmd::Peek(109).encode(), Vec::from("peek 109\r\n".as_bytes()));
}

#[test]
fn encode_does_not_check_names() {
    assert_eq!(Cmd::Use("-bad name").encode(), Vec::from("use -bad name\r\n".as_bytes()));
    assert_eq!(Cmd::Watch("").encode(), Vec::from("watch \r\n".as_bytes()));
}

#[test]
fn every_bare_reply() {
    let cases: Vec<(&str, Msg)> = vec![
        ("OUT_OF_MEMORY\r\n", Msg::OutOfMemory),
        ("INTERNAL_ERROR\r\n", Msg::InternalError),
        ("BAD_FORMAT\r\n", Msg::BadFormat),
        ("UNKNOWN_COMMAND\r\n", Msg::UnknownCommand),
        ("EXPECTED_CRLF\r\n", Msg::ExpectedCrlf),
        ("JOB_TOO_BIG\r\n", Msg::JobTooBig),
        ("DRAINING\r\n", Msg::Draining),
        ("DEADLINE_SOON\r\n", Msg::DeadlineSoon),
        ("TIMED_OUT\r\n", Msg::TimedOut),
        ("NOT_FOUND\r\n", Msg::NotFound),
        ("DELETED\r\n", Msg::Deleted),
        ("RELEASED\r\n", Msg::Released),
        ("TOUCHED\r\n", Msg::Touched),
        ("NOT_IGNORED\r\n", Msg::NotIgnored),
        ("PAUSED\r\n", Msg::Paused),
        ("BURIED\r\n", Msg::Buried(None)),
        ("KICKED\r\n", Msg::Kicked(None)),
    ];
    for (text, want) in cases {
        assert_eq!(
            protocol::atomic_parse(text.as_bytes()),
            Ok(("".as_bytes(), want))
        );
    }
}

#[test]
fn named_recognizers_match_their_own_keyword() {
    assert_eq!(
        protocol::out_of_memory("OUT_OF_MEMORY\r\nx".as_bytes()),
        Ok(("x".as_bytes(), Msg::OutOfMemory))
    );
    assert_eq!(
        protocol::internal_error("INTERNAL_ERROR\r\n".as_bytes()),
        Ok(("".as_bytes(), Msg::InternalError))
    );
    assert_eq!(
        protocol::bad_format("BAD_FORMAT\r\n".as_bytes()),
        Ok(("".as_bytes(), Msg::BadFormat))
    );
    assert_eq!(
        protocol::unknown_command("UNKNOWN_COMMAND\r\n".as_bytes()),
        Ok(("".as_bytes(), Msg::UnknownCommand))
    );
    assert_eq!(
        protocol::expected_crlf("EXPECTED_CRLF\r\n".as_bytes()),
        Ok(("".as_bytes(), Msg::ExpectedCrlf))
    );
    assert_eq!(
        protocol::job_too_big("JOB_TOO_BIG\r\n".as_bytes()),
        Ok(("".as_bytes(), Msg::JobTooBig))
    );
    assert_eq!(
        protocol::draining("DRAINING\r\n".as_bytes()),
        Ok(("".as_bytes(), Msg::Draining))
    );
    assert_eq!(
        protocol::deadline_soon("DEADLINE_SOON\r\n".as_bytes()),
        Ok(("".as_bytes(), Msg::DeadlineSoon))
    );
    assert_eq!(
        protocol::timed_out("TIMED_OUT\r\n".as_bytes()),
        Ok(("".as_bytes(), Msg::TimedOut))
    );
    assert_eq!(
        protocol::not_found("NOT_FOUND\r\n".as_bytes()),
        Ok(("".as_bytes(), Msg::NotFound))
    );
    assert_eq!(
        protocol::deleted("DELETED\r\n".as_bytes()),
        Ok(("".as_bytes(), Msg::Deleted))
    );
    assert_eq!(
        protocol::released("RELEASED\r\n".as_bytes()),
        Ok(("".as_bytes(), Msg::Released))
    );
    assert_eq!(
        protocol::touched("TOUCHED\r\n".as_bytes()),
        Ok(("".as_bytes(), Msg::Touched))
    );
    assert_eq!(
        protocol::not_ignored("NOT_IGNORED\r\n".as_bytes()),
        Ok(("".as_bytes(), Msg::NotIgnored))
    );
    assert_eq!(
        protocol::paused("PAUSED\r\n".as_bytes()),
        Ok(("".as_bytes(), Msg::Paused))
    );
}

#[test]
fn watching_has_its_own_keyword() {
    assert_eq!(
        protocol::watching("WATCHING 3\r\n".as_bytes()),
        Ok(("".as_bytes(), Msg::Watching(3)))
    );
    assert_eq!(
        protocol::watching("TOUCHED 3\r\n".as_bytes()),
        Err(("TOUCHED 3\r\n".as_bytes(), ErrorKind::NotMatched))
    );
    assert_eq!(
        protocol::atomic_parse("WATCHING 12\r\n".as_bytes()),
        Ok(("".as_bytes(), Msg::Watching(12)))
    );
    assert_eq!(
        protocol::atomic_parse("TOUCHED\r\n".as_bytes()),
        Ok(("".as_bytes(), Msg::Touched))
    );
}

#[test]
fn buried_with_and_without_id() {
    assert_eq!(
        protocol::buried("BURIED 7\r\n".as_bytes()),
        Ok(("".as_bytes(), Msg::Buried(Some(7))))
    );
    assert_eq!(
        protocol::buried("BURIED\r\n".as_bytes()),
        Ok(("".as_bytes(), Msg::Buried(None)))
    );
    assert_eq!(
        protocol::buried("BURIED x\r\n".as_bytes()),
        Err(("BURIED x\r\n".as_bytes(), ErrorKind::NotMatched))
    );
    assert_eq!(
        protocol::buried("BURIED_X\r\n".as_bytes()),
        Err(("BURIED_X\r\n".as_bytes(), ErrorKind::NotMatched))
    );
    assert_eq!(
        protocol::atomic_parse("BURIED_X\r\n".as_bytes()),
        Err(("BURIED_X\r\n".as_bytes(), ErrorKind::NotMatched))
    );
}

#[test]
fn found_and_ok_carry_payloads() {
    assert_eq!(
        protocol::found("FOUND 9 5\r\nhello\r\n".as_bytes()),
        Ok(("".as_bytes(), Msg::Found(9, Vec::from("hello"))))
    );
    assert_eq!(
        protocol::ok("OK 3\r\nabc\r\nrest".as_bytes()),
        Ok(("rest".as_bytes(), Msg::Okay(Vec::from("abc"))))
    );
    assert_eq!(
        protocol::atomic_parse("OK 0\r\n\r\n".as_bytes()),
        Ok(("".as_bytes(), Msg::Okay(Vec::new())))
    );
}

#[test]
fn payload_with_embedded_line_ends() {
    assert_eq!(
        protocol::atomic_parse("RESERVED 1 4\r\n\r\n\r\n\r\n".as_bytes()),
        Ok(("".as_bytes(), Msg::Reserved(1, Vec::from("\r\n\r\n"))))
    );
    assert_eq!(
        protocol::reserved("RESERVED 1 4\r\n\r\n\r\n\r\nDELETED\r\n".as_bytes()),
        Ok(("DELETED\r\n".as_bytes(), Msg::Reserved(1, Vec::from("\r\n\r\n"))))
    );
    assert_eq!(
        protocol::reserved("RESERVED 1 2\r\nabcd\r\n".as_bytes()),
        Err(("RESERVED 1 2\r\nabcd\r\n".as_bytes(), ErrorKind::NotMatched))
    );
}

#[test]
fn exhaustion_and_mismatch() {
    assert_eq!(
        protocol::atomic_parse("RESERVED 42 6\r\n1234".as_bytes()),
        Err(("RESERVED 42 6\r\n1234".as_bytes(), ErrorKind::EOF))
    );
    assert_eq!(
        protocol::atomic_parse("GARBAGE\r\n".as_bytes()),
        Err(("GARBAGE\r\n".as_bytes(), ErrorKind::NotMatched))
    );
    assert_eq!(
        protocol::atomic_parse("".as_bytes()),
        Err(("".as_bytes(), ErrorKind::EOF))
    );
    for partial in ["I", "IN", "INSERTED", "INSERTED ", "INSERTED 4", "INSERTED 42\r", "USI", "OK 2\r\nab\r"] {
        assert_eq!(
            protocol::atomic_parse(partial.as_bytes()),
            Err((partial.as_bytes(), ErrorKind::EOF))
        );
    }
    assert_eq!(
        protocol::atomic_parse("INSERTED 42\rX".as_bytes()),
        Err(("INSERTED 42\rX".as_bytes(), ErrorKind::NotMatched))
    );
}

#[test]
fn malformed_tokens_are_fatal() {
    let big = "INSERTED 18446744073709551616\r\n";
    assert_eq!(
        protocol::atomic_parse(big.as_bytes()),
        Err((big.as_bytes(), ErrorKind::Integer))
    );
    assert_eq!(
        protocol::inserted(big.as_bytes()),
        Err((big.as_bytes(), ErrorKind::Integer))
    );
    let bad: &[u8] = b"USING \xff\xfe\r\n";
    assert_eq!(protocol::atomic_parse(bad), Err((bad, ErrorKind::NotUTF8)));
    assert_eq!(protocol::using(bad), Err((bad, ErrorKind::NotUTF8)));
}

#[test]
fn using_takes_names_as_they_are() {
    assert_eq!(
        protocol::using("USING my-tube.1\r\n".as_bytes()),
        Ok(("".as_bytes(), Msg::Using(String::from("my-tube.1"))))
    );
    assert_eq!(
        protocol::using("USING b\u{e9}ta\r\n".as_bytes()),
        Ok(("".as_bytes(), Msg::Using(String::from("b\u{e9}ta"))))
    );
    assert_eq!(
        protocol::using("USING -tube\r\n".as_bytes()),
        Err(("USING -tube\r\n".as_bytes(), ErrorKind::NotMatched))
    );
    assert_eq!(
        protocol::using("USING a b\r\n".as_bytes()),
        Err(("USING a b\r\n".as_bytes(), ErrorKind::NotMatched))
    );
    assert_eq!(
        protocol::using("USING \r\n".as_bytes()),
        Err(("USING \r\n".as_bytes(), ErrorKind::NotMatched))
    );
    let partial: &[u8] = b"USING caf\xc3";
    assert_eq!(protocol::using(partial), Err((partial, ErrorKind::EOF)));
}

fn all_kinds() -> Vec<ReplyKind> {
    vec![
        ReplyKind::Inserted,
        ReplyKind::Using,
        ReplyKind::Reserved,
        ReplyKind::OutOfMemory,
        ReplyKind::InternalError,
        ReplyKind::BadFormat,
        ReplyKind::UnknownCommand,
        ReplyKind::ExpectedCrlf,
        ReplyKind::JobTooBig,
        ReplyKind::Draining,
        ReplyKind::DeadlineSoon,
        ReplyKind::TimedOut,
        ReplyKind::NotFound,
        ReplyKind::Deleted,
        ReplyKind::Released,
        ReplyKind::Buried,
        ReplyKind::Touched,
        ReplyKind::Watching,
        ReplyKind::NotIgnored,
        ReplyKind::Found,
        ReplyKind::Kicked,
        ReplyKind::Okay,
        ReplyKind::Paused,
    ]
}

fn sample_frames() -> Vec<&'static str> {
    vec![
        "INSERTED 42\r\n",
        "USING foo\r\n",
        "RESERVED 42 3\r\n123\r\n",
        "OUT_OF_MEMORY\r\n",
        "INTERNAL_ERROR\r\n",
        "BAD_FORMAT\r\n",
        "UNKNOWN_COMMAND\r\n",
        "EXPECTED_CRLF\r\n",
        "JOB_TOO_BIG\r\n",
        "DRAINING\r\n",
        "DEADLINE_SOON\r\n",
        "TIMED_OUT\r\n",
        "NOT_FOUND\r\n",
        "DELETED\r\n",
        "RELEASED\r\n",
        "BURIED 5\r\n",
        "TOUCHED\r\n",
        "WATCHING 2\r\n",
        "NOT_IGNORED\r\n",
        "FOUND 1 1\r\nx\r\n",
        "KICKED 9\r\n",
        "OK 2\r\nhi\r\n",
        "PAUSED\r\n",
    ]
}

#[test]
fn at_most_one_recognizer_accepts() {
    let kinds = all_kinds();
    let frames = sample_frames();
    for (place, frame) in frames.iter().enumerate() {
        for (other, kind) in kinds.iter().enumerate() {
            let result = protocol::recognize_as(*kind, frame.as_bytes());
            assert_eq!(result.is_ok(), place == other);
            if place != other {
                assert_eq!(result, Err((frame.as_bytes(), ErrorKind::NotMatched)));
            }
        }
    }
}

#[test]
fn order_of_recognizers_does_not_matter() {
    let kinds = all_kinds();
    let mut inputs = sample_frames();
    inputs.extend(["GARBAGE\r\n", "USI", "", "INSERTED x\r\n", "NOT_", "OK 5\r\nab"]);
    for input in inputs {
        let forward = protocol::atomic_parse(input.as_bytes());
        let mut backward = None;
        let mut exhausted = false;
        for kind in kinds.iter().rev() {
            match protocol::recognize_as(*kind, input.as_bytes()) {
                Ok(found) => {
                    backward = Some(Ok(found));
                    break;
                }
                Err((_, ErrorKind::EOF)) => exhausted = true,
                Err((_, ErrorKind::NotMatched)) => {}
                Err(other) => {
                    backward = Some(Err(other));
                    break;
                }
            }
        }
        let backward = backward.unwrap_or(Err((
            input.as_bytes(),
            if exhausted { ErrorKind::EOF } else { ErrorKind::NotMatched },
        )));
        assert_eq!(forward, backward);
    }
}

#[test]
fn parse_appends_after_what_is_there() {
    let mut msgs = vec![Msg::Paused];
    let res = protocol::parse("DELETED\r\nKICKED 2\r\n".as_bytes(), &mut msgs);
    assert_eq!(res, Ok(("".as_bytes(), ())));
    assert_eq!(msgs, vec![Msg::Paused, Msg::Deleted, Msg::Kicked(Some(2))]);
}

#[test]
fn parse_of_nothing() {
    let mut msgs = Vec::new();
    assert_eq!(protocol::parse("".as_bytes(), &mut msgs), Ok(("".as_bytes(), ())));
    assert!(msgs.is_empty());
}

#[test]
fn parse_stops_at_garbage() {
    let mut msgs = Vec::new();
    let res = protocol::parse("DELETED\r\nGARBAGE\r\nDELETED\r\n".as_bytes(), &mut msgs);
    assert_eq!(res, Err(("GARBAGE\r\nDELETED\r\n".as_bytes(), ErrorKind::NotMatched)));
    assert_eq!(msgs, vec![Msg::Deleted]);
}

#[test]
fn parse_waits_for_the_rest_of_a_payload() {
    let mut msgs = Vec::new();
    let res = protocol::parse("USING a\r\nRESERVED 42 6\r\n1234".as_bytes(), &mut msgs);
    assert_eq!(res, Err(("RESERVED 42 6\r\n1234".as_bytes(), ErrorKind::EOF)));
    assert_eq!(msgs, vec![Msg::Using(String::from("a"))]);
    let mut grown = Vec::from("RESERVED 42 6\r\n1234");
    grown.extend_from_slice(b"56\r\n");
    let res = protocol::parse(&grown, &mut msgs);
    assert_eq!(res, Ok(("".as_bytes(), ())));
    assert_eq!(
        msgs,
        vec![Msg::Using(String::from("a")), Msg::Reserved(42, Vec::from("123456"))]
    );
}

#[test]
fn every_proper_prefix_of_a_frame_is_exhausted() {
    let mut frames = sample_frames();
    frames.extend([
        "KICKED\r\n",
        "BURIED\r\n",
        "RESERVED 1 4\r\n\r\n\r\n\r\n",
        "OK 0\r\n\r\n",
        "INSERTED 18446744073709551615\r\n",
        "USING b\u{e9}ta\r\n",
    ]);
    for frame in frames {
        let bytes = frame.as_bytes();
        assert!(matches!(protocol::atomic_parse(bytes), Ok((rest, _)) if rest.is_empty()));
        for k in 0..bytes.len() {
            assert_eq!(
                protocol::atomic_parse(&bytes[..k]),
                Err((&bytes[..k], ErrorKind::EOF)),
                "{:?} cut at {}",
                frame,
                k
            );
        }
    }
}

#[test]
fn a_frame_decodes_the_same_whatever_follows() {
    for frame in sample_frames() {
        let alone = match protocol::atomic_parse(frame.as_bytes()) {
            Ok((_, msg)) => msg,
            Err(e) => panic!("{:?}", e),
        };
        for more in ["", "\r\n", "GARBAGE", " 1", "1", "DELETED\r\n", "\u{0}"] {
            let mut joined = Vec::from(frame.as_bytes());
            joined.extend_from_slice(more.as_bytes());
            match protocol::atomic_parse(&joined) {
                Ok((rest, msg)) => {
                    assert_eq!(rest, more.as_bytes());
                    assert_eq!(msg, alone);
                }
                Err(e) => panic!("{:?}", e),
            }
        }
    }
}

#[test]
fn draining_all_frames_in_a_row() {
    let frames = sample_frames();
    let mut buffer = Vec::new();
    let mut expected = Vec::new();
    for frame in &frames {
        buffer.extend_from_slice(frame.as_bytes());
        match protocol::atomic_parse(frame.as_bytes()) {
            Ok((_, msg)) => expected.push(msg),
            Err(e) => panic!("{:?}", e),
        }
    }
    let mut msgs = Vec::new();
    assert_eq!(protocol::parse(&buffer, &mut msgs), Ok(("".as_bytes(), ())));
    assert_eq!(msgs, expected);
    buffer.extend_from_slice(b"RESERVED 7 3\r\nab");
    let mut again = Vec::new();
    assert_eq!(
        protocol::parse(&buffer, &mut again),
        Err(("RESERVED 7 3\r\nab".as_bytes(), ErrorKind::EOF))
    );
    assert_eq!(again, expected);
}

#[test]
fn payloads_come_out_as_they_went_in() {
    let payloads: Vec<Vec<u8>> = vec![
        Vec::new(),
        Vec::from("\r\n"),
        Vec::from("\r\n\r\n"),
        Vec::from("DELETED\r\n"),
        (0..=255u8).collect(),
    ];
    for data in payloads {
        let mut frame = format!("RESERVED 42 {}\r\n", data.len()).into_bytes();
        frame.extend_from_slice(&data);
        frame.extend_from_slice(b"\r\n");
        assert_eq!(
            protocol::atomic_parse(&frame),
            Ok(("".as_bytes(), Msg::Reserved(42, data.clone())))
        );
        let mut found = format!("FOUND 42 {}\r\n", data.len()).into_bytes();
        found.extend_from_slice(&data);
        found.extend_from_slice(b"\r\n");
        assert_eq!(
            protocol::atomic_parse(&found),
            Ok(("".as_bytes(), Msg::Found(42, data.clone())))
        );
    }
}

#[test]
fn decoded_numbers_are_those_encoded() {
    for n in [0u64, 1, 9, 10, 99, 100, 4294967295, 4294967296, u64::MAX] {
        let encoded = Cmd::Delete(n).encode();
        let digits = &encoded[7..encoded.len() - 2];
        assert_eq!(bsc_core::parser::u64(digits), Ok(("".as_bytes(), n)));
        let mut frame = Vec::from("INSERTED ");
        frame.extend_from_slice(digits);
        frame.extend_from_slice(b"\r\n");
        assert_eq!(protocol::atomic_parse(&frame), Ok(("".as_bytes(), Msg::Inserted(n))));
    }
}
