use my_sonic_client::frame::FrameError;
use my_sonic_client::frame::Mode;
use my_sonic_client::frame::recv::Recv;

#[test]
fn frame_parse() {
    assert_eq!(
        Recv::Connected("1.0.0".to_string()),
        Recv::parse(b"CONNECTED <sonic-server v1.0.0>\r\n").expect("Failed to parse; `CONNECTED`")
    );

    assert_eq!(
        Recv::Started(Some(Mode::Search), 20000),
        Recv::parse(b"STARTED search protocol(1) buffer(20000)\r\n")
            .expect("Failed to parse; `STARTED`")
    );

    assert_eq!(
        Recv::Pending("Bt2m2gYa".into()),
        Recv::parse(b"PENDING Bt2m2gYa\r\n").expect("Failed to parse; `PENDING`")
    );

    assert_eq!(
        Recv::Ended("quit".into()),
        Recv::parse(b"ENDED quit\r\n").expect("Failed to parse; `ENDED`")
    );

    assert_eq!(
        Recv::EventQuery(
            "Bt2m2gYa".into(),
            vec![
                "conversation:71f3d63b".into(),
                "conversation:6501e83a".into()
            ]
        ),
        Recv::parse(b"EVENT QUERY Bt2m2gYa conversation:71f3d63b conversation:6501e83a\r\n")
            .expect("Failed to parse; `EVENT QUEUE`")
    );

    assert_eq!(
        Recv::EventSuggest("z98uDE0f".into(), vec!["valerian".into(), "valala".into()]),
        Recv::parse(b"EVENT SUGGEST z98uDE0f valerian valala\r\n")
            .expect("Failed to parse; `EVENT SUGGEST`")
    );

    assert_eq!(
        Recv::Error(" invalid_format(PUSH <collection> <bucket> <object> \"<text>\")".to_string()),
        Recv::parse(b"ERR invalid_format(PUSH <collection> <bucket> <object> \"<text>\")\r\n")
            .expect("Failed to parse; `ERR`")
    );
}

#[test]
fn parse_simple_replies() {
    assert_eq!(Recv::Okay, Recv::parse(b"OK\r\n").expect("Failed to parse; `OK`"));
    assert_eq!(Recv::Pong, Recv::parse(b"PONG\r\n").expect("Failed to parse; `PONG`"));
}

#[test]
fn parse_event_query_exact_keys() {
    let reply = Recv::parse(b"EVENT QUERY Bt2m2gYa conversation:71f3d63b conversation:6501e83a\r\n")
        .expect("Failed to parse; `EVENT QUERY`");
    match reply {
        Recv::EventQuery(id, keys) => {
            assert_eq!(id, "Bt2m2gYa");
            assert_eq!(keys.len(), 2);
            assert_eq!(keys[0], "conversation:71f3d63b");
            assert_eq!(keys[1], "conversation:6501e83a");
        }
        other => panic!("expected EventQuery, got {:?}", other),
    }
}

#[test]
fn parse_incomplete_line() {
    assert_eq!(Err(FrameError::Incomplete), Recv::parse(b"CONNECTED <sonic-serv"));
    // A CR as the very last byte is not a terminator yet.
    assert_eq!(Err(FrameError::Incomplete), Recv::parse(b"PING\r"));
    assert_eq!(Err(FrameError::Incomplete), Recv::parse(b""));
}

#[test]
fn parse_malformed_version() {
    assert_eq!(
        Err(FrameError::Invalid),
        Recv::parse(b"CONNECTED <sonic-server v1.0>\r\n")
    );
    assert_eq!(
        Err(FrameError::Invalid),
        Recv::parse(b"CONNECTED <sonic-server 1.0.0\r\n")
    );
    assert_eq!(Err(FrameError::Invalid), Recv::parse(b"CONNECTED\r\n"));
}

#[test]
fn parse_malformed_started() {
    // Missing parenthesized size.
    assert_eq!(
        Err(FrameError::Invalid),
        Recv::parse(b"STARTED search protocol(1) buffer\r\n")
    );
    // Non-numeric size.
    assert_eq!(
        Err(FrameError::Invalid),
        Recv::parse(b"STARTED search protocol(1) buffer(20k)\r\n")
    );
    // Empty digits.
    assert_eq!(
        Err(FrameError::Invalid),
        Recv::parse(b"STARTED search protocol(1) buffer()\r\n")
    );
    // A size that does not fit 64 bits.
    assert_eq!(
        Err(FrameError::Invalid),
        Recv::parse(b"STARTED search protocol(1) buffer(18446744073709551616)\r\n")
    );
}

#[test]
fn parse_started_u64_boundary() {
    assert_eq!(
        Recv::Started(Some(Mode::Ingest), u64::MAX),
        Recv::parse(b"STARTED ingest protocol(1) buffer(18446744073709551615)\r\n")
            .expect("Failed to parse; `STARTED`")
    );
}

#[test]
fn parse_started_unrecognized_mode() {
    // An unknown mode token is a forward-compatibility fallback, not an error.
    assert_eq!(
        Recv::Started(None, 16384),
        Recv::parse(b"STARTED control protocol(1) buffer(16384)\r\n")
            .expect("Failed to parse; `STARTED`")
    );
}

#[test]
fn parse_unknown_verb_is_invalid() {
    assert_eq!(Err(FrameError::Invalid), Recv::parse(b"HELLO world\r\n"));
    assert_eq!(Err(FrameError::Invalid), Recv::parse(b"\r\n"));
    assert_eq!(Err(FrameError::Invalid), Recv::parse(b"   \r\n"));
}

#[test]
fn parse_missing_fields_is_invalid() {
    assert_eq!(Err(FrameError::Invalid), Recv::parse(b"PENDING\r\n"));
    assert_eq!(Err(FrameError::Invalid), Recv::parse(b"ENDED\r\n"));
    assert_eq!(Err(FrameError::Invalid), Recv::parse(b"EVENT QUERY\r\n"));
    assert_eq!(Err(FrameError::Invalid), Recv::parse(b"EVENT PING x\r\n"));
}

#[test]
fn parse_utf8_id() {
    // Multi-byte UTF-8 text survives decoding intact.
    assert_eq!(
        Recv::Pending("caf\u{e9}".to_string()),
        Recv::parse("PENDING caf\u{e9}\r\n".as_bytes()).expect("Failed to parse; `PENDING`")
    );
    // A truncated UTF-8 sequence in a complete line is invalid, not a panic.
    assert_eq!(Err(FrameError::Invalid), Recv::parse(b"PENDING caf\xc3\r\n"));
}

#[test]
fn parse_err_preserves_leading_space() {
    let reply = Recv::parse(b"ERR invalid_format(PUSH <collection> <bucket> <object> \"<text>\")\r\n")
        .expect("Failed to parse; `ERR`");
    match reply {
        Recv::Error(message) => {
            assert!(message.starts_with(' '));
            assert_eq!(
                message,
                " invalid_format(PUSH <collection> <bucket> <object> \"<text>\")"
            );
        }
        other => panic!("expected Error, got {:?}", other),
    }
}

#[test]
fn check_reports_consumed_length() {
    assert_eq!(Ok(6), Recv::check(b"PING\r\nPONG\r\n"));
    assert_eq!(Err(FrameError::Incomplete), Recv::check(b"PING"));
}
