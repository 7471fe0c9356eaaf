use my_sonic_client::engine::Engine;
use my_sonic_client::frame::FrameError;
use my_sonic_client::frame::Mode;
use my_sonic_client::frame::recv::Recv;

#[test]
fn drains_replies_in_order() {
    let mut engine = Engine::new();
    engine.feed(b"CONNECTED <sonic-server v1.0.0>\r\nSTARTED search protocol(1) buffer(20000)\r\n");
    assert_eq!(Ok(Recv::Connected("1.0.0".to_string())), engine.try_next());
    assert_eq!(Ok(Recv::Started(Some(Mode::Search), 20000)), engine.try_next());
    assert_eq!(Err(FrameError::Incomplete), engine.try_next());
    assert_eq!(0, engine.buffered());
}

#[test]
fn chunked_reads_decode_identically() {
    // Split the same stream at every byte offset: the replies must come
    // out identical to feeding it whole.
    let stream: &[u8] =
        b"PENDING Bt2m2gYa\r\nEVENT QUERY Bt2m2gYa conversation:71f3d63b conversation:6501e83a\r\n";

    let mut whole = Engine::new();
    whole.feed(stream);
    let mut expected = Vec::new();
    loop {
        match whole.try_next() {
            Ok(reply) => expected.push(reply),
            Err(FrameError::Incomplete) => break,
            Err(e) => panic!("unexpected decode failure: {:?}", e),
        }
    }
    assert_eq!(2, expected.len());

    for split in 0..=stream.len() {
        let mut engine = Engine::new();
        let mut got = Vec::new();
        for chunk in [&stream[..split], &stream[split..]] {
            engine.feed(chunk);
            loop {
                match engine.try_next() {
                    Ok(reply) => got.push(reply),
                    Err(FrameError::Incomplete) => break,
                    Err(e) => panic!("unexpected decode failure: {:?}", e),
                }
            }
        }
        assert_eq!(expected, got, "replies differ when split at offset {}", split);
        assert_eq!(0, engine.buffered());
    }
}

#[test]
fn eof_with_empty_buffer_is_clean_shutdown() {
    let engine = Engine::new();
    assert_eq!(Ok(Recv::Ended("Remote".to_string())), engine.on_eof());
}

#[test]
fn eof_with_partial_frame_is_truncated() {
    let mut engine = Engine::new();
    engine.feed(b"PENDING Bt2m");
    assert_eq!(Err(FrameError::Truncated), engine.on_eof());
}

#[test]
fn invalid_line_is_consumed() {
    // A malformed line is reported, and the connection stays structurally
    // usable for the next line.
    let mut engine = Engine::new();
    engine.feed(b"HELLO world\r\nPONG\r\n");
    assert_eq!(Err(FrameError::Invalid), engine.try_next());
    assert_eq!(Ok(Recv::Pong), engine.try_next());
}

#[test]
fn incomplete_line_waits_for_more_bytes() {
    let mut engine = Engine::new();
    engine.feed(b"ENDED qu");
    assert_eq!(Err(FrameError::Incomplete), engine.try_next());
    engine.feed(b"it\r\n");
    assert_eq!(Ok(Recv::Ended("quit".to_string())), engine.try_next());
}
