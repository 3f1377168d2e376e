use rschat::address::PeerAddr;
use rschat::codec::Codec;
use rschat::event::ServerEvent;
use rschat::handler::{ConnectionHandler, HandlerState, ReadOutcome};
use rschat::hub::Hub;
use rschat::message::{Message, Timestamp};

fn peer() -> PeerAddr {
    PeerAddr::V4 { ip: 0x0a00_0001, port: 50_000 }
}

fn text(body: &str, author: &str) -> Message {
    Message::new(
        body.to_string(),
        Timestamp { secs_since_epoch: 10, nanos_since_epoch: 20 },
        author.to_string(),
    )
}

fn reading(codec: Codec) -> ConnectionHandler {
    let mut handler = ConnectionHandler::new(peer(), codec);
    handler.announced(true);
    handler
}

/// The events as plain values: `Ok(body)` for a message, `Err(())` for a disconnect.
fn plain(events: Vec<ServerEvent<()>>) -> Vec<Result<String, ()>> {
    events
        .into_iter()
        .map(|event| match event {
            ServerEvent::Inbound(addr, message) => {
                assert_eq!(addr, peer());
                Ok(message.body)
            }
            ServerEvent::Disconnected(addr) => {
                assert_eq!(addr, peer());
                Err(())
            }
            ServerEvent::Connected(_) => panic!("a read never announces"),
        })
        .collect()
}

#[test]
fn handler_starts_by_announcing() {
    let handler = ConnectionHandler::new(peer(), Codec::default());
    assert_eq!(handler.state(), HandlerState::Announcing);
    assert_eq!(handler.addr(), peer());
    assert!(!handler.is_closed());
    match handler.announcement(7u8) {
        ServerEvent::Connected(conn) => {
            assert_eq!(conn.addr, peer());
            assert_eq!(conn.handle, 7);
        }
        _ => panic!("the announcement is a connect"),
    }
}

#[test]
fn announcement_that_arrives_starts_the_reading() {
    let mut handler = ConnectionHandler::new(peer(), Codec::default());
    handler.announced(true);
    assert_eq!(handler.state(), HandlerState::Reading);
    handler.announced(false);
    assert_eq!(handler.state(), HandlerState::Reading);
}

#[test]
fn announcement_that_fails_closes_without_reading() {
    let mut handler = ConnectionHandler::new(peer(), Codec::default());
    handler.announced(false);
    assert_eq!(handler.state(), HandlerState::Closed);
    assert!(handler.is_closed());
    handler.announced(true);
    assert_eq!(handler.state(), HandlerState::Closed);
    let frame = Codec::default().encode(&text("hi", "A")).unwrap();
    assert!(plain(handler.on_read(ReadOutcome::Data(frame))).is_empty());
}

#[test]
fn a_read_before_the_announcement_is_ignored() {
    let mut handler = ConnectionHandler::new(peer(), Codec::default());
    let frame = Codec::default().encode(&text("hi", "A")).unwrap();
    assert!(plain(handler.on_read(ReadOutcome::Data(frame))).is_empty());
    assert!(plain(handler.on_read(ReadOutcome::Data(Vec::new()))).is_empty());
    assert_eq!(handler.state(), HandlerState::Announcing);
}

#[test]
fn end_of_stream_disconnects() {
    let mut handler = reading(Codec::default());
    assert_eq!(plain(handler.on_read(ReadOutcome::Data(Vec::new()))), vec![Err(())]);
    assert_eq!(handler.state(), HandlerState::Closed);
    assert!(plain(handler.on_read(ReadOutcome::Data(Vec::new()))).is_empty());
}

#[test]
fn would_block_emits_nothing() {
    let mut handler = reading(Codec::default());
    assert!(plain(handler.on_read(ReadOutcome::WouldBlock)).is_empty());
    assert_eq!(handler.state(), HandlerState::Reading);
}

#[test]
fn a_failed_read_disconnects() {
    let mut handler = reading(Codec::default());
    assert_eq!(plain(handler.on_read(ReadOutcome::Failed)), vec![Err(())]);
    assert_eq!(handler.state(), HandlerState::Closed);
    assert!(plain(handler.on_read(ReadOutcome::Failed)).is_empty());
}

#[test]
fn a_failed_send_closes() {
    let mut handler = reading(Codec::default());
    handler.send_failed();
    assert_eq!(handler.state(), HandlerState::Closed);
    let frame = Codec::default().encode(&text("hi", "A")).unwrap();
    assert!(plain(handler.on_read(ReadOutcome::Data(frame))).is_empty());
}

#[test]
fn one_frame_in_one_read_is_one_message() {
    let codec = Codec::default();
    let mut handler = reading(codec);
    let frame = codec.encode(&text("hi", "A")).unwrap();
    let events: Vec<ServerEvent<()>> = handler.on_read(ReadOutcome::Data(frame));
    assert_eq!(events.len(), 1);
    match &events[0] {
        ServerEvent::Inbound(addr, message) => {
            assert_eq!(*addr, peer());
            assert!(message.same(&text("hi", "A")));
        }
        _ => panic!("a message was read"),
    }
    assert_eq!(handler.state(), HandlerState::Reading);
}

#[test]
fn frames_batched_in_one_read_come_out_in_order() {
    let codec = Codec::default();
    let mut handler = reading(codec);
    let mut bytes = Vec::new();
    for body in ["one", "two", "three"] {
        bytes.extend(codec.encode(&text(body, "A")).unwrap());
    }
    assert_eq!(
        plain(handler.on_read(ReadOutcome::Data(bytes))),
        vec![Ok("one".to_string()), Ok("two".to_string()), Ok("three".to_string())]
    );
    assert_eq!(handler.state(), HandlerState::Reading);
}

#[test]
fn a_frame_split_over_reads_is_put_together() {
    let codec = Codec::default();
    let frame = codec.encode(&text("split", "A")).unwrap();
    for cut in 1..frame.len() {
        let mut handler = reading(codec);
        assert!(plain(handler.on_read(ReadOutcome::Data(frame[..cut].to_vec()))).is_empty());
        assert!(plain(handler.on_read(ReadOutcome::WouldBlock)).is_empty());
        assert_eq!(
            plain(handler.on_read(ReadOutcome::Data(frame[cut..].to_vec()))),
            vec![Ok("split".to_string())]
        );
        assert_eq!(handler.state(), HandlerState::Reading);
    }
}

#[test]
fn any_cutting_of_the_stream_gives_the_same_events() {
    let codec = Codec::default();
    let mut stream = Vec::new();
    for body in ["one", "two", "three", "four"] {
        stream.extend(codec.encode(&text(body, "A")).unwrap());
    }
    stream.extend_from_slice(&[0, 0, 0, 3, b'{']);
    let mut whole = reading(codec);
    let expected = plain(whole.on_read(ReadOutcome::Data(stream.clone())));
    assert_eq!(expected.len(), 4);
    for size in [1usize, 2, 3, 5, 7, 64, 100] {
        let mut handler = reading(codec);
        let mut seen = Vec::new();
        for chunk in stream.chunks(size) {
            seen.extend(plain(handler.on_read(ReadOutcome::Data(chunk.to_vec()))));
        }
        assert_eq!(seen, expected);
        assert_eq!(handler.state(), HandlerState::Reading);
    }
}

#[test]
fn byte_by_byte_delivery_of_a_frame() {
    let codec = Codec::default();
    let frame = codec.encode(&text("slow", "A")).unwrap();
    let mut handler = reading(codec);
    let last = frame.len() - 1;
    for (i, byte) in frame.iter().enumerate() {
        let events = plain(handler.on_read(ReadOutcome::Data(vec![*byte])));
        if i < last {
            assert!(events.is_empty());
        } else {
            assert_eq!(events, vec![Ok("slow".to_string())]);
        }
    }
}

#[test]
fn an_oversized_length_disconnects_before_any_payload() {
    let mut handler = reading(Codec::new(100));
    assert_eq!(plain(handler.on_read(ReadOutcome::Data(vec![0, 0, 0, 101]))), vec![Err(())]);
    assert_eq!(handler.state(), HandlerState::Closed);
}

#[test]
fn a_payload_that_is_not_utf8_disconnects() {
    let mut handler = reading(Codec::default());
    assert_eq!(
        plain(handler.on_read(ReadOutcome::Data(vec![0, 0, 0, 2, 0xff, 0xfe]))),
        vec![Err(())]
    );
    assert_eq!(handler.state(), HandlerState::Closed);
}

#[test]
fn messages_before_a_malformed_frame_are_still_emitted() {
    let codec = Codec::default();
    let mut bytes = codec.encode(&text("good", "A")).unwrap();
    bytes.extend_from_slice(&[0, 0, 0, 4, b'j', b'u', b'n', b'k']);
    bytes.extend(codec.encode(&text("never", "A")).unwrap());
    let mut handler = reading(codec);
    assert_eq!(
        plain(handler.on_read(ReadOutcome::Data(bytes))),
        vec![Ok("good".to_string()), Err(())]
    );
    assert_eq!(handler.state(), HandlerState::Closed);
    let more = codec.encode(&text("late", "A")).unwrap();
    assert!(plain(handler.on_read(ReadOutcome::Data(more))).is_empty());
}

#[test]
fn a_malformed_frame_ends_only_its_own_connection() {
    let codec = Codec::default();
    let other = PeerAddr::V4 { ip: 0x0a00_0002, port: 50_001 };
    let mut hub: Hub<u8> = Hub::new(codec);
    let bad = ConnectionHandler::new(peer(), codec);
    let good = ConnectionHandler::new(other, codec);
    assert!(hub.handle(bad.announcement(1)).is_none());
    assert!(hub.handle(good.announcement(2)).is_none());
    let mut bad = bad;
    bad.announced(true);
    let mut good = good;
    good.announced(true);

    for event in bad.on_read::<u8>(ReadOutcome::Data(vec![255, 255, 255, 255])) {
        assert!(hub.handle(event).is_none());
    }
    assert!(bad.is_closed());
    assert!(!hub.registry().contains(peer()));
    assert!(hub.registry().contains(other));

    let frame = codec.encode(&text("still here", "B")).unwrap();
    let mut events = good.on_read::<u8>(ReadOutcome::Data(frame));
    assert_eq!(events.len(), 1);
    let broadcast = hub.handle(events.remove(0)).unwrap();
    assert_eq!(broadcast.recipients().len(), 0);
    assert!(!good.is_closed());
}
