use bytes::{Bytes, BytesMut};
use ratchet::protocol::{ControlCode, DataCode, HeaderFlags, OpCode};
use ratchet::identity::Connections;
use ratchet::split::{Receiver, Sender, Shared};
use ratchet::{
    CloseCause, CloseCode, CloseReason, CloseState, Failure, Message, MessageType, NoExt,
    NoExtDecoder, NoExtEncoder, PayloadType, ReadStep, Role, WebSocket, WebSocketConfig,
};
use std::convert::Infallible;

type Outcome = Result<Message, Failure<Infallible>>;

/// One end of a connection: its halves, and the bytes on their way to it.
struct End {
    tx: Sender<NoExtEncoder>,
    rx: Receiver<NoExtDecoder>,
    shared: Shared,
    incoming: Vec<u8>,
    broken: bool,
    shutdown: bool,
}

fn end(role: Role, connections: &mut Connections) -> End {
    let socket = WebSocket::from_upgraded(
        WebSocketConfig::default(),
        Some(NoExt),
        BytesMut::new(),
        role,
    );
    let (tx, rx, shared) = match socket.split(connections) {
        Ok(halves) => halves,
        Err(e) => panic!("Split failure: {:?}", e),
    };
    End {
        tx,
        rx,
        shared,
        incoming: Vec::new(),
        broken: false,
        shutdown: false,
    }
}

fn fixture() -> (End, End) {
    let mut connections = Connections::new();
    (
        end(Role::Client, &mut connections),
        end(Role::Server, &mut connections),
    )
}

/// Sends what `from` has to send to `to`. Fails if the connection is broken.
fn flush(from: &mut End, to: &mut End) -> bool {
    if from.broken {
        return false;
    }
    to.incoming.extend_from_slice(from.shared.unsent());
    from.shared.sent();
    true
}

/// Reads at `at`, with the connection to `peer` at hand.
fn read(at: &mut End, peer: &mut End, buf: &mut BytesMut) -> Outcome {
    let mut step = at.rx.read(&mut at.shared, buf);
    loop {
        step = match step {
            ReadStep::Need(count) => {
                if at.incoming.len() < count {
                    at.rx.read_failed(&mut at.shared, "unexpected end of file".to_string())
                } else {
                    let bytes: Vec<u8> = at.incoming.drain(..count).collect();
                    at.rx.supply(&bytes);
                    at.rx.read(&mut at.shared, buf)
                }
            }
            ReadStep::Done { result, shutdown } => {
                at.shutdown |= shutdown;
                flush(at, peer);
                return result;
            }
            ReadStep::Closing { result } => {
                let sent = flush(at, peer);
                at.shutdown |= at.rx.close_sent(&mut at.shared, sent);
                return result;
            }
        };
    }
}

fn failure(outcome: Outcome) -> ratchet::Error {
    match outcome {
        Err(Failure::Core(e)) => e,
        other => panic!("Expected an error, got {:?}", other),
    }
}

fn frame(from: &mut End, payload: &[u8], opcode: OpCode, fin: bool) -> Vec<u8> {
    let mut writer = ratchet::framed::FramedWrite::default();
    let flags = if fin {
        HeaderFlags::final_frame()
    } else {
        HeaderFlags::empty()
    };
    writer.write(from.tx.role().is_server(), opcode, flags, BytesMut::from(payload));
    writer.unsent().to_vec()
}

#[test]
fn bounds() {
    fn is<T: Send + Sync + Unpin>() {}

    is::<Sender<NoExt>>();
    is::<Receiver<NoExt>>();
}

#[test]
fn ping_pong() {
    let (mut client, mut server) = fixture();
    let payload = "ping!";
    client
        .tx
        .write_ping(&mut client.shared, payload.as_bytes())
        .expect("Send failed.");
    flush(&mut client, &mut server);

    let mut read_buf = BytesMut::new();
    let message = read(&mut server, &mut client, &mut read_buf).expect("Read failure");

    assert_eq!(message, Message::Ping(Bytes::from("ping!")));
    assert!(read_buf.is_empty());

    let message = read(&mut client, &mut server, &mut read_buf).expect("Read failure");
    assert_eq!(message, Message::Pong(Bytes::from("ping!")));
    assert!(read_buf.is_empty());
}

#[test]
fn reads_unsolicited_pong() {
    let (mut client, mut server) = fixture();
    let payload = "pong!";

    let mut read_buf = BytesMut::new();
    server
        .tx
        .write_pong(&mut server.shared, payload.as_bytes())
        .expect("Write failure");
    flush(&mut server, &mut client);

    let message = read(&mut client, &mut server, &mut read_buf).expect("Read failure");
    assert_eq!(message, Message::Pong(Bytes::from(payload)));
    assert!(read_buf.is_empty());
}

#[test]
fn empty_control_frame() {
    let (mut client, mut server) = fixture();

    let mut read_buf = BytesMut::new();
    server.tx.write_pong(&mut server.shared, &[]).expect("Write failure");
    flush(&mut server, &mut client);

    let message = read(&mut client, &mut server, &mut read_buf).expect("Read failure");
    assert_eq!(message, Message::Pong(Bytes::new()));
    assert!(read_buf.is_empty());
}

#[test]
fn interleaved_control_frames() {
    let (mut client, mut server) = fixture();
    let control_data = "data";

    for (payload, opcode, fin) in [
        ("123", OpCode::DataCode(DataCode::Text), false),
        ("456", OpCode::DataCode(DataCode::Continuation), false),
        (control_data, OpCode::ControlCode(ControlCode::Ping), true),
        (control_data, OpCode::ControlCode(ControlCode::Pong), true),
        ("789", OpCode::DataCode(DataCode::Continuation), true),
    ] {
        let bytes = frame(&mut client, payload.as_bytes(), opcode, fin);
        server.incoming.extend_from_slice(&bytes);
    }

    let mut buf = BytesMut::new();
    let message = read(&mut server, &mut client, &mut buf).expect("Read failure");

    assert_eq!(message, Message::Ping(Bytes::from(control_data)));
    assert!(!buf.is_empty());

    let message = read(&mut server, &mut client, &mut buf).expect("Read failure");

    assert_eq!(message, Message::Pong(Bytes::from(control_data)));
    assert!(!buf.is_empty());

    let message = read(&mut server, &mut client, &mut buf).expect("Read failure");

    assert_eq!(message, Message::Text);
    assert!(!buf.is_empty());

    assert_eq!(
        String::from_utf8(buf.to_vec()).expect("Malformatted data received"),
        "123456789"
    );
}

#[test]
fn large_control_frames() {
    {
        let (mut client, _server) = fixture();
        match client.tx.write_ping(&mut client.shared, &[13; 256]) {
            Err(Failure::Core(error)) => assert!(error.is_protocol()),
            other => panic!("Expected an error, got {:?}", other),
        }
    }
    {
        let (mut client, mut server) = fixture();
        let bytes = frame(
            &mut server,
            &[13; 256],
            OpCode::ControlCode(ControlCode::Pong),
            true,
        );
        client.incoming.extend_from_slice(&bytes);

        let error = failure(read(&mut client, &mut server, &mut BytesMut::new()));
        assert!(error.is_protocol());
    }
}

#[test]
fn closes_cleanly() {
    let (mut client, mut server) = fixture();

    let reason = CloseReason::new(CloseCode::GoingAway, Some("Bonsoir, Elliot".to_string()));

    client
        .tx
        .close(&mut client.shared, reason.clone())
        .expect("Close failure");
    flush(&mut client, &mut server);

    let mut buf = BytesMut::new();
    let message = read(&mut server, &mut client, &mut buf).expect("Read failure");

    assert_eq!(message, Message::Close(Some(reason)));
    assert!(buf.is_empty());
}

#[test]
fn drop_end() {
    let (mut client, mut server) = fixture();

    let mut buf = BytesMut::new();
    let err = failure(read(&mut server, &mut client, &mut buf));
    assert!(err.is_io());
}

#[test]
fn after_close() {
    let (mut client, mut server) = fixture();
    let reason = CloseReason::new(CloseCode::Normal, None);

    client
        .tx
        .close(&mut client.shared, reason.clone())
        .expect("Close failure");
    client
        .tx
        .write_ping(&mut client.shared, &[])
        .expect_err("Expected a write failure");
    flush(&mut client, &mut server);

    let mut buf = BytesMut::new();
    let message = read(&mut server, &mut client, &mut buf).expect("Read failure");

    assert_eq!(message, Message::Close(Some(reason.clone())));
    assert!(buf.is_empty());

    let error = failure(read(&mut client, &mut server, &mut buf));
    assert!(error.is_close());

    let source = error.close_cause().unwrap();
    assert_eq!(source, CloseCause::Stopped);
}

#[test]
fn close_code_disagreement() {
    let (mut client, mut server) = fixture();

    let mut writer = ratchet::framed::FramedWrite::default();
    writer.write_close(false, CloseReason::new(CloseCode::Normal, None));
    server.incoming.extend_from_slice(writer.unsent());

    let mut writer = ratchet::framed::FramedWrite::default();
    writer.write_close(true, CloseReason::new(CloseCode::Protocol, None));
    client.incoming.extend_from_slice(writer.unsent());

    let mut buf = BytesMut::new();
    let message = read(&mut client, &mut server, &mut buf).expect("Read failure");
    assert_eq!(
        message,
        Message::Close(Some(CloseReason::new(CloseCode::Protocol, None)))
    );

    let message = read(&mut server, &mut client, &mut buf).expect("Read failure");
    assert_eq!(
        message,
        Message::Close(Some(CloseReason::new(CloseCode::Normal, None)))
    );
}

#[test]
fn read_before_close() {
    let (mut client, mut server) = fixture();
    let reason = CloseReason::new(CloseCode::Normal, Some("reason".to_string()));

    server
        .rx
        .close(&mut server.shared, reason.clone())
        .expect("Write failure");
    flush(&mut server, &mut client);

    for i in 0..5 {
        client
            .tx
            .write_text(&mut client.shared, &i.to_string())
            .expect("Write failure");
    }
    flush(&mut client, &mut server);

    let mut buf = BytesMut::new();
    let message = read(&mut client, &mut server, &mut buf).expect("Read failure");

    assert_eq!(message, Message::Close(Some(reason)));

    let mut buf = BytesMut::new();

    for _ in 0..5 {
        let message = read(&mut server, &mut client, &mut buf).expect("Read failure");
        assert_eq!(message, Message::Text);
    }

    let err = failure(read(&mut server, &mut client, &mut buf));

    assert!(err.is_close())
}

#[test]
fn close_then_err() {
    let (mut client, mut server) = fixture();
    client
        .tx
        .close(&mut client.shared, CloseReason::new(CloseCode::Normal, None))
        .expect("Write error");

    let mut buf = BytesMut::new();
    read(&mut client, &mut server, &mut buf).expect_err("Expected a broken connection");
}

#[test]
fn reuse_after_closure() {
    let (mut client, mut server) = fixture();
    let reason = CloseReason::new(CloseCode::Normal, None);

    client
        .tx
        .close(&mut client.shared, reason.clone())
        .expect("Write failure");
    flush(&mut client, &mut server);

    let mut buf = BytesMut::new();
    let message = read(&mut server, &mut client, &mut buf).expect("Read failure");

    assert_eq!(message, Message::Close(Some(reason.clone())));
    assert!(buf.is_empty());

    let err = failure(read(&mut client, &mut server, &mut buf));
    assert!(err.is_close());
    assert_eq!(err.close_cause().unwrap(), CloseCause::Stopped);

    let err = failure(read(&mut client, &mut server, &mut buf));
    assert!(err.is_close());
    assert_eq!(err.close_cause().unwrap(), CloseCause::Error);
}

#[test]
fn server_shuts_down_after_the_echo() {
    let (mut client, mut server) = fixture();
    server
        .tx
        .close(&mut server.shared, CloseReason::new(CloseCode::Normal, None))
        .expect("Close failure");
    flush(&mut server, &mut client);

    let mut buf = BytesMut::new();
    read(&mut client, &mut server, &mut buf).expect("Read failure");
    assert!(!client.shutdown);
    failure(read(&mut server, &mut client, &mut buf));
    assert!(server.shutdown);
    assert!(server.rx.is_closed(&server.shared));
    assert!(server.rx.is_active(&server.shared));
}

#[test]
fn close_that_cannot_be_sent() {
    let (mut client, mut server) = fixture();
    let reason = CloseReason::new(CloseCode::Normal, None);
    client
        .tx
        .close(&mut client.shared, reason.clone())
        .expect("Close failure");
    flush(&mut client, &mut server);
    server.broken = true;

    let message = read(&mut server, &mut client, &mut BytesMut::new()).expect("Read failure");
    assert_eq!(message, Message::Close(Some(reason)));
    assert!(server.shutdown);
    assert!(server.tx.is_closed(&server.shared));
}

#[test]
fn close_is_echoed_with_its_code() {
    let (mut client, mut server) = fixture();
    client
        .tx
        .close(
            &mut client.shared,
            CloseReason::new(CloseCode::GoingAway, Some("bye".to_string())),
        )
        .expect("Close failure");
    flush(&mut client, &mut server);
    read(&mut server, &mut client, &mut BytesMut::new()).expect("Read failure");
    assert_eq!(client.incoming, vec![0x88, 2, 3, 233]);
}

#[test]
fn close_without_a_reason() {
    let (mut client, mut server) = fixture();
    client.incoming.extend_from_slice(&[0x88, 0]);
    assert!(!client.tx.is_active(&client.shared));
    assert!(!client.rx.is_active(&client.shared));
    let message = read(&mut client, &mut server, &mut BytesMut::new()).expect("Read failure");
    assert_eq!(message, Message::Close(None));
    assert!(client.tx.is_active(&client.shared));
    assert!(client.rx.is_active(&client.shared));
    assert!(!client.tx.is_closed(&client.shared));
}

#[test]
fn second_close_fails() {
    let (mut client, _server) = fixture();
    let reason = CloseReason::new(CloseCode::Normal, None);
    client
        .tx
        .close(&mut client.shared, reason.clone())
        .expect("Close failure");
    let error = client.rx.close(&mut client.shared, reason).unwrap_err();
    assert!(error.is_close());
    assert_eq!(error.close_cause(), Some(CloseCause::Error));
}

#[test]
fn fragmented_message_is_read_whole() {
    let (mut client, mut server) = fixture();
    client
        .tx
        .write_fragmented(&mut client.shared, b"Hello, world!", MessageType::Text, 4)
        .expect("Write failure");
    flush(&mut client, &mut server);
    let mut buf = BytesMut::new();
    let message = read(&mut server, &mut client, &mut buf).expect("Read failure");
    assert_eq!(message, Message::Text);
    assert_eq!(buf.as_ref(), b"Hello, world!");
}

#[test]
fn fragments_have_their_codes() {
    let (_client, mut server) = fixture();
    server
        .tx
        .write_fragmented(&mut server.shared, b"abcde", MessageType::Binary, 2)
        .expect("Write failure");
    assert_eq!(
        server.shared.unsent(),
        &[2, 2, b'a', b'b', 0, 2, b'c', b'd', 0x80, 1, b'e'][..]
    );
}

#[test]
fn short_message_is_not_fragmented() {
    let (_client, mut server) = fixture();
    server
        .tx
        .write_fragmented(&mut server.shared, b"", MessageType::Text, 2)
        .expect("Write failure");
    server
        .tx
        .write_fragmented(&mut server.shared, b"ab", MessageType::Text, 2)
        .expect("Write failure");
    assert_eq!(server.shared.unsent(), &[0x81, 0, 0x81, 2, b'a', b'b'][..]);
}

#[test]
fn fragments_may_be_sent_while_closing() {
    let (mut client, _server) = fixture();
    client
        .tx
        .close(&mut client.shared, CloseReason::new(CloseCode::Normal, None))
        .expect("Close failure");
    assert!(client
        .tx
        .write_fragmented(&mut client.shared, b"abc", MessageType::Text, 2)
        .is_ok());
    assert!(client
        .tx
        .write(&mut client.shared, b"abc", PayloadType::Text)
        .is_err());
}

#[test]
fn halves_are_reunited() {
    let (client, _server) = fixture();
    let socket: WebSocket<NoExt> = match client.tx.reunite(client.rx, client.shared) {
        Ok(socket) => socket,
        Err(_) => panic!("Reunite failure"),
    };
    assert_eq!(socket.role(), Role::Client);
    assert!(socket.is_open());
}

#[test]
fn strangers_are_not_reunited() {
    let (client, server) = fixture();
    match client.tx.reunite::<NoExt>(server.rx, server.shared) {
        Ok(_) => panic!("Reunited halves of different connections"),
        Err(e) => {
            assert_eq!(e.sender.role(), Role::Client);
            assert_eq!(e.receiver.role(), Role::Server);
            assert!(e.shared.is_open());
        }
    }
}

#[test]
fn reunited_socket_remembers_closing() {
    let (mut client, _server) = fixture();
    client
        .tx
        .close(&mut client.shared, CloseReason::new(CloseCode::Normal, None))
        .expect("Close failure");
    let pending = client.shared.unsent().to_vec();
    let socket: WebSocket<NoExt> = match client.tx.reunite(client.rx, client.shared) {
        Ok(socket) => socket,
        Err(_) => panic!("Reunite failure"),
    };
    assert!(!socket.is_open());
    assert!(!socket.is_closed());
    assert_eq!(socket.unsent(), &pending[..]);
}

fn socket_read(
    at: &mut WebSocket<NoExt>,
    incoming: &mut Vec<u8>,
    buf: &mut BytesMut,
) -> Outcome {
    loop {
        match at.read(buf) {
            ReadStep::Need(count) => {
                let bytes: Vec<u8> = incoming.drain(..count).collect();
                at.supply(&bytes);
            }
            ReadStep::Done { result, .. } => return result,
            ReadStep::Closing { result } => {
                at.close_sent(true);
                return result;
            }
        }
    }
}

fn sockets() -> (WebSocket<NoExt>, WebSocket<NoExt>) {
    let config = WebSocketConfig::default();
    (
        WebSocket::from_upgraded(config, Some(NoExt), BytesMut::new(), Role::Client),
        WebSocket::from_upgraded(config, Some(NoExt), BytesMut::new(), Role::Server),
    )
}

#[test]
fn reads_ping() {
    let (mut client, mut server) = sockets();
    let payload = "ping!";
    client
        .write(payload.as_bytes(), PayloadType::Ping)
        .expect("Send failed.");
    let mut wire = client.unsent().to_vec();

    let mut read_buf = BytesMut::new();
    let message = socket_read(&mut server, &mut wire, &mut read_buf).expect("Read failure");

    assert_eq!(message, Message::Ping(Bytes::from("ping!")));
    assert!(read_buf.is_empty());
}

#[test]
fn closed_socket_cannot_be_split() {
    let (_client, mut server) = sockets();
    server.close(CloseReason::new(CloseCode::Normal, None)).unwrap();
    let mut echo = {
        let (mut peer, _) = sockets();
        peer.close(CloseReason::new(CloseCode::Normal, None)).unwrap();
        peer.unsent().to_vec()
    };
    socket_read(&mut server, &mut echo, &mut BytesMut::new()).expect_err("Expected a closure");
    assert!(server.is_closed());
    match server.split(&mut Connections::new()) {
        Ok(_) => panic!("A closed socket was split"),
        Err(e) => assert_eq!(e.close_cause(), Some(CloseCause::Error)),
    }
}

#[test]
fn close_states_differ() {
    assert!(CloseState::NotClosed != CloseState::Closing);
    assert!(CloseState::Closing != CloseState::Closed);
}

#[test]
fn later_halves_are_not_those_of_earlier_connections() {
    let mut connections = Connections::new();
    assert!(connections.has_room());
    let first = end(Role::Client, &mut connections);
    let second = end(Role::Client, &mut connections);
    let third = end(Role::Client, &mut connections);
    let error = match third.tx.reunite::<NoExt>(first.rx, first.shared) {
        Ok(_) => panic!("Strangers were reunited"),
        Err(error) => error,
    };
    match error.sender.reunite::<NoExt>(second.rx, third.shared) {
        Ok(_) => panic!("Strangers were reunited"),
        Err(error) => assert!(error.sender.reunite::<NoExt>(third.rx, error.shared).is_ok()),
    }
}

#[test]
fn halves_of_different_origins_are_not_reunited() {
    let first = end(Role::Client, &mut Connections::new());
    let second = end(Role::Client, &mut Connections::new());
    assert!(!first.tx.is_pair_of(&second.rx));
    assert!(first.tx.is_pair_of(&first.rx));
    let error = match first.tx.reunite::<NoExt>(second.rx, second.shared) {
        Ok(_) => panic!("Strangers were reunited"),
        Err(error) => error,
    };
    let error = match error.sender.reunite::<NoExt>(error.receiver, first.shared) {
        Ok(_) => panic!("Strangers were reunited"),
        Err(error) => error,
    };
    assert!(error.sender.reunite::<NoExt>(first.rx, error.shared).is_ok());
}

#[test]
fn reunited_socket_keeps_what_is_to_be_sent() {
    let (mut client, _server) = fixture();
    assert!(client.shared.unsent().is_empty());
    client.tx.write_text(&mut client.shared, "abc").unwrap();
    let pending = client.shared.unsent().to_vec();
    assert_eq!(pending.len(), 9);
    match client.tx.reunite::<NoExt>(client.rx, client.shared) {
        Ok(socket) => assert_eq!(socket.unsent(), &pending[..]),
        Err(_) => panic!("The halves were not reunited"),
    }
}

#[test]
fn ping_amid_fragments_is_answered() {
    let (_client, mut server) = sockets();
    let mut wire = Vec::new();
    let mask = [0, 0, 0, 0];
    for (first, payload) in [
        (0x01, &b"ab"[..]),
        (0x00, &b"cd"[..]),
        (0x89, &b"p"[..]),
        (0x80, &b"e"[..]),
    ] {
        wire.extend_from_slice(&[first, 0x80 + payload.len() as u8]);
        wire.extend_from_slice(&mask);
        wire.extend_from_slice(payload);
    }
    let mut buf = BytesMut::from(&b"x"[..]);
    let message = socket_read(&mut server, &mut wire, &mut buf).expect("Read failure");
    assert_eq!(message, Message::Ping(Bytes::from("p")));
    assert_eq!(buf.as_ref(), b"xabcd");
    assert_eq!(server.unsent(), &[0x8a, 1, b'p'][..]);
    assert!(server.is_open());
    let message = socket_read(&mut server, &mut wire, &mut buf).expect("Read failure");
    assert_eq!(message, Message::Text);
    assert_eq!(buf.as_ref(), b"xabcde");
    assert_eq!(server.unsent(), &[0x8a, 1, b'p'][..]);
}
