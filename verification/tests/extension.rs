use bytes::BytesMut;
use http::{HeaderMap, HeaderValue};
use ratchet::framed::extension_decode;
use ratchet::handshake::client::parse_response;
use ratchet::handshake::server::{build_response, parse_request_parts};
use ratchet::http_types::Version;
use ratchet::ratchet_ext::{
    Extension, ExtensionDecoder, ExtensionEncoder, ExtensionProvider, FrameHeader,
    ReunitableExtension, RsvBits, SplittableExtension,
};
use ratchet::session::{apply_reserved, extension_encode};
use ratchet::{
    CloseCode, CloseReason, Connections, Failure, Message, MessageType, NoExt, NoExtDecoder, NoExtEncoder, PayloadType,
    ReadStep, Role, SubprotocolRegistry, WebSocket, WebSocketConfig,
};

/// Adds one to each byte of a message and marks its frames by the first reserved bit. Fails on
/// payloads that start with an exclamation mark.
#[derive(Debug, PartialEq)]
struct Shift;

impl ExtensionEncoder for Shift {
    type Error = &'static str;

    fn encode(&mut self, payload: &mut BytesMut, header: &mut FrameHeader) -> Result<(), &'static str> {
        if payload.first() == Some(&b'!') {
            return Err("cannot encode");
        }
        for byte in payload.iter_mut() {
            *byte = byte.wrapping_add(1);
        }
        header.rsv1 = true;
        header.fin = false;
        Ok(())
    }
}

impl ExtensionDecoder for Shift {
    type Error = &'static str;

    fn decode(&mut self, payload: &mut BytesMut, header: &mut FrameHeader) -> Result<(), &'static str> {
        if !header.rsv1 {
            return Err("cannot decode");
        }
        for byte in payload.iter_mut() {
            *byte = byte.wrapping_sub(1);
        }
        Ok(())
    }
}

impl Extension for Shift {
    fn bits(&self) -> RsvBits {
        RsvBits {
            rsv1: true,
            rsv2: false,
            rsv3: false,
        }
    }
}

impl SplittableExtension for Shift {
    type SplitEncoder = Shift;
    type SplitDecoder = Shift;

    fn split(self) -> (Shift, Shift) {
        (Shift, Shift)
    }
}

impl ReunitableExtension for Shift {
    fn reunite(_encoder: Shift, _decoder: Shift) -> Shift {
        Shift
    }
}

#[derive(Debug)]
struct ShiftProvider;

impl ExtensionProvider for ShiftProvider {
    type Extension = Shift;
    type Error = &'static str;

    fn apply_headers(&self, headers: &mut HeaderMap) {
        headers.insert("sec-websocket-extensions", HeaderValue::from_static("shift"));
    }

    fn negotiate_client(&self, headers: &HeaderMap) -> Result<Option<Shift>, &'static str> {
        match headers.get("sec-websocket-extensions") {
            Some(value) if value == "shift" => Ok(Some(Shift)),
            Some(_) => Err("unexpected extension"),
            None => Ok(None),
        }
    }

    fn negotiate_server(
        &self,
        headers: &HeaderMap,
    ) -> Result<Option<(Shift, HeaderValue)>, &'static str> {
        self.negotiate_client(headers)
            .map(|shift| shift.map(|shift| (shift, HeaderValue::from_static("shift"))))
    }
}

fn socket(role: Role) -> WebSocket<Shift> {
    WebSocket::from_upgraded(
        WebSocketConfig::default(),
        Some(Shift),
        BytesMut::new(),
        role,
    )
}

#[test]
fn extension_encodes_and_decodes() {
    let mut server = socket(Role::Server);
    server.write(b"abc", PayloadType::Text).unwrap();
    assert_eq!(server.unsent(), &[0xc1, 3, b'b', b'c', b'd'][..]);

    let mut client = socket(Role::Client);
    client.supply(server.unsent());
    let mut buf = BytesMut::new();
    match client.read(&mut buf) {
        ReadStep::Done {
            result: Ok(message),
            shutdown: false,
        } => assert_eq!(message, Message::Text),
        other => panic!("Unexpected step {:?}", other),
    }
    assert_eq!(buf.as_ref(), b"abc");
}

#[test]
fn control_frames_are_not_encoded() {
    let mut server = socket(Role::Server);
    server.write(b"abc", PayloadType::Ping).unwrap();
    assert_eq!(server.unsent(), &[0x89, 3, b'a', b'b', b'c'][..]);
}

#[test]
fn failing_encoder_sends_nothing() {
    let mut server = socket(Role::Server);
    match server.write(b"!", PayloadType::Binary) {
        Err(Failure::Extension(e)) => assert_eq!(e, "cannot encode"),
        other => panic!("Unexpected result {:?}", other),
    }
    assert!(server.unsent().is_empty());
}

#[test]
fn failing_decoder_closes_the_connection() {
    let mut client = socket(Role::Client);
    client.supply(&[0x81, 1, b'a']);
    match client.read(&mut BytesMut::new()) {
        ReadStep::Closing {
            result: Err(Failure::Extension(e)),
        } => assert_eq!(e, "cannot decode"),
        other => panic!("Unexpected step {:?}", other),
    }
    assert!(!client.close_sent(true));
    assert!(!client.is_open());
}

#[test]
fn payloads_are_decoded_as_a_whole() {
    let mut client = socket(Role::Client);
    client.supply(&[0x41, 1, b'c']);
    let mut buf = BytesMut::new();
    assert!(matches!(client.read(&mut buf), ReadStep::Need(2)));
    assert_eq!(buf.as_ref(), b"b");
    client.supply(&[0xc0, 1, b'd']);
    assert!(matches!(
        client.read(&mut buf),
        ReadStep::Done {
            result: Ok(Message::Text),
            ..
        }
    ));
    assert_eq!(buf.as_ref(), b"ac");
}

#[test]
fn split_extension_is_reunited() {
    let (mut tx, rx, mut shared) = match socket(Role::Server).split(&mut Connections::new()) {
        Ok(halves) => halves,
        Err(e) => panic!("Split failure: {:?}", e),
    };
    tx.write_text(&mut shared, "a").unwrap();
    assert_eq!(shared.unsent(), &[0xc1, 1, b'b'][..]);
    assert!(tx
        .close(&mut shared, CloseReason::new(CloseCode::Normal, None))
        .is_ok());
    assert!(tx.reunite::<Shift>(rx, shared).is_ok());
}

#[test]
fn only_reserved_bits_are_taken_over() {
    use_flags(true);
    use_flags(false);
}

fn use_flags(fin: bool) {
    let flags = ratchet::protocol::HeaderFlags {
        fin,
        rsv_1: false,
        rsv_2: true,
        rsv_3: false,
    };
    let after = apply_reserved(
        flags,
        FrameHeader {
            fin: !fin,
            rsv1: true,
            rsv2: false,
            rsv3: true,
            opcode: ratchet::ratchet_ext::OpCode::Text,
        },
    );
    assert_eq!(after.fin, fin);
    assert!(after.rsv_1 && !after.rsv_2 && after.rsv_3);
}

#[test]
fn encoding_without_an_extension() {
    let mut payload = BytesMut::from(&b"abc"[..]);
    let mut header = ratchet::protocol::FrameHeader {
        opcode: ratchet::protocol::OpCode::DataCode(ratchet::protocol::DataCode::Text),
        flags: ratchet::protocol::HeaderFlags::final_frame(),
        mask: None,
    };
    let before = header;
    let mut none: Option<Shift> = None;
    assert!(extension_encode(&mut none, &mut payload, &mut header).is_ok());
    assert_eq!(header, before);
    assert_eq!(payload.as_ref(), b"abc");
    assert!(extension_encode(&mut Some(Shift), &mut payload, &mut header).is_ok());
    assert!(header.flags.rsv_1 && header.flags.fin);
    assert_eq!(payload.as_ref(), b"bcd");
}

#[test]
fn optional_extensions() {
    let mut header = FrameHeader {
        fin: true,
        rsv1: true,
        rsv2: false,
        rsv3: false,
        opcode: ratchet::ratchet_ext::OpCode::Binary,
    };
    let mut payload = BytesMut::from(&b"b"[..]);
    let mut none: Option<Shift> = None;
    assert!(none.decode(&mut payload, &mut header).is_ok());
    assert!(none.encode(&mut payload, &mut header).is_ok());
    assert_eq!(payload.as_ref(), b"b");
    assert_eq!(u8::from(none.bits()), 0);
    let mut some = Some(Shift);
    assert!(some.decode(&mut payload, &mut header).is_ok());
    assert_eq!(payload.as_ref(), b"a");
    assert_eq!(u8::from(some.bits()), 0x40);
    let (encoder, decoder) = some.split();
    assert_eq!(Option::<Shift>::reunite(encoder, decoder), Some(Shift));
    assert_eq!(Option::<Shift>::reunite(Some(Shift), None), None);
    assert_eq!(none.split(), (None, None));
}

#[test]
fn optional_providers() {
    let mut headers = HeaderMap::new();
    let none: Option<ShiftProvider> = None;
    none.apply_headers(&mut headers);
    assert!(headers.is_empty());
    assert!(matches!(none.negotiate_client(&headers), Ok(None)));
    assert!(matches!(none.negotiate_server(&headers), Ok(None)));
    let mut some = Some(ShiftProvider);
    (&some).apply_headers(&mut headers);
    assert_eq!(headers.len(), 1);
    assert!(matches!((&mut some).negotiate_client(&headers), Ok(Some(_))));
    assert!(matches!((&some).negotiate_server(&headers), Ok(Some(_))));
}

#[test]
fn extension_that_does_nothing() {
    let mut header = FrameHeader {
        fin: true,
        rsv1: false,
        rsv2: false,
        rsv3: false,
        opcode: ratchet::ratchet_ext::OpCode::Binary,
    };
    let mut payload = BytesMut::from(&b"b"[..]);
    assert!(NoExt::default().encode(&mut payload, &mut header).is_ok());
    assert!(NoExt.decode(&mut payload, &mut header).is_ok());
    assert!(NoExtEncoder.encode(&mut payload, &mut header).is_ok());
    assert!(NoExtDecoder.decode(&mut payload, &mut header).is_ok());
    assert_eq!(payload.as_ref(), b"b");
    let (encoder, decoder) = NoExt.split();
    assert_eq!(NoExt::reunite(encoder, decoder), NoExt);
    assert_eq!(u8::from(NoExt.bits()), 0);
}

fn request_headers(extension: Option<&'static str>) -> HeaderMap {
    let mut headers = HeaderMap::new();
    for (name, value) in [
        ("host", "localhost"),
        ("connection", "upgrade"),
        ("upgrade", "websocket"),
        ("sec-websocket-version", "13"),
        ("sec-websocket-key", "dGhlIHNhbXBsZSBub25jZQ=="),
    ] {
        headers.insert(name, HeaderValue::from_static(value));
    }
    if let Some(extension) = extension {
        headers.insert(
            "sec-websocket-extensions",
            HeaderValue::from_static(extension),
        );
    }
    headers
}

#[test]
fn extensions_are_negotiated() {
    let registry = SubprotocolRegistry::default();
    let parts = parse_request_parts(
        Version::Http11,
        "GET",
        &request_headers(Some("shift")),
        &ShiftProvider,
        &registry,
    )
    .unwrap();
    assert_eq!(parts.extension, Some(Shift));
    let response = build_response(parts.key, parts.subprotocol, parts.extension_header).unwrap();
    assert_eq!(
        response.headers.get("sec-websocket-extensions").unwrap(),
        "shift"
    );
    let result = parse_response(
        response,
        b"dGhlIHNhbXBsZSBub25jZQ==",
        &ShiftProvider,
        &registry,
    )
    .unwrap();
    assert_eq!(result.extension, Some(Shift));

    match parse_request_parts(
        Version::Http11,
        "GET",
        &request_headers(Some("other")),
        &ShiftProvider,
        &registry,
    ) {
        Err(Failure::Extension(e)) => assert_eq!(e, "unexpected extension"),
        other => panic!("Unexpected result {:?}", other),
    }
}

#[test]
fn decoding_with_and_without_an_extension() {
    let marked = ratchet::protocol::HeaderFlags {
        fin: true,
        rsv_1: true,
        rsv_2: false,
        rsv_3: false,
    };
    let plain = ratchet::protocol::HeaderFlags::final_frame();
    let code = ratchet::protocol::DataCode::Text;
    let mut data = BytesMut::from(&b"bcd"[..]);
    let mut none: Option<Shift> = None;
    assert!(extension_decode(&mut none, &mut data, marked, code).is_ok());
    assert_eq!(data.as_ref(), b"bcd");
    assert!(extension_decode(&mut Some(Shift), &mut data, marked, code).is_ok());
    assert_eq!(data.as_ref(), b"abc");
    assert_eq!(
        extension_decode(&mut Some(Shift), &mut data, plain, code),
        Err("cannot decode")
    );
}

#[test]
fn fragments_are_encoded_one_by_one() {
    let (mut tx, _, mut shared) = match socket(Role::Server).split(&mut Connections::new()) {
        Ok(halves) => halves,
        Err(e) => panic!("Split failure: {:?}", e),
    };
    tx.write_fragmented(&mut shared, b"abc", MessageType::Text, 2)
        .unwrap();
    assert_eq!(
        shared.unsent(),
        &[0x41, 2, b'b', b'c', 0xc0, 1, b'd'][..]
    );
    shared.sent();
    match tx.write_fragmented(&mut shared, b"ab!c", MessageType::Binary, 2) {
        Err(Failure::Extension(e)) => assert_eq!(e, "cannot encode"),
        other => panic!("Unexpected result {:?}", other),
    }
    assert_eq!(shared.unsent(), &[0x42, 2, b'b', b'c'][..]);
}
