use bytes::Bytes;
use ratchet::protocol::{
    CloseCode, CloseCodeParseErr, CloseReason, ControlCode, DataCode, HeaderFlags, Message, OpCode,
    OpCodeParseErr, Role, WebSocketConfig,
};
use ratchet::ratchet_ext;
use ratchet::text::{decimal_text, eq_text, numbered, quoted};
use ratchet::{Cause, CloseCause, Error, ErrorKind, Failure, ProtocolError};

#[test]
fn op_codes_have_numbers() {
    for number in 0..=255u8 {
        match OpCode::try_from(number) {
            Ok(code) => {
                assert_eq!(u8::from(code), number);
                assert!([0, 1, 2, 8, 9, 10].contains(&number));
                assert_eq!(code.is_data(), number < 3);
                assert_eq!(code.is_control(), number > 7);
            }
            Err(OpCodeParseErr::Reserved(n)) => {
                assert_eq!(n, number);
                assert!((3..=7).contains(&n) || (11..=15).contains(&n));
            }
            Err(OpCodeParseErr::Invalid(n)) => {
                assert_eq!(n, number);
                assert!(n > 15);
            }
        }
    }
    assert_eq!(
        OpCode::try_from(3).unwrap_err().render(),
        "Reserved OpCode: `3`"
    );
    assert_eq!(
        OpCode::try_from(200).unwrap_err().render(),
        "Invalid OpCode: `200`"
    );
}

#[test]
fn op_codes_have_names() {
    for code in [
        OpCode::DataCode(DataCode::Continuation),
        OpCode::DataCode(DataCode::Text),
        OpCode::DataCode(DataCode::Binary),
        OpCode::ControlCode(ControlCode::Close),
        OpCode::ControlCode(ControlCode::Ping),
        OpCode::ControlCode(ControlCode::Pong),
    ] {
        assert_eq!(code.name(), format!("{:?}", code));
        match code {
            OpCode::DataCode(code) => assert_eq!(code.name(), format!("{:?}", code)),
            OpCode::ControlCode(code) => assert_eq!(code.name(), format!("{:?}", code)),
        }
    }
}

#[test]
fn data_codes_for_extensions() {
    let code = ratchet_ext::OpCode::from(DataCode::Continuation);
    assert!(code.is_continuation() && !code.is_text() && !code.is_binary());
    assert!(ratchet_ext::OpCode::from(DataCode::Text).is_text());
    assert!(ratchet_ext::OpCode::from(DataCode::Binary).is_binary());
}

#[test]
fn close_codes_have_numbers() {
    for number in 0..=u16::MAX {
        match CloseCode::try_from(number.to_be_bytes()) {
            Ok(code) => {
                assert_eq!(u16::from(code), number);
                assert!((1000..=4999).contains(&number));
            }
            Err(CloseCodeParseErr(n)) => assert_eq!(n, number),
        }
    }
    for number in [0, 999, 1004, 1014, 1016, 1999, 5000] {
        assert!(CloseCode::try_from(u16::to_be_bytes(number)).is_err());
    }
    assert_eq!(
        CloseCode::try_from([3, 235]),
        Ok(CloseCode::Unsupported)
    );
    assert_eq!(
        CloseCode::try_from(2999u16.to_be_bytes()),
        Ok(CloseCode::ReservedExtension(2999))
    );
    assert_eq!(
        CloseCode::try_from(3000u16.to_be_bytes()),
        Ok(CloseCode::Library(3000))
    );
    assert_eq!(
        CloseCode::try_from(4999u16.to_be_bytes()),
        Ok(CloseCode::Application(4999))
    );
    assert_eq!(
        CloseCodeParseErr(1004).render(),
        "Unknown close code: `1004`"
    );
}

#[test]
fn close_codes_that_must_not_be_sent() {
    for code in [
        CloseCode::Status,
        CloseCode::Tls,
        CloseCode::Abnormal,
        CloseCode::ReservedExtension(2000),
    ] {
        assert!(code.is_illegal());
    }
    for code in [CloseCode::Normal, CloseCode::Library(3000)] {
        assert!(!code.is_illegal());
    }
}

#[test]
fn header_flags() {
    for byte in 0..=255u8 {
        let flags = HeaderFlags::from_bits_truncate(byte);
        assert_eq!(flags.bits(), byte & 0xf0);
        assert_eq!(flags.is_fin(), byte & 0x80 != 0);
        assert_eq!(flags.is_rsv1(), byte & 0x40 != 0);
        assert_eq!(flags.is_rsv2(), byte & 0x20 != 0);
        assert_eq!(flags.is_rsv3(), byte & 0x10 != 0);
        assert!(flags.contains(HeaderFlags::empty()));
        assert_eq!(flags.contains(HeaderFlags::final_frame()), flags.is_fin());
    }
}

#[test]
fn messages_have_types() {
    let messages = [
        Message::Text,
        Message::Binary,
        Message::Ping(Bytes::from("a")),
        Message::Pong(Bytes::new()),
        Message::Close(Some(CloseReason::new(
            CloseCode::Normal,
            Some("a".to_string()),
        ))),
    ];
    for (i, message) in messages.iter().enumerate() {
        assert_eq!(message.is_text(), i == 0);
        assert_eq!(message.is_binary(), i == 1);
        assert_eq!(message.is_ping(), i == 2);
        assert_eq!(message.is_pong(), i == 3);
        assert_eq!(message.is_close(), i == 4);
        assert_eq!(&message.clone(), message);
    }
    assert_eq!(Message::Close(None).clone(), Message::Close(None));
}

#[test]
fn roles_and_configuration() {
    assert!(Role::Client.is_client() && !Role::Client.is_server());
    assert!(Role::Server.is_server() && !Role::Server.is_client());
    assert_eq!(WebSocketConfig::default().max_message_size, 64 << 20);
}

#[test]
fn errors_have_causes() {
    let error = Error::new(ErrorKind::Extension);
    assert_eq!(error.kind(), ErrorKind::Extension);
    assert!(error.cause().is_none());
    let error = Error::close(CloseCause::Stopped);
    assert!(error.is_close() && !error.is_io() && !error.is_protocol());
    assert_eq!(error.close_cause(), Some(CloseCause::Stopped));
    assert!(error.http_cause().is_none());
    let error = Error::with_cause(ErrorKind::IO, Cause::Message("x".to_string()));
    assert!(error.is_io());
    assert_eq!(error.close_cause(), None);
    let failure: Failure<u8> = Failure::Core(error);
    assert_eq!(failure.kind(), ErrorKind::IO);
    let failure: Failure<u8> = Failure::Extension(1);
    assert_eq!(failure.kind(), ErrorKind::Extension);
}

#[test]
fn protocol_errors_are_rendered() {
    for (error, text) in [
        (ProtocolError::Encoding, "Not valid UTF-8 encoding"),
        (
            ProtocolError::OpCode(OpCodeParseErr::Reserved(7)),
            "Reserved OpCode: `7`",
        ),
        (
            ProtocolError::UnmaskedFrame,
            "Received an unexpected unmasked frame",
        ),
        (
            ProtocolError::MaskedFrame,
            "Received an unexpected masked frame",
        ),
        (
            ProtocolError::FragmentedControl,
            "Received a fragmented control frame",
        ),
        (
            ProtocolError::FrameOverflow,
            "A frame exceeded the maximum permitted size",
        ),
        (
            ProtocolError::ContinuationNotStarted,
            "Continuation not started",
        ),
        (
            ProtocolError::ContinuationAlreadyStarted,
            "Continuation already started",
        ),
        (
            ProtocolError::CloseCode(1005),
            "Received a reserved close code: `1005`",
        ),
        (
            ProtocolError::InvalidSubprotocolHeader("x".to_string()),
            "Invalid subprotocol header: `x`",
        ),
    ] {
        assert_eq!(error.render(), text);
    }
}

#[test]
fn numbers_are_rendered() {
    for n in [0u64, 7, 10, 99, 100, 65535, u64::MAX] {
        assert_eq!(decimal_text(n), n.to_string());
    }
    assert_eq!(numbered("<", 42, ">"), "<42>");
    assert_eq!(quoted("<", "é", ">"), "<é>");
    assert!(eq_text("é", "é"));
    assert!(!eq_text("é", "e"));
}
