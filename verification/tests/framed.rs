use bytes::BytesMut;
use ratchet::framed::{
    encode_header, encode_reason, read_close, read_control, CodecFlags, DecodeResult, FrameDecoder,
    FrameEncoder, FramedIo, FramedRead, FramedWrite, Item, Progress, ReadError, CONST_NOT_STARTED,
    CONST_STARTED, CONTROL_FRAME_LEN, ILLEGAL_CLOSE_CODE,
};
use ratchet::protocol::{
    apply_mask, CloseCode, CloseReason, ControlCode, DataCode, FrameHeader, HeaderFlags, HeaderRead,
    OpCode, OpCodeParseErr, Role,
};
use ratchet::ratchet_ext::RsvBits;
use ratchet::{Cause, Error, ErrorKind, ProtocolError};

const NO_BITS: RsvBits = RsvBits {
    rsv1: false,
    rsv2: false,
    rsv3: false,
};

fn io(role: Role, bytes: &[u8]) -> FramedIo {
    FramedIo::new(BytesMut::from(bytes), role, 1 << 20, NO_BITS)
}

fn client(bytes: &[u8]) -> FramedIo {
    io(Role::Client, bytes)
}

fn item(io: &mut FramedIo, into: &mut BytesMut) -> Item {
    match io.read_next(into) {
        Ok(Progress::Item(item)) => item,
        other => panic!("Expected an item, got {:?}", other),
    }
}

fn fault(bytes: &[u8]) -> ReadError {
    match client(bytes).read_next(&mut BytesMut::new()) {
        Err(e) => e,
        other => panic!("Expected a failure, got {:?}", other),
    }
}

fn closes_with(message: &str) -> Option<CloseReason> {
    Some(CloseReason::new(
        CloseCode::Protocol,
        Some(message.to_string()),
    ))
}

fn worded(message: &str) -> Error {
    Error::with_cause(ErrorKind::Protocol, Cause::Message(message.to_string()))
}

#[test]
fn masks_and_unmasks() {
    let mut bytes = *b"Hello";
    apply_mask(0x37fa213d, &mut bytes);
    assert_eq!(bytes, [0x7f, 0x9f, 0x4d, 0x51, 0x58]);
    apply_mask(0x37fa213d, &mut bytes);
    assert_eq!(&bytes, b"Hello");
}

#[test]
fn reads_a_masked_text_message() {
    let bytes = [
        0x81, 0x85, 0x37, 0xfa, 0x21, 0x3d, 0x7f, 0x9f, 0x4d, 0x51, 0x58,
    ];
    let mut into = BytesMut::new();
    let mut server = io(Role::Server, &bytes);
    assert_eq!(item(&mut server, &mut into), Item::Text);
    assert_eq!(into.as_ref(), b"Hello");
    assert!(matches!(
        server.read_next(&mut into),
        Ok(Progress::Need(2))
    ));
}

#[test]
fn headers_of_all_lengths() {
    for (length, header) in [
        (0usize, vec![0x82, 0]),
        (125, vec![0x82, 125]),
        (126, vec![0x82, 126, 0, 126]),
        (65535, vec![0x82, 126, 255, 255]),
        (65536, vec![0x82, 127, 0, 0, 0, 0, 0, 1, 0, 0]),
    ] {
        let mut buf = BytesMut::new();
        let frame = FrameHeader {
            opcode: OpCode::DataCode(DataCode::Binary),
            flags: HeaderFlags::final_frame(),
            mask: None,
        };
        encode_header(&mut buf, frame, length);
        assert_eq!(buf.as_ref(), &header[..]);
        assert_eq!(
            FrameHeader::read_from(&buf, false, 0x70, 1 << 20),
            Ok(HeaderRead::Complete(frame, header.len(), length))
        );
    }
}

#[test]
fn masked_header_is_read_back() {
    let mut buf = BytesMut::new();
    let frame = FrameHeader {
        opcode: OpCode::ControlCode(ControlCode::Pong),
        flags: HeaderFlags {
            fin: true,
            rsv_1: true,
            rsv_2: false,
            rsv_3: true,
        },
        mask: Some(0xdeadbeef),
    };
    encode_header(&mut buf, frame, 300);
    assert_eq!(
        buf.as_ref(),
        &[0xda, 0xfe, 1, 44, 0xde, 0xad, 0xbe, 0xef][..]
    );
    assert_eq!(
        FrameHeader::read_from(&buf, true, 0x20, 300),
        Ok(HeaderRead::Complete(frame, 8, 300))
    );
}

#[test]
fn headers_that_are_incomplete() {
    let read = |bytes: &[u8], is_server: bool| FrameHeader::read_from(bytes, is_server, 0x70, 1000);
    assert_eq!(read(&[], false), Ok(HeaderRead::Incomplete(2)));
    assert_eq!(read(&[0x81], false), Ok(HeaderRead::Incomplete(1)));
    assert_eq!(read(&[0x81, 126], false), Ok(HeaderRead::Incomplete(2)));
    assert_eq!(read(&[0x81, 127, 0], false), Ok(HeaderRead::Incomplete(7)));
    assert_eq!(read(&[0x81, 0x80], true), Ok(HeaderRead::Incomplete(4)));
    assert_eq!(read(&[0x81, 0xfe, 0], true), Ok(HeaderRead::Incomplete(1)));
    assert_eq!(
        read(&[0x81, 0xfe, 0, 200], true),
        Ok(HeaderRead::Incomplete(4))
    );
}

#[test]
fn headers_that_are_rejected() {
    let read = |bytes: &[u8], is_server: bool| FrameHeader::read_from(bytes, is_server, 0x70, 1000);
    assert_eq!(
        read(&[0x83, 0], false),
        Err(ProtocolError::OpCode(OpCodeParseErr::Reserved(3)))
    );
    assert_eq!(read(&[0x09, 0], false), Err(ProtocolError::FragmentedControl));
    assert_eq!(read(&[0xc1, 0], false), Err(ProtocolError::UnknownExtension));
    assert_eq!(read(&[0xa1, 0], false), Err(ProtocolError::UnknownExtension));
    assert_eq!(read(&[0x91, 0], false), Err(ProtocolError::UnknownExtension));
    assert_eq!(read(&[0x81, 0], true), Err(ProtocolError::UnmaskedFrame));
    assert_eq!(read(&[0x81, 0x80], false), Err(ProtocolError::MaskedFrame));
    assert_eq!(
        read(&[0x81, 126, 3, 233], false),
        Err(ProtocolError::FrameOverflow)
    );
    assert_eq!(
        read(&[0x81, 127, 255, 0, 0, 0, 0, 0, 0, 0], false),
        Err(ProtocolError::FrameOverflow)
    );
    assert_eq!(
        FrameHeader::read_from(&[0xc1, 0], false, 0x30, 1000),
        Ok(HeaderRead::Complete(
            FrameHeader {
                opcode: OpCode::DataCode(DataCode::Text),
                flags: HeaderFlags {
                    fin: true,
                    rsv_1: true,
                    rsv_2: false,
                    rsv_3: false
                },
                mask: None
            },
            2,
            0
        ))
    );
}

#[test]
fn frames_are_decoded_byte_by_byte() {
    let bytes = [
        0x81, 0x85, 0x37, 0xfa, 0x21, 0x3d, 0x7f, 0x9f, 0x4d, 0x51, 0x58,
    ];
    let mut decoder = FrameDecoder::default();
    let mut buf = BytesMut::new();
    for (i, byte) in bytes.iter().enumerate() {
        match decoder.decode(&mut buf, true, 0x70, 100) {
            Ok(DecodeResult::Incomplete(count)) => assert!(0 < count && count <= bytes.len() - i),
            other => panic!("Unexpected result {:?}", other),
        }
        buf.extend_from_slice(&[*byte]);
    }
    match decoder.decode(&mut buf, true, 0x70, 100) {
        Ok(DecodeResult::Finished(header, payload)) => {
            assert_eq!(header.opcode, OpCode::DataCode(DataCode::Text));
            assert_eq!(payload.as_ref(), b"Hello");
        }
        other => panic!("Unexpected result {:?}", other),
    }
    assert!(buf.is_empty());
    assert_eq!(decoder, FrameDecoder::DecodingHeader);
}

#[test]
fn decoder_keeps_the_header_while_it_waits() {
    let mut decoder = FrameDecoder::default();
    let mut buf = BytesMut::from(&[0x82, 3, 1][..]);
    assert!(matches!(
        decoder.decode(&mut buf, false, 0x70, 100),
        Ok(DecodeResult::Incomplete(2))
    ));
    assert!(matches!(decoder, FrameDecoder::DecodingPayload(_, 2, 3)));
    assert_eq!(buf.len(), 3);
}

#[test]
fn readers_take_frames() {
    let mut reader = FramedRead::new(BytesMut::from(&[0x82, 1][..]));
    assert!(matches!(
        reader.read_frame(false, 0x70, 100),
        Ok(DecodeResult::Incomplete(1))
    ));
    reader.supply(&[7]);
    match reader.read_frame(false, 0x70, 100) {
        Ok(DecodeResult::Finished(_, payload)) => assert_eq!(payload.as_ref(), &[7]),
        other => panic!("Unexpected result {:?}", other),
    }
}

#[test]
fn encoded_frames_are_decoded() {
    for is_server in [false, true] {
        let mut buf = BytesMut::new();
        let mut payload = b"some payload".to_vec();
        let mask = FrameEncoder::default().encode_frame(
            &mut buf,
            is_server,
            OpCode::DataCode(DataCode::Text),
            HeaderFlags::final_frame(),
            &mut payload,
        );
        assert_eq!(mask.is_none(), is_server);
        buf.extend_from_slice(&payload);
        match FrameDecoder::default().decode(&mut buf, !is_server, 0x70, 100) {
            Ok(DecodeResult::Finished(header, payload)) => {
                assert_eq!(header.mask, mask);
                assert_eq!(payload.as_ref(), b"some payload");
            }
            other => panic!("Unexpected result {:?}", other),
        }
    }
}

#[test]
fn masks_change() {
    let mut writer = FramedWrite::default();
    let masks: Vec<Option<u32>> = (0..4)
        .map(|_| {
            writer.write(
                false,
                OpCode::DataCode(DataCode::Text),
                HeaderFlags::final_frame(),
                BytesMut::new(),
            )
        })
        .collect();
    assert!(masks.iter().any(|mask| *mask != masks[0]));
}

#[test]
fn messages_in_fragments() {
    let mut io = client(&[
        0x02, 2, b'a', b'b', 0x00, 1, b'c', 0x80, 0, 0x01, 1, b'd', 0x80, 1, b'e',
    ]);
    let mut into = BytesMut::new();
    assert_eq!(item(&mut io, &mut into), Item::Binary);
    assert_eq!(into.as_ref(), b"abc");
    into.clear();
    assert_eq!(item(&mut io, &mut into), Item::Text);
    assert_eq!(into.as_ref(), b"de");
}

#[test]
fn reading_resumes_between_fragments() {
    let mut io = client(&[0x01, 1, b'a']);
    let mut into = BytesMut::new();
    assert!(matches!(io.read_next(&mut into), Ok(Progress::Need(2))));
    assert_eq!(into.as_ref(), b"a");
    io.supply(&[0x80, 1]);
    assert!(matches!(io.read_next(&mut into), Ok(Progress::Need(1))));
    io.supply(b"b");
    assert_eq!(item(&mut io, &mut into), Item::Text);
    assert_eq!(into.as_ref(), b"ab");
}

#[test]
fn fragments_out_of_order() {
    let e = fault(&[0x80, 0]);
    assert_eq!(e.close_with, closes_with(CONST_NOT_STARTED));
    assert_eq!(
        e.error,
        Error::protocol(ProtocolError::ContinuationNotStarted)
    );

    let e = fault(&[0x00, 0]);
    assert_eq!(e.close_with, closes_with(CONST_NOT_STARTED));
    assert_eq!(e.error, Error::protocol(ProtocolError::FrameOverflow));

    for code in [0x01, 0x02, 0x81, 0x82] {
        let e = fault(&[0x01, 0, code, 0]);
        assert_eq!(e.close_with, closes_with(CONST_STARTED));
        assert_eq!(
            e.error,
            Error::protocol(ProtocolError::ContinuationAlreadyStarted)
        );
    }
}

#[test]
fn frames_that_cannot_be_read() {
    let e = fault(&[0x83, 0]);
    assert_eq!(e.close_with, closes_with("Reserved OpCode: `3`"));
    assert_eq!(e.error, worded("Reserved OpCode: `3`"));
    let e = fault(&[0x81, 0x80]);
    assert_eq!(e.error, worded("Received an unexpected masked frame"));
    let e = fault(&[0xc1, 0]);
    assert_eq!(
        e.error,
        worded("Received reserved bits that no extension has negotiated")
    );
    let e = fault(&[0x09, 0]);
    assert_eq!(e.error, worded("Received a fragmented control frame"));
    let e = fault(&[0x82, 127, 0, 0, 0, 0, 255, 255, 255, 255]);
    assert_eq!(e.error, worded("A frame exceeded the maximum permitted size"));
    match io(Role::Server, &[0x81, 0]).read_next(&mut BytesMut::new()) {
        Err(e) => assert_eq!(e.error, worded("Received an unexpected unmasked frame")),
        other => panic!("Expected a failure, got {:?}", other),
    }
    let e = ReadError::io("broken".to_string());
    assert!(e.close_with.is_none());
    assert!(e.error.is_io());
}

#[test]
fn negotiated_bits_are_read() {
    let bits = RsvBits {
        rsv1: true,
        rsv2: false,
        rsv3: false,
    };
    let mut io = FramedIo::new(
        BytesMut::from(&[0xc1, 0, 0xa1, 0][..]),
        Role::Client,
        100,
        bits,
    );
    let mut into = BytesMut::new();
    assert_eq!(item(&mut io, &mut into), Item::Text);
    assert!(io.read_next(&mut into).is_err());
    assert_eq!(u8::from(bits), 0x40);
}

fn control(code: ControlCode, payload: &[u8]) -> Result<Item, ReadError> {
    read_control(code, BytesMut::from(payload))
}

#[test]
fn control_frames() {
    assert_eq!(
        control(ControlCode::Ping, &[1; 125]).unwrap(),
        Item::Ping(BytesMut::from(&[1; 125][..]))
    );
    assert_eq!(
        control(ControlCode::Pong, &[2]).unwrap(),
        Item::Pong(BytesMut::from(&[2][..]))
    );
    for code in [ControlCode::Ping, ControlCode::Pong] {
        let e = control(code, &[0; 126]).unwrap_err();
        assert_eq!(e.close_with, closes_with(CONTROL_FRAME_LEN));
        assert_eq!(e.error, Error::protocol(ProtocolError::FrameOverflow));
    }
}

#[test]
fn close_frames() {
    for payload in [&[][..], &[3][..]] {
        assert_eq!(
            control(ControlCode::Close, payload).unwrap(),
            Item::Close((None, BytesMut::new()))
        );
    }
    assert_eq!(
        control(ControlCode::Close, &[3, 232]).unwrap(),
        Item::Close((
            Some(CloseReason::new(CloseCode::Normal, None)),
            BytesMut::from(&[3, 232][..])
        ))
    );
    assert_eq!(
        control(ControlCode::Close, b"\x03\xe9bye").unwrap(),
        Item::Close((
            Some(CloseReason::new(
                CloseCode::GoingAway,
                Some("bye".to_string())
            )),
            BytesMut::from(&b"\x03\xe9bye"[..])
        ))
    );
    let e = control(ControlCode::Close, &[0, 0]).unwrap_err();
    assert_eq!(e.error, worded("Unknown close code: `0`"));
    let e = control(ControlCode::Close, &[3, 237]).unwrap_err();
    assert_eq!(e.close_with, closes_with(ILLEGAL_CLOSE_CODE));
    assert_eq!(e.error, Error::protocol(ProtocolError::CloseCode(1005)));
    let e = read_close(BytesMut::from(&[3, 232, b'a', 0xff][..])).unwrap_err();
    assert_eq!(
        e.error,
        worded("invalid utf-8 sequence of 1 bytes from index 1")
    );
}

#[test]
fn reasons_are_encoded() {
    let reason = CloseReason::new(CloseCode::Application(4321), Some("é".to_string()));
    let payload = encode_reason(reason.clone());
    assert_eq!(payload.as_ref(), &[16, 225, 0xc3, 0xa9]);
    assert_eq!(
        read_close(payload.clone()).unwrap(),
        Item::Close((Some(reason), payload))
    );
}

#[test]
fn both_directions() {
    let mut server = io(Role::Server, &[]);
    server.write(
        OpCode::DataCode(DataCode::Text),
        HeaderFlags::final_frame(),
        BytesMut::from(&b"hi"[..]),
    );
    server.write_close(CloseReason::new(CloseCode::Normal, None));
    assert_eq!(
        server.unsent(),
        &[0x81, 2, b'h', b'i', 0x88, 2, 3, 232][..]
    );
    let mut peer = client(server.unsent());
    server.sent();
    assert!(server.unsent().is_empty());
    let mut into = BytesMut::new();
    assert_eq!(item(&mut peer, &mut into), Item::Text);
    assert_eq!(into.as_ref(), b"hi");
    assert!(matches!(item(&mut peer, &mut into), Item::Close(_)));
    let parts = FramedIo::from_parts(peer.into_parts()).into_parts();
    assert_eq!(parts.flags, CodecFlags::new(Role::Client, NO_BITS));
    assert_eq!(parts.flags.endpoint(), Role::Client);
    assert_eq!(parts.max_message_size, 1 << 20);
}

#[test]
fn flags_of_connections() {
    let flags = CodecFlags::new(Role::Server, NO_BITS);
    assert_eq!(flags.reserved(), 0x70);
    assert_eq!(flags.bits(), 0b100);
    let flags = CodecFlags {
        r_cont: true,
        w_cont: true,
        cont_type: true,
        role: false,
        rsv1: true,
        rsv2: true,
        rsv3: true,
    };
    assert_eq!(flags.bits(), 0b0111_1011);
    assert_eq!(flags.reserved(), 0);
}
