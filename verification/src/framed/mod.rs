//! Reading and writing of frames.

mod io;
mod laws;
mod read;
mod write;

pub use io::{FramedIo, FramedIoParts};
pub use laws::{
    control_header, flags_amid, fragment_header, fragments, joined, lemma_control_between_fragments,
    lemma_decode_resumes, lemma_decode_waits, lemma_fragments_run, lemma_frame_round_trip,
    lemma_message_round_trip, lemma_ping_amid_fragments, lemma_read_resumes,
    lemma_reason_round_trip, lemma_type_only_of_started_message, lemma_unfinished_run, negotiated,
    unfinished,
};
pub use read::{
    after_data, decoded_as, extension_decode, extension_header, header_for_extension,
    lemma_reads_as_run, may_decode, progressed_as, read_next, read_run, reading, reads_on,
    reception, stepped_as, takes_frame, FramedRead, Progress, ProgressView, ReadFailure, ReadRun,
    ReadState, Reception,
};
pub use write::{
    close_payload, encode_header, encode_reason, frame_bytes, FrameEncoder, FramedWrite,
};

use crate::buffer::{advance, as_mut_slice, as_slice, contents};
use crate::errors::{
    protocol_fault, worded, Cause, Error, ErrorKind, ErrorView, ProtocolError, ProtocolErrorView,
};
use crate::protocol::{
    apply_mask, header_of, masked, weight, CloseCode, CloseReason, CloseReasonView, ControlCode,
    DataCode, FrameHeader, HeaderRead, Role,
};
use crate::ratchet_ext::RsvBits;
use crate::text::{utf8_fault, utf8_text};
use bytes::BytesMut;
use vstd::prelude::*;
use vstd::slice::slice_subrange;
use vstd::utf8::{decode_utf8, valid_utf8};

verus! {

/// The message of a control frame that is too long.
pub const CONTROL_FRAME_LEN: &'static str = "Control frame length greater than 125";

/// The message of a message that is started inside another one.
pub const CONST_STARTED: &'static str = "Continuation already started";

/// The message of a continuation without a start.
pub const CONST_NOT_STARTED: &'static str = "Continuation not started";

/// The message of a close code that must not be sent.
pub const ILLEGAL_CLOSE_CODE: &'static str = "Received a reserved close code";

/// The longest payload of a control frame.
pub const CONTROL_MAX_SIZE: usize = 125;

/// What a reader has found.
#[derive(Debug, PartialEq)]
pub enum Item {
    /// A binary message is complete.
    Binary,
    /// A text message is complete.
    Text,
    /// A ping and its payload.
    Ping(BytesMut),
    /// A pong and its payload.
    Pong(BytesMut),
    /// The reason for closing, if one was given, and the payload that it was read from.
    Close((Option<CloseReason>, BytesMut)),
}

/// What an `Item` says.
pub enum ItemView {
    Binary,
    Text,
    Ping(Seq<u8>),
    Pong(Seq<u8>),
    Close(Option<CloseReasonView>, Seq<u8>),
}

/// What an optional reason says.
pub open spec fn reason_of(reason: Option<CloseReason>) -> Option<CloseReasonView> {
    match reason {
        Some(reason) => Some(reason@),
        None => None,
    }
}

impl View for Item {
    type V = ItemView;

    open spec fn view(&self) -> ItemView {
        match *self {
            Item::Binary => ItemView::Binary,
            Item::Text => ItemView::Text,
            Item::Ping(payload) => ItemView::Ping(contents(payload)),
            Item::Pong(payload) => ItemView::Pong(contents(payload)),
            Item::Close((reason, payload)) => ItemView::Close(reason_of(reason), contents(payload)),
        }
    }
}

/// The state of a connection that reading and writing depend on.
#[derive(Copy, Clone, Debug, PartialEq, Eq, Structural)]
pub struct CodecFlags {
    /// A message has been started by the peer and is not complete.
    pub r_cont: bool,
    /// A message has been started for the peer and is not complete.
    pub w_cont: bool,
    /// The message that the peer has started is text.
    pub cont_type: bool,
    /// This end is the server.
    pub role: bool,
    /// The first reserved bit has been negotiated.
    pub rsv1: bool,
    /// The second reserved bit has been negotiated.
    pub rsv2: bool,
    /// The third reserved bit has been negotiated.
    pub rsv3: bool,
}

impl CodecFlags {
    /// The flags of a connection that has just been opened.
    pub open spec fn opened(role: Role, bits: RsvBits) -> CodecFlags {
        CodecFlags {
            r_cont: false,
            w_cont: false,
            cont_type: false,
            role: role is Server,
            rsv1: bits.rsv1,
            rsv2: bits.rsv2,
            rsv3: bits.rsv3,
        }
    }

    /// The reserved bits that have not been negotiated, as a byte.
    pub open spec fn unknown_bits(self) -> u8 {
        (weight(!self.rsv1, 64) + weight(!self.rsv2, 32) + weight(!self.rsv3, 16)) as u8
    }

    /// The flags of a connection that has just been opened with an extension that may set `bits`.
    pub fn new(role: Role, bits: RsvBits) -> (flags: CodecFlags)
        ensures
            flags == Self::opened(role, bits),
    {
        CodecFlags {
            r_cont: false,
            w_cont: false,
            cont_type: false,
            role: role.is_server(),
            rsv1: bits.rsv1,
            rsv2: bits.rsv2,
            rsv3: bits.rsv3,
        }
    }

    /// The number whose bits are these flags.
    pub open spec fn spec_bits(self) -> int {
        weight(self.r_cont, 1) + weight(self.w_cont, 2) + weight(self.role, 4) + weight(
            self.cont_type,
            8,
        ) + weight(self.rsv1, 64) + weight(self.rsv2, 32) + weight(self.rsv3, 16)
    }

    /// The flags as the bits of a byte.
    pub fn bits(&self) -> (bits: u8)
        ensures
            bits == self.spec_bits(),
    {
        let r_cont: u8 = if self.r_cont { 1 } else { 0 };
        let w_cont: u8 = if self.w_cont { 2 } else { 0 };
        let role: u8 = if self.role { 4 } else { 0 };
        let cont_type: u8 = if self.cont_type { 8 } else { 0 };
        let rsv1: u8 = if self.rsv1 { 64 } else { 0 };
        let rsv2: u8 = if self.rsv2 { 32 } else { 0 };
        let rsv3: u8 = if self.rsv3 { 16 } else { 0 };
        r_cont + w_cont + role + cont_type + rsv1 + rsv2 + rsv3
    }

    /// The role of this end.
    pub fn endpoint(&self) -> (role: Role)
        ensures
            role is Server <==> self.role,
    {
        if self.role {
            Role::Server
        } else {
            Role::Client
        }
    }

    /// The reserved bits that have not been negotiated, as a byte.
    pub fn reserved(&self) -> (bits: u8)
        ensures
            bits == self.unknown_bits(),
    {
        let rsv1: u8 = if self.rsv1 { 0 } else { 64 };
        let rsv2: u8 = if self.rsv2 { 0 } else { 32 };
        let rsv3: u8 = if self.rsv3 { 0 } else { 16 };
        rsv1 + rsv2 + rsv3
    }
}

/// Why reading failed.
#[derive(Debug)]
pub struct ReadError {
    /// The reason to close the connection with.
    pub close_with: Option<CloseReason>,
    /// What went wrong.
    pub error: Error,
}

/// What a `ReadError` says.
pub struct ReadErrorView {
    pub close_with: Option<CloseReasonView>,
    pub error: ErrorView,
}

impl View for ReadError {
    type V = ReadErrorView;

    open spec fn view(&self) -> ReadErrorView {
        ReadErrorView { close_with: reason_of(self.close_with), error: self.error@ }
    }
}

/// The reason for closing that a breach of the protocol is answered with.
pub open spec fn breach(message: Seq<char>) -> CloseReasonView {
    CloseReasonView { code: CloseCode::Protocol, description: Some(message) }
}

/// A failure whose message differs from its cause.
pub open spec fn failed_with(message: Seq<char>, source: ProtocolErrorView) -> ReadErrorView {
    ReadErrorView { close_with: Some(breach(message)), error: protocol_fault(source) }
}

/// A failure whose message is its cause.
pub open spec fn failed_by(message: Seq<char>) -> ReadErrorView {
    ReadErrorView { close_with: Some(breach(message)), error: worded(ErrorKind::Protocol, message) }
}

impl ReadError {
    /// A breach of the protocol that is answered with a message.
    pub fn with(message: &'static str, source: ProtocolError) -> (error: ReadError)
        ensures
            error@ == failed_with(message@, source@),
    {
        ReadError {
            close_with: Some(CloseReason::new(CloseCode::Protocol, Some(message.to_string()))),
            error: Error::protocol(source),
        }
    }

    /// A breach of the protocol that is answered with its cause.
    pub fn caused_by(cause: String) -> (error: ReadError)
        ensures
            error@ == failed_by(cause@),
    {
        ReadError {
            close_with: Some(CloseReason::new(CloseCode::Protocol, Some(cause.clone()))),
            error: Error::with_cause(ErrorKind::Protocol, Cause::Message(cause)),
        }
    }

    /// A stream that could not be read. Nothing can be sent in answer.
    pub fn io(cause: String) -> (error: ReadError)
        ensures
            error@ == (ReadErrorView { close_with: None, error: worded(ErrorKind::IO, cause@) }),
    {
        ReadError {
            close_with: None,
            error: Error::with_cause(ErrorKind::IO, Cause::Message(cause)),
        }
    }
}

/// Takes one frame after the other off the front of a buffer.
#[derive(Copy, Clone, Debug, PartialEq, Eq, Structural)]
pub enum FrameDecoder {
    /// The next frame's header has not been read.
    DecodingHeader,
    /// The next frame's header has been read. It is still in the buffer and has the first length;
    /// the payload that follows it has the second.
    DecodingPayload(FrameHeader, usize, usize),
}

impl Default for FrameDecoder {
    fn default() -> (decoder: FrameDecoder)
        ensures
            decoder is DecodingHeader,
    {
        FrameDecoder::DecodingHeader
    }
}

/// What decoding came to.
#[derive(Debug)]
pub enum DecodeResult {
    /// The number of bytes to wait for.
    Incomplete(usize),
    /// A frame's header and its payload, no longer masked.
    Finished(FrameHeader, BytesMut),
}

/// What decoding comes to.
pub enum Decoded {
    Fail(ProtocolError),
    Wait(usize),
    Frame(FrameHeader, Seq<u8>),
}

/// A decoder and its buffer after decoding, and what that came to.
pub struct DecodeStep {
    pub decoder: FrameDecoder,
    pub buffer: Seq<u8>,
    pub outcome: Decoded,
}

/// `bytes` without, or with, the mask.
pub open spec fn unmasked(mask: Option<u32>, bytes: Seq<u8>) -> Seq<u8> {
    match mask {
        Some(mask) => masked(mask, bytes),
        None => bytes,
    }
}

/// What decoding comes to once the header has been read.
pub open spec fn payload_step(
    header: FrameHeader,
    header_len: usize,
    payload_len: usize,
    buffer: Seq<u8>,
) -> DecodeStep {
    let frame_len = header_len + payload_len;
    if buffer.len() < frame_len {
        DecodeStep {
            decoder: FrameDecoder::DecodingPayload(header, header_len, payload_len),
            buffer,
            outcome: Decoded::Wait((frame_len - buffer.len()) as usize),
        }
    } else {
        DecodeStep {
            decoder: FrameDecoder::DecodingHeader,
            buffer: buffer.skip(frame_len),
            outcome: Decoded::Frame(
                header,
                unmasked(header.mask, buffer.subrange(header_len as int, frame_len)),
            ),
        }
    }
}

/// What decoding comes to.
pub open spec fn decode_step(
    decoder: FrameDecoder,
    buffer: Seq<u8>,
    is_server: bool,
    rsv_bits: u8,
    max_size: usize,
) -> DecodeStep {
    match decoder {
        FrameDecoder::DecodingHeader => match header_of(buffer, is_server, rsv_bits, max_size) {
            Err(e) => DecodeStep { decoder, buffer, outcome: Decoded::Fail(e) },
            Ok(HeaderRead::Incomplete(count)) => DecodeStep {
                decoder,
                buffer,
                outcome: Decoded::Wait(count),
            },
            Ok(HeaderRead::Complete(header, header_len, payload_len)) => payload_step(
                header,
                header_len,
                payload_len,
                buffer,
            ),
        },
        FrameDecoder::DecodingPayload(header, header_len, payload_len) => payload_step(
            header,
            header_len,
            payload_len,
            buffer,
        ),
    }
}

impl FrameDecoder {
    /// A header that has been read is still at the front of the buffer.
    pub open spec fn ready(self, buffer: Seq<u8>) -> bool {
        self matches FrameDecoder::DecodingPayload(_, header_len, _) ==> 2 <= header_len
            <= buffer.len()
    }

    /// Takes a frame off the front of `buf`, or says how many bytes to wait for.
    pub fn decode(
        &mut self,
        buf: &mut BytesMut,
        is_server: bool,
        rsv_bits: u8,
        max_size: usize,
    ) -> (result: Result<DecodeResult, ReadError>)
        requires
            old(self).ready(contents(*old(buf))),
        ensures
            ({
                let step = decode_step(
                    *old(self),
                    contents(*old(buf)),
                    is_server,
                    rsv_bits,
                    max_size,
                );
                &&& *final(self) == step.decoder
                &&& contents(*final(buf)) == step.buffer
                &&& final(self).ready(contents(*final(buf)))
                &&& match (step.outcome, result) {
                    (Decoded::Fail(e), Err(error)) => error@ == failed_by(e@.message()),
                    (Decoded::Wait(count), Ok(DecodeResult::Incomplete(n))) => n == count,
                    (Decoded::Frame(header, payload), Ok(DecodeResult::Finished(h, p))) => h
                        == header && contents(p) == payload,
                    _ => false,
                }
            }),
    {
        let (header, header_len, payload_len) = match *self {
            FrameDecoder::DecodingPayload(header, header_len, payload_len) => (
                header,
                header_len,
                payload_len,
            ),
            FrameDecoder::DecodingHeader => {
                match FrameHeader::read_from(as_slice(buf), is_server, rsv_bits, max_size) {
                    Ok(HeaderRead::Complete(header, header_len, payload_len)) => {
                        *self = FrameDecoder::DecodingPayload(header, header_len, payload_len);
                        (header, header_len, payload_len)
                    },
                    Ok(HeaderRead::Incomplete(count)) => return Ok(DecodeResult::Incomplete(count)),
                    Err(e) => return Err(ReadError::caused_by(e.render())),
                }
            },
        };
        let available: usize = buf.len() - header_len;
        if available < payload_len {
            return Ok(DecodeResult::Incomplete(payload_len - available));
        }
        let ghost whole = contents(*buf);
        advance(buf, header_len);
        let mut payload = buf.split_to(payload_len);
        assert(contents(*buf) =~= whole.skip(header_len + payload_len));
        assert(contents(payload) =~= whole.subrange(header_len as int, header_len + payload_len));
        if let Some(mask) = header.mask {
            apply_mask(mask, as_mut_slice(&mut payload));
        }
        *self = FrameDecoder::DecodingHeader;
        Ok(DecodeResult::Finished(header, payload))
    }
}

/// What the payload of a close frame says.
pub open spec fn closing(payload: Seq<u8>) -> Result<ItemView, ReadErrorView> {
    let code = CloseCode::of_number((payload[0] * 256 + payload[1]) as u16);
    let words = payload.skip(2);
    if payload.len() < 2 {
        Ok(ItemView::Close(None, Seq::empty()))
    } else {
        match code {
            Err(e) => Err(failed_by(e.message())),
            Ok(code) => if code.illegal() {
                Err(
                    failed_with(ILLEGAL_CLOSE_CODE@, ProtocolErrorView::CloseCode(code.number())),
                )
            } else if !valid_utf8(words) {
                Err(failed_by(utf8_fault(words)))
            } else {
                Ok(
                    ItemView::Close(
                        Some(
                            CloseReasonView {
                                code,
                                description: if decode_utf8(words).len() == 0 {
                                    None
                                } else {
                                    Some(decode_utf8(words))
                                },
                            },
                        ),
                        payload,
                    ),
                )
            },
        }
    }
}

/// Reads the payload of a close frame.
pub fn read_close(payload: BytesMut) -> (item: Result<Item, ReadError>)
    ensures
        match item {
            Ok(item) => closing(contents(payload)) == Ok::<ItemView, ReadErrorView>(item@),
            Err(e) => closing(contents(payload)) == Err::<ItemView, ReadErrorView>(e@),
        },
{
    if payload.len() < 2 {
        return Ok(Item::Close((None, BytesMut::new())));
    }
    let bytes = as_slice(&payload);
    let number: [u8; 2] = [bytes[0], bytes[1]];
    let code = match CloseCode::try_from(number) {
        Ok(code) => code,
        Err(e) => return Err(ReadError::caused_by(e.render())),
    };
    if code.is_illegal() {
        return Err(ReadError::with(ILLEGAL_CLOSE_CODE, ProtocolError::CloseCode(u16::from(code))));
    }
    let words = slice_subrange(bytes, 2, bytes.len());
    assert(words@ =~= contents(payload).skip(2));
    match utf8_text(words) {
        Ok(text) => {
            let description = if text.as_str().is_empty() {
                None
            } else {
                Some(text)
            };
            Ok(Item::Close((Some(CloseReason::new(code, description)), payload)))
        },
        Err(fault) => Err(ReadError::caused_by(fault)),
    }
}

/// What a data frame leads to.
#[derive(Debug)]
pub enum Accepted {
    /// The message is not complete: more frames are to be read.
    More,
    /// Something for the caller.
    Item(Item),
}

/// What a data frame leads to.
pub enum AcceptedView {
    Fail(ReadErrorView),
    More,
    Item(ItemView),
}

/// The flags after a data frame and what the frame leads to.
pub open spec fn accept_data(flags: CodecFlags, code: DataCode, fin: bool) -> (
    CodecFlags,
    AcceptedView,
) {
    match code {
        DataCode::Continuation => if !flags.r_cont {
            (
                flags,
                AcceptedView::Fail(
                    failed_with(
                        CONST_NOT_STARTED@,
                        if fin {
                            ProtocolErrorView::ContinuationNotStarted
                        } else {
                            ProtocolErrorView::FrameOverflow
                        },
                    ),
                ),
            )
        } else if fin {
            (
                CodecFlags { r_cont: false, cont_type: false, ..flags },
                AcceptedView::Item(
                    if flags.cont_type {
                        ItemView::Text
                    } else {
                        ItemView::Binary
                    },
                ),
            )
        } else {
            (flags, AcceptedView::More)
        },
        _ => if flags.r_cont {
            (
                flags,
                AcceptedView::Fail(
                    failed_with(CONST_STARTED@, ProtocolErrorView::ContinuationAlreadyStarted),
                ),
            )
        } else if fin {
            (
                flags,
                AcceptedView::Item(
                    if code is Text {
                        ItemView::Text
                    } else {
                        ItemView::Binary
                    },
                ),
            )
        } else {
            (
                CodecFlags { r_cont: true, cont_type: flags.cont_type || code is Text, ..flags },
                AcceptedView::More,
            )
        },
    }
}

/// What a control frame leads to.
pub open spec fn accept_control(code: ControlCode, payload: Seq<u8>) -> Result<
    ItemView,
    ReadErrorView,
> {
    match code {
        ControlCode::Close => closing(payload),
        _ => if payload.len() > CONTROL_MAX_SIZE {
            Err(failed_with(CONTROL_FRAME_LEN@, ProtocolErrorView::FrameOverflow))
        } else if code is Ping {
            Ok(ItemView::Ping(payload))
        } else {
            Ok(ItemView::Pong(payload))
        },
    }
}

/// Whether a result says what a view of it says.
pub open spec fn accepted_as(result: Result<Accepted, ReadError>, view: AcceptedView) -> bool {
    match result {
        Ok(Accepted::More) => view is More,
        Ok(Accepted::Item(item)) => view == AcceptedView::Item(item@),
        Err(e) => view == AcceptedView::Fail(e@),
    }
}

impl CodecFlags {
    /// Takes note of a data frame.
    pub fn accept_data(&mut self, code: DataCode, fin: bool) -> (result: Result<
        Accepted,
        ReadError,
    >)
        ensures
            *final(self) == accept_data(*old(self), code, fin).0,
            accepted_as(result, accept_data(*old(self), code, fin).1),
    {
        match code {
            DataCode::Continuation => {
                if !self.r_cont {
                    let source = if fin {
                        ProtocolError::ContinuationNotStarted
                    } else {
                        ProtocolError::FrameOverflow
                    };
                    return Err(ReadError::with(CONST_NOT_STARTED, source));
                }
                if !fin {
                    return Ok(Accepted::More);
                }
                let item = if self.cont_type {
                    Item::Text
                } else {
                    Item::Binary
                };
                self.r_cont = false;
                self.cont_type = false;
                Ok(Accepted::Item(item))
            },
            DataCode::Text => {
                if self.r_cont {
                    return Err(
                        ReadError::with(CONST_STARTED, ProtocolError::ContinuationAlreadyStarted),
                    );
                }
                if fin {
                    return Ok(Accepted::Item(Item::Text));
                }
                self.r_cont = true;
                self.cont_type = true;
                Ok(Accepted::More)
            },
            DataCode::Binary => {
                if self.r_cont {
                    return Err(
                        ReadError::with(CONST_STARTED, ProtocolError::ContinuationAlreadyStarted),
                    );
                }
                if fin {
                    return Ok(Accepted::Item(Item::Binary));
                }
                self.r_cont = true;
                Ok(Accepted::More)
            },
        }
    }
}

/// Reads a control frame.
pub fn read_control(code: ControlCode, payload: BytesMut) -> (item: Result<Item, ReadError>)
    ensures
        match item {
            Ok(item) => accept_control(code, contents(payload)) == Ok::<ItemView, ReadErrorView>(
                item@,
            ),
            Err(e) => accept_control(code, contents(payload)) == Err::<ItemView, ReadErrorView>(
                e@,
            ),
        },
{
    match code {
        ControlCode::Close => read_close(payload),
        ControlCode::Ping => {
            if payload.len() > CONTROL_MAX_SIZE {
                Err(ReadError::with(CONTROL_FRAME_LEN, ProtocolError::FrameOverflow))
            } else {
                Ok(Item::Ping(payload))
            }
        },
        ControlCode::Pong => {
            if payload.len() > CONTROL_MAX_SIZE {
                Err(ReadError::with(CONTROL_FRAME_LEN, ProtocolError::FrameOverflow))
            } else {
                Ok(Item::Pong(payload))
            }
        },
    }
}

} // verus!
