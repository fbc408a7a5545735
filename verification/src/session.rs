//! The state that the two directions of a connection share, and the closing handshake.

use crate::buffer::{be16, contents, put_u16};
use crate::errors::{
    close_fault, protocol_fault, CloseCause, Error, ErrorView, Failure, ProtocolError,
    ProtocolErrorView,
};
use crate::framed::{
    accept_control, close_payload, control_header, decoded_as, extension_header, flags_amid,
    fragment_header, fragments, frame_bytes, header_for_extension, joined,
    lemma_control_between_fragments, lemma_fragments_run, lemma_frame_round_trip,
    lemma_message_round_trip, lemma_ping_amid_fragments, lemma_reads_as_run,
    lemma_reason_round_trip, may_decode, negotiated, read_next, read_run, reads_on, reason_of,
    reception, takes_frame, unfinished, CodecFlags, FrameDecoder, FramedRead, FramedWrite, Item,
    ItemView, Progress, ProgressView, ReadFailure, ReadRun, ReadState, Reception, CONTROL_MAX_SIZE,
};
use crate::protocol::{
    CloseReason, CloseReasonView, ControlCode, DataCode, FrameHeader, HeaderFlags, Message,
    MessageView, OpCode, PayloadType,
};
use crate::ratchet_ext;
use crate::ratchet_ext::{ExtensionDecoder, ExtensionEncoder};
use bytes::BytesMut;
use vstd::prelude::*;

verus! {

/// How far the closing handshake has come.
#[derive(Copy, Clone, Debug, PartialEq, Eq, Structural)]
pub enum CloseState {
    /// Neither end has closed the connection.
    NotClosed,
    /// This end has sent a close frame.
    Closing,
    /// The connection is closed.
    Closed,
}

/// A header with a mask.
pub open spec fn masked_header(opcode: OpCode, flags: HeaderFlags, mask: Option<u32>) -> FrameHeader {
    FrameHeader { opcode, flags, mask }
}

/// Whether `after` is `before` and a frame: unmasked if a server sends it and masked, with any
/// mask, if a client does.
pub open spec fn adds_frame(
    before: Seq<u8>,
    after: Seq<u8>,
    is_server: bool,
    opcode: OpCode,
    flags: HeaderFlags,
    payload: Seq<u8>,
) -> bool {
    exists|mask: Option<u32>|
        (mask is None <==> is_server) && after == before + frame_bytes(
            #[trigger] masked_header(opcode, flags, mask),
            payload,
        )
}

/// Flags with the reserved bits that an extension has left in a header.
pub open spec fn with_reserved(flags: HeaderFlags, seen: ratchet_ext::FrameHeader) -> HeaderFlags {
    HeaderFlags { fin: flags.fin, rsv_1: seen.rsv1, rsv_2: seen.rsv2, rsv_3: seen.rsv3 }
}

/// Takes over the reserved bits that an extension has left in a header, and nothing else.
pub fn apply_reserved(flags: HeaderFlags, seen: ratchet_ext::FrameHeader) -> (after: HeaderFlags)
    ensures
        after == with_reserved(flags, seen),
{
    HeaderFlags { fin: flags.fin, rsv_1: seen.rsv1, rsv_2: seen.rsv2, rsv_3: seen.rsv3 }
}

/// Whether an extension may make `encoded` of a payload and `marked` of the flags of its frame. It
/// can change the reserved bits, and nothing else, and it changes nothing if it fails.
pub open spec fn may_encode<E: ExtensionEncoder>(
    before: E,
    after: E,
    code: DataCode,
    flags: HeaderFlags,
    marked: HeaderFlags,
    payload: Seq<u8>,
    encoded: Seq<u8>,
    result: Result<(), E::Error>,
) -> bool {
    exists|seen: ratchet_ext::FrameHeader|
        {
            &&& #[trigger] before.encodes(
                &after,
                payload,
                encoded,
                extension_header(flags, code),
                seen,
                result,
            )
            &&& marked == if result is Ok {
                with_reserved(flags, seen)
            } else {
                flags
            }
        }
}

/// Whether an extension, if there is one, may make `encoded` of a payload and `marked` of the flags
/// of its frame.
pub open spec fn encoded_as<E: ExtensionEncoder>(
    before: Option<E>,
    after: Option<E>,
    code: DataCode,
    flags: HeaderFlags,
    marked: HeaderFlags,
    payload: Seq<u8>,
    encoded: Seq<u8>,
    result: Result<(), E::Error>,
) -> bool {
    match (before, after) {
        (Some(encoder), Some(after)) => may_encode(
            encoder,
            after,
            code,
            flags,
            marked,
            payload,
            encoded,
            result,
        ),
        (None, None) => result is Ok && encoded == payload && marked == flags,
        _ => false,
    }
}

/// Lets an extension, if there is one, encode the payload of a frame. Control frames are left as
/// they are. The extension can change the payload and the reserved bits of the header.
pub fn extension_encode<E: ExtensionEncoder>(
    extension: &mut Option<E>,
    payload: &mut BytesMut,
    header: &mut FrameHeader,
) -> (result: Result<(), E::Error>)
    ensures
        match old(header).opcode {
            OpCode::DataCode(code) => encoded_as(
                *old(extension),
                *final(extension),
                code,
                old(header).flags,
                final(header).flags,
                contents(*old(payload)),
                contents(*final(payload)),
                result,
            ),
            OpCode::ControlCode(_) => {
                &&& result is Ok
                &&& *final(extension) == *old(extension)
                &&& contents(*final(payload)) == contents(*old(payload))
                &&& final(header).flags == old(header).flags
            },
        },
        final(header).opcode == old(header).opcode,
        final(header).mask == old(header).mask,
{
    let code = match header.opcode {
        OpCode::DataCode(code) => code,
        OpCode::ControlCode(_) => return Ok(()),
    };
    match extension {
        Some(encoder) => {
            let ghost before = *encoder;
            let ghost given = contents(*payload);
            let flags = header.flags;
            let mut seen = header_for_extension(flags, code);
            let result = encoder.encode(payload, &mut seen);
            assert(before.encodes(
                encoder,
                given,
                contents(*payload),
                extension_header(flags, code),
                seen,
                result,
            ));
            if result.is_ok() {
                header.flags = apply_reserved(flags, seen);
            }
            result
        },
        None => Ok(()),
    }
}

/// The operation code of a payload.
pub open spec fn opcode_of(message_type: PayloadType) -> OpCode {
    match message_type {
        PayloadType::Text => OpCode::DataCode(DataCode::Text),
        PayloadType::Binary => OpCode::DataCode(DataCode::Binary),
        PayloadType::Ping => OpCode::ControlCode(ControlCode::Ping),
        PayloadType::Pong => OpCode::ControlCode(ControlCode::Pong),
    }
}

/// The writing side of a connection.
pub struct WriteHalf {
    writer: FramedWrite,
    control_buffer: BytesMut,
}

/// What a `WriteHalf` holds: the bytes that are to be sent, and the payload of the last ping that has
/// not been answered.
pub struct WriteHalfView {
    pub pending: Seq<u8>,
    pub pinged: Seq<u8>,
}

impl View for WriteHalf {
    type V = WriteHalfView;

    open spec fn view(&self) -> WriteHalfView {
        WriteHalfView { pending: self.parts().0.pending(), pinged: contents(self.parts().1) }
    }
}

/// Whether a data frame was added to the bytes that are to be sent as it should be: with the payload
/// and the reserved bits that the extension, if there is one, has made of those given. If it fails,
/// nothing is added.
pub open spec fn adds_data<E: ExtensionEncoder>(
    before: Seq<u8>,
    after: Seq<u8>,
    encoder: Option<E>,
    encoder_after: Option<E>,
    is_server: bool,
    code: DataCode,
    flags: HeaderFlags,
    payload: Seq<u8>,
    result: Result<(), Failure<E::Error>>,
) -> bool {
    exists|marked: HeaderFlags, encoded: Seq<u8>, outcome: Result<(), E::Error>|
        {
            &&& #[trigger] encoded_as(
                encoder,
                encoder_after,
                code,
                flags,
                marked,
                payload,
                encoded,
                outcome,
            )
            &&& match (outcome, result) {
                (Ok(_), Ok(_)) => adds_frame(
                    before,
                    after,
                    is_server,
                    OpCode::DataCode(code),
                    marked,
                    encoded,
                ),
                (Err(e), Err(failure)) => after == before && failure == Failure::Extension(e),
                _ => false,
            }
        }
}

/// What writing a payload leads to.
pub open spec fn written<E: ExtensionEncoder>(
    before: WriteHalfView,
    after: WriteHalfView,
    encoder: Option<E>,
    encoder_after: Option<E>,
    payload: Seq<u8>,
    message_type: PayloadType,
    flags: HeaderFlags,
    is_server: bool,
    result: Result<(), Failure<E::Error>>,
) -> bool {
    match opcode_of(message_type) {
        OpCode::ControlCode(_) => {
            &&& encoder_after == encoder
            &&& if payload.len() > CONTROL_MAX_SIZE {
                &&& result matches Err(e) && e.says(
                    protocol_fault(ProtocolErrorView::FrameOverflow),
                )
                &&& after == before
            } else {
                &&& result is Ok
                &&& adds_frame(
                    before.pending,
                    after.pending,
                    is_server,
                    opcode_of(message_type),
                    flags,
                    payload,
                )
                &&& after.pinged == if message_type is Ping {
                    payload
                } else {
                    before.pinged
                }
            }
        },
        OpCode::DataCode(code) => {
            &&& after.pinged == before.pinged
            &&& adds_data(
                before.pending,
                after.pending,
                encoder,
                encoder_after,
                is_server,
                code,
                flags,
                payload,
                result,
            )
        },
    }
}

impl WriteHalf {
    /// The writing side of a connection with this writer, and with a ping that has this payload.
    pub fn new(writer: FramedWrite, control_buffer: BytesMut) -> (half: WriteHalf)
        ensures
            half.parts() == (writer, control_buffer),
    {
        WriteHalf { writer, control_buffer }
    }

    /// The writer and the payload of the last ping.
    pub closed spec fn parts(self) -> (FramedWrite, BytesMut) {
        (self.writer, self.control_buffer)
    }

    /// Takes the writer and the payload of the last ping apart.
    pub fn into_parts(self) -> (parts: (FramedWrite, BytesMut))
        ensures
            parts == self.parts(),
    {
        (self.writer, self.control_buffer)
    }

    /// The bytes that are to be sent, in order.
    pub fn unsent(&self) -> (bytes: &[u8])
        ensures
            bytes@ == self@.pending,
    {
        self.writer.unsent()
    }

    /// Notes that the bytes have been sent.
    pub fn sent(&mut self)
        ensures
            final(self)@ == (WriteHalfView { pending: Seq::empty(), ..old(self)@ }),
    {
        self.writer.sent();
    }

    /// Adds a frame to the bytes that are to be sent.
    fn add_frame(&mut self, is_server: bool, opcode: OpCode, flags: HeaderFlags, payload: BytesMut)
        ensures
            adds_frame(
                old(self)@.pending,
                final(self)@.pending,
                is_server,
                opcode,
                flags,
                contents(payload),
            ),
            final(self)@.pinged == old(self)@.pinged,
    {
        let mask = self.writer.write(is_server, opcode, flags, payload);
        assert(masked_header(opcode, flags, mask) == FrameHeader { opcode, flags, mask });
    }

    /// Adds a close frame with a reason to the bytes that are to be sent.
    pub(crate) fn add_close(&mut self, is_server: bool, reason: CloseReason)
        ensures
            adds_frame(
                old(self)@.pending,
                final(self)@.pending,
                is_server,
                OpCode::ControlCode(ControlCode::Close),
                only_fin(),
                close_payload(reason@),
            ),
            final(self)@.pinged == old(self)@.pinged,
    {
        let opcode = OpCode::ControlCode(ControlCode::Close);
        let mask = self.writer.write_close(is_server, reason);
        assert(masked_header(opcode, only_fin(), mask) == FrameHeader {
            opcode,
            flags: only_fin(),
            mask,
        });
    }

    /// Adds a data frame to the bytes that are to be sent, encoded by the extension, if there is
    /// one.
    pub(crate) fn add_data<E: ExtensionEncoder>(
        &mut self,
        buf: &[u8],
        code: DataCode,
        flags: HeaderFlags,
        is_server: bool,
        extension: &mut Option<E>,
    ) -> (result: Result<(), Failure<E::Error>>)
        ensures
            final(self)@.pinged == old(self)@.pinged,
            adds_data(
                old(self)@.pending,
                final(self)@.pending,
                *old(extension),
                *final(extension),
                is_server,
                code,
                flags,
                buf@,
                result,
            ),
    {
        let mut payload = BytesMut::new();
        payload.extend_from_slice(buf);
        assert(contents(payload) =~= buf@);
        let mut header = FrameHeader { opcode: OpCode::DataCode(code), flags, mask: None };
        let ghost encoder = *extension;
        let outcome = extension_encode(extension, &mut payload, &mut header);
        assert(encoded_as(
            encoder,
            *extension,
            code,
            flags,
            header.flags,
            buf@,
            contents(payload),
            outcome,
        ));
        match outcome {
            Ok(_) => {
                self.add_frame(is_server, OpCode::DataCode(code), header.flags, payload);
                Ok(())
            },
            Err(e) => Err(Failure::Extension(e)),
        }
    }

    /// Adds a frame with a payload to the bytes that are to be sent. Text and binary payloads are
    /// encoded by the extension, if there is one. The payload of a ping is kept until a pong is
    /// received. A ping or a pong that is too long is refused.
    pub fn write<E: ExtensionEncoder>(
        &mut self,
        buf: &[u8],
        message_type: PayloadType,
        header_flags: HeaderFlags,
        is_server: bool,
        extension: &mut Option<E>,
    ) -> (result: Result<(), Failure<E::Error>>)
        ensures
            written::<E>(
                old(self)@,
                final(self)@,
                *old(extension),
                *final(extension),
                buf@,
                message_type,
                header_flags,
                is_server,
                result,
            ),
    {
        match message_type {
            PayloadType::Text => self.add_data(
                buf,
                DataCode::Text,
                header_flags,
                is_server,
                extension,
            ),
            PayloadType::Binary => self.add_data(
                buf,
                DataCode::Binary,
                header_flags,
                is_server,
                extension,
            ),
            PayloadType::Ping => {
                if buf.len() > CONTROL_MAX_SIZE {
                    return Err(Failure::Core(Error::protocol(ProtocolError::FrameOverflow)));
                }
                self.control_buffer.clear();
                self.control_buffer.extend_from_slice(buf);
                assert(contents(self.control_buffer) =~= buf@);
                let mut payload = BytesMut::new();
                payload.extend_from_slice(buf);
                assert(contents(payload) =~= buf@);
                self.add_frame(
                    is_server,
                    OpCode::ControlCode(ControlCode::Ping),
                    header_flags,
                    payload,
                );
                Ok(())
            },
            PayloadType::Pong => {
                if buf.len() > CONTROL_MAX_SIZE {
                    return Err(Failure::Core(Error::protocol(ProtocolError::FrameOverflow)));
                }
                let mut payload = BytesMut::new();
                payload.extend_from_slice(buf);
                assert(contents(payload) =~= buf@);
                self.add_frame(
                    is_server,
                    OpCode::ControlCode(ControlCode::Pong),
                    header_flags,
                    payload,
                );
                Ok(())
            },
        }
    }
}

/// What the caller of a read is to do.
#[derive(Debug)]
pub enum ReadStep<X> {
    /// Supply this many bytes, then read again.
    Need(usize),
    /// Send what is to be sent, and shut the stream down if `shutdown` holds. Then this is what the
    /// read has come to.
    Done {
        /// What the read has come to.
        result: Result<Message, Failure<X>>,
        /// Whether the stream is to be shut down.
        shutdown: bool,
    },
    /// Send what is to be sent, a close frame with it, and report whether that could be done. Then
    /// this is what the read has come to.
    Closing {
        /// What the read has come to.
        result: Result<Message, Failure<X>>,
    },
}

/// The payload of the close frame that answers a reason for closing: its code, or zeros where no
/// reason was given.
pub open spec fn echo_of(reason: Option<CloseReasonView>) -> Seq<u8> {
    match reason {
        Some(reason) => be16(reason.code.number()),
        None => be16(0),
    }
}

/// Flags of a frame that is a message of its own.
pub open spec fn only_fin() -> HeaderFlags {
    HeaderFlags { fin: true, rsv_1: false, rsv_2: false, rsv_3: false }
}

/// What closing leads to: the state after it, the bytes that are to be sent and the step.
pub open spec fn closes<X>(
    state: CloseState,
    after: CloseState,
    before_half: WriteHalfView,
    after_half: WriteHalfView,
    is_server: bool,
    reason: Option<CloseReasonView>,
    failure: Option<Failure<X>>,
    step: ReadStep<X>,
) -> bool {
    match state {
        CloseState::NotClosed => {
            &&& after is NotClosed
            &&& adds_frame(
                before_half.pending,
                after_half.pending,
                is_server,
                OpCode::ControlCode(ControlCode::Close),
                only_fin(),
                echo_of(reason),
            )
            &&& after_half.pinged == before_half.pinged
            &&& step matches ReadStep::Closing { result } && match (failure, result) {
                (Some(e), Err(error)) => error == e,
                (None, Ok(message)) => message@ == MessageView::Close(reason),
                _ => false,
            }
        },
        CloseState::Closing => {
            &&& after is Closed
            &&& after_half == before_half
            &&& step matches ReadStep::Done { result: Err(error), shutdown } && shutdown
                == is_server && match failure {
                Some(e) => error == e,
                None => error.says(close_fault(CloseCause::Stopped)),
            }
        },
        CloseState::Closed => {
            &&& after is Closed
            &&& after_half == before_half
            &&& step matches ReadStep::Done { result: Err(error), shutdown } && !shutdown
                && error.says(close_fault(CloseCause::Error))
        },
    }
}

/// What closing leads to after a failure that says what `error` says.
pub open spec fn closes_for<X>(
    state: CloseState,
    after: CloseState,
    before_half: WriteHalfView,
    after_half: WriteHalfView,
    is_server: bool,
    error: ErrorView,
    step: ReadStep<X>,
) -> bool {
    exists|e: Error|
        e@ == error && #[trigger] closes(
            state,
            after,
            before_half,
            after_half,
            is_server,
            None,
            Some(Failure::Core(e)),
            step,
        )
}

/// What closing leads to after a failure of the extension.
pub open spec fn closes_for_extension<X>(
    state: CloseState,
    after: CloseState,
    before_half: WriteHalfView,
    after_half: WriteHalfView,
    is_server: bool,
    step: ReadStep<X>,
) -> bool {
    exists|e: X| #[trigger]
        closes(
            state,
            after,
            before_half,
            after_half,
            is_server,
            None,
            Some(Failure::Extension(e)),
            step,
        )
}

/// Answers a close frame, or a failure to read.
///
/// An open connection is answered with a close frame: `close_sent` is to be told whether it could
/// be sent. The echo of a close frame that this end has sent closes the connection. The server
/// shuts the stream down first.
pub fn close<X>(
    state: &mut CloseState,
    half: &mut WriteHalf,
    is_server: bool,
    reason: Option<CloseReason>,
    failure: Option<Failure<X>>,
) -> (step: ReadStep<X>)
    ensures
        closes(
            *old(state),
            *final(state),
            old(half)@,
            final(half)@,
            is_server,
            reason_of(reason),
            failure,
            step,
        ),
{
    match *state {
        CloseState::NotClosed => {
            let code: u16 = match &reason {
                Some(reason) => u16::from(reason.code),
                None => 0,
            };
            let mut payload = BytesMut::new();
            put_u16(&mut payload, code);
            assert(contents(payload) =~= echo_of(reason_of(reason)));
            half.add_frame(
                is_server,
                OpCode::ControlCode(ControlCode::Close),
                HeaderFlags::final_frame(),
                payload,
            );
            let result = match failure {
                Some(e) => Err(e),
                None => Ok(Message::Close(reason)),
            };
            ReadStep::Closing { result }
        },
        CloseState::Closing => {
            *state = CloseState::Closed;
            let error = match failure {
                Some(e) => e,
                None => Failure::Core(Error::close(CloseCause::Stopped)),
            };
            ReadStep::Done { result: Err(error), shutdown: is_server }
        },
        CloseState::Closed => {
            let error = Failure::Core(Error::close(CloseCause::Error));
            ReadStep::Done { result: Err(error), shutdown: false }
        },
    }
}

/// Closes a connection after a failure.
pub fn fail<X>(state: &mut CloseState, half: &mut WriteHalf, is_server: bool, error: Error) -> (step:
    ReadStep<X>)
    ensures
        closes_for(
            *old(state),
            *final(state),
            old(half)@,
            final(half)@,
            is_server,
            error@,
            step,
        ),
{
    let ghost failed = error;
    let step = close(state, half, is_server, None, Some(Failure::Core(error)));
    assert(closes(
        *old(state),
        *state,
        old(half)@,
        half@,
        is_server,
        None,
        Some(Failure::<X>::Core(failed)),
        step,
    ));
    step
}

/// Notes whether the close frame that answers a peer could be sent. If it was, the peer's echo is
/// awaited; if it was not, the connection is closed. Returns whether the stream is to be shut down,
/// which the server does first.
pub fn close_sent(state: &mut CloseState, is_server: bool, sent: bool) -> (shutdown: bool)
    ensures
        *final(state) == if sent {
            CloseState::Closing
        } else {
            CloseState::Closed
        },
        shutdown == (is_server && !sent),
{
    if sent {
        *state = CloseState::Closing;
        false
    } else {
        *state = CloseState::Closed;
        is_server
    }
}

/// Whether a step says that a message was read and nothing else is to be done.
pub open spec fn reads<X>(step: ReadStep<X>, message: MessageView) -> bool {
    step matches ReadStep::Done { result: Ok(read), shutdown: false } && read@ == message
}

/// What reading leads to if the extension, if there is one, does not fail.
pub open spec fn received<X>(
    state: CloseState,
    after: CloseState,
    before_half: WriteHalfView,
    after_half: WriteHalfView,
    is_server: bool,
    outcome: ProgressView,
    step: ReadStep<X>,
) -> bool {
    match outcome {
        ProgressView::Need(count) => after == state && after_half == before_half && step
            == ReadStep::<X>::Need(count),
        ProgressView::Item(ItemView::Binary) => after == state && after_half == before_half
            && reads(step, MessageView::Binary),
        ProgressView::Item(ItemView::Text) => after == state && after_half == before_half && reads(
            step,
            MessageView::Text,
        ),
        ProgressView::Item(ItemView::Ping(payload)) => {
            &&& after == state
            &&& adds_frame(
                before_half.pending,
                after_half.pending,
                is_server,
                OpCode::ControlCode(ControlCode::Pong),
                only_fin(),
                payload,
            )
            &&& after_half.pinged == before_half.pinged
            &&& reads(step, MessageView::Ping(payload))
        },
        ProgressView::Item(ItemView::Pong(payload)) => {
            &&& after == state
            &&& after_half == (WriteHalfView { pinged: Seq::empty(), ..before_half })
            &&& reads(step, MessageView::Pong(payload))
        },
        ProgressView::Item(ItemView::Close(reason, _)) => closes(
            state,
            after,
            before_half,
            after_half,
            is_server,
            reason,
            None,
            step,
        ),
        ProgressView::Fail(e) => closes_for(
            state,
            after,
            before_half,
            after_half,
            is_server,
            e.error,
            step,
        ),
    }
}

/// What a result of reading leads to.
pub open spec fn handled<X>(
    state: CloseState,
    after: CloseState,
    before_half: WriteHalfView,
    after_half: WriteHalfView,
    is_server: bool,
    result: Result<Progress, ReadFailure<X>>,
    step: ReadStep<X>,
) -> bool {
    match result {
        Err(ReadFailure::Extension(e)) => closes(
            state,
            after,
            before_half,
            after_half,
            is_server,
            None,
            Some(Failure::Extension(e)),
            step,
        ),
        Err(ReadFailure::Read(e)) => received(
            state,
            after,
            before_half,
            after_half,
            is_server,
            ProgressView::Fail(e@),
            step,
        ),
        Ok(Progress::Need(count)) => received(
            state,
            after,
            before_half,
            after_half,
            is_server,
            ProgressView::Need(count),
            step,
        ),
        Ok(Progress::Item(item)) => received(
            state,
            after,
            before_half,
            after_half,
            is_server,
            ProgressView::Item(item@),
            step,
        ),
    }
}

/// Whether reading, with an extension if there is one, may lead to a step.
pub open spec fn receives<D: ExtensionDecoder>(
    before: Reception<D>,
    max_size: usize,
    after: Reception<D>,
    state: CloseState,
    state_after: CloseState,
    before_half: WriteHalfView,
    after_half: WriteHalfView,
    step: ReadStep<D::Error>,
) -> bool {
    exists|result: Result<Progress, ReadFailure<D::Error>>|
        #[trigger] reads_on(before, max_size, after, result) && handled(
            state,
            state_after,
            before_half,
            after_half,
            before.state.flags.role,
            result,
            step,
        )
}

/// What reading leads to without an extension, or with one that does not fail.
pub proof fn lemma_receives_as_run<D: ExtensionDecoder>(
    before: Reception<D>,
    max_size: usize,
    after: Reception<D>,
    state: CloseState,
    state_after: CloseState,
    before_half: WriteHalfView,
    after_half: WriteHalfView,
    step: ReadStep<D::Error>,
)
    requires
        receives(
            before,
            max_size,
            after,
            state,
            state_after,
            before_half,
            after_half,
            step,
        ),
    ensures
        ({
            let run = read_run(before.state, max_size);
            ||| {
                &&& after.state == run.state
                &&& before.extension is None ==> after.data == before.data + run.data
                &&& received(
                    state,
                    state_after,
                    before_half,
                    after_half,
                    before.state.flags.role,
                    run.outcome,
                    step,
                )
            }
            ||| before.extension is Some && closes_for_extension(
                state,
                state_after,
                before_half,
                after_half,
                before.state.flags.role,
                step,
            )
        }),
        after.extension is None <==> before.extension is None,
{
    let result = choose|result: Result<Progress, ReadFailure<D::Error>>|
        #[trigger] reads_on(before, max_size, after, result) && handled(
            state,
            state_after,
            before_half,
            after_half,
            before.state.flags.role,
            result,
            step,
        );
    lemma_reads_as_run(before, max_size, after, result);
}

/// Reads from a connection that is not closed. Pings are answered, pongs settle the last ping, and
/// close frames and failures start or complete the closing handshake.
///
/// If the extension fails, the connection is closed with its failure.
pub fn receive<D: ExtensionDecoder>(
    state: &mut CloseState,
    half: &mut WriteHalf,
    reader: &mut FramedRead,
    flags: &mut CodecFlags,
    max_size: usize,
    extension: &mut Option<D>,
    read_buffer: &mut BytesMut,
) -> (step: ReadStep<D::Error>)
    requires
        old(reader).wf(),
    ensures
        final(reader).wf(),
        final(flags).role == old(flags).role,
        receives(
            reception(*old(flags), *old(reader), *old(read_buffer), *old(extension)),
            max_size,
            reception(*final(flags), *final(reader), *final(read_buffer), *final(extension)),
            *old(state),
            *final(state),
            old(half)@,
            final(half)@,
            step,
        ),
{
    let is_server = flags.role;
    let ghost before = reception(*flags, *reader, *read_buffer, *extension);
    let result = read_next(reader, flags, max_size, read_buffer, extension);
    assert(reads_on(
        before,
        max_size,
        reception(*flags, *reader, *read_buffer, *extension),
        result,
    ));
    match result {
        Ok(Progress::Need(count)) => ReadStep::Need(count),
        Ok(Progress::Item(Item::Binary)) => ReadStep::Done {
            result: Ok(Message::Binary),
            shutdown: false,
        },
        Ok(Progress::Item(Item::Text)) => ReadStep::Done {
            result: Ok(Message::Text),
            shutdown: false,
        },
        Ok(Progress::Item(Item::Ping(payload))) => {
            let answer = payload.clone();
            half.add_frame(
                is_server,
                OpCode::ControlCode(ControlCode::Pong),
                HeaderFlags::final_frame(),
                answer,
            );
            ReadStep::Done { result: Ok(Message::Ping(payload.freeze())), shutdown: false }
        },
        Ok(Progress::Item(Item::Pong(payload))) => {
            half.control_buffer.clear();
            ReadStep::Done { result: Ok(Message::Pong(payload.freeze())), shutdown: false }
        },
        Ok(Progress::Item(Item::Close((reason, _)))) => close(
            state,
            half,
            is_server,
            reason,
            None,
        ),
        Err(ReadFailure::Read(e)) => fail(state, half, is_server, e.error),
        Err(ReadFailure::Extension(e)) => close(
            state,
            half,
            is_server,
            None,
            Some(Failure::Extension(e)),
        ),
    }
}

/// A text or binary message that one end sends without an extension is read back by the other end.
pub proof fn lemma_message_read_back<E: ExtensionEncoder>(
    flags: CodecFlags,
    before: WriteHalfView,
    after: WriteHalfView,
    encoder_after: Option<E>,
    message_type: PayloadType,
    payload: Seq<u8>,
    result: Result<(), Failure<E::Error>>,
    rest: Seq<u8>,
    max_size: usize,
)
    requires
        !flags.r_cont && !flags.cont_type,
        payload.len() <= max_size,
        message_type is Text || message_type is Binary,
        written(
            before,
            after,
            None::<E>,
            encoder_after,
            payload,
            message_type,
            only_fin(),
            !flags.role,
            result,
        ),
    ensures
        result is Ok,
        read_run(
            ReadState {
                flags,
                position: FrameDecoder::DecodingHeader,
                buffered: after.pending.skip(before.pending.len() as int) + rest,
            },
            max_size,
        ) == (ReadRun {
            state: ReadState { flags, position: FrameDecoder::DecodingHeader, buffered: rest },
            data: payload,
            outcome: ProgressView::Item(
                if message_type is Text {
                    ItemView::Text
                } else {
                    ItemView::Binary
                },
            ),
        }),
{
    let opcode = opcode_of(message_type);
    let mask = choose|mask: Option<u32>|
        (mask is None <==> !flags.role) && after.pending == before.pending + frame_bytes(
            #[trigger] masked_header(opcode, only_fin(), mask),
            payload,
        );
    let code = opcode->DataCode_0;
    let frame = frame_bytes(masked_header(opcode, only_fin(), mask), payload);
    assert(after.pending.skip(before.pending.len() as int) =~= frame);
    assert(masked_header(opcode, only_fin(), mask) == fragment_header(code, mask, true));
    let masks = seq![mask];
    let parts = seq![payload];
    assert(fragments(DataCode::Continuation, masks.skip(1), parts.skip(1)) =~= Seq::<u8>::empty());
    assert(fragments(code, masks, parts) =~= frame);
    assert(joined(parts.skip(1)) =~= Seq::<u8>::empty());
    assert(joined(parts) =~= payload);
    lemma_message_round_trip(flags, code, masks, parts, rest, max_size);
}

/// Whether a decoder makes a payload again of whatever an encoder makes of it, and is given it: what
/// the encoder makes of it is not too long, and only reserved bits that were negotiated are set.
pub open spec fn undoes<E: ExtensionEncoder, D: ExtensionDecoder>(
    decoder: D,
    encoder: E,
    flags: CodecFlags,
    code: DataCode,
    payload: Seq<u8>,
    max_size: usize,
) -> bool {
    forall|encoder_after: E, marked: HeaderFlags, encoded: Seq<u8>|
        #[trigger] may_encode(
            encoder,
            encoder_after,
            code,
            only_fin(),
            marked,
            payload,
            encoded,
            Ok(()),
        ) ==> {
            &&& encoded.len() <= max_size
            &&& negotiated(masked_header(OpCode::DataCode(code), marked, None), flags.unknown_bits())
            &&& forall|decoder_after: D, decoded: Seq<u8>, outcome: Result<(), D::Error>|
                #[trigger] may_decode(
                    decoder,
                    decoder_after,
                    extension_header(marked, code),
                    encoded,
                    decoded,
                    outcome,
                ) ==> outcome is Ok && decoded == payload
        }
}

/// What taking a frame that is a message of its own comes to.
proof fn lemma_takes_message<D: ExtensionDecoder>(
    flags: CodecFlags,
    header: FrameHeader,
    code: DataCode,
    payload: Seq<u8>,
    rest: Seq<u8>,
    decoder: Option<D>,
    max_size: usize,
    after: Reception<D>,
    result: Result<Option<Progress>, ReadFailure<D::Error>>,
)
    requires
        !flags.r_cont,
        header.opcode == OpCode::DataCode(code),
        header.flags.fin,
        header.mask is Some <==> flags.role,
        code is Text || code is Binary,
        negotiated(header, flags.unknown_bits()),
        payload.len() <= max_size,
        takes_frame(
            Reception {
                state: ReadState {
                    flags,
                    position: FrameDecoder::DecodingHeader,
                    buffered: frame_bytes(header, payload) + rest,
                },
                data: Seq::empty(),
                extension: decoder,
            },
            max_size,
            after,
            result,
        ),
    ensures
        after.state == (ReadState {
            flags,
            position: FrameDecoder::DecodingHeader,
            buffered: rest,
        }),
        match result {
            Err(ReadFailure::Extension(e)) => decoded_as(
                decoder,
                after.extension,
                header.flags,
                code,
                payload,
                after.data,
                Err(e),
            ),
            Ok(Some(Progress::Item(item))) => decoded_as(
                decoder,
                after.extension,
                header.flags,
                code,
                payload,
                after.data,
                Ok(()),
            ) && item@ == if code is Text {
                ItemView::Text
            } else {
                ItemView::Binary
            },
            _ => false,
        },
{
    reveal(takes_frame);
    lemma_frame_round_trip(header, payload, rest, flags.unknown_bits(), max_size);
    assert(Seq::<u8>::empty() + payload =~= payload);
}

/// A text or binary message that one end sends with an extension is read back by the other end, if
/// the extension's decoder undoes what its encoder does.
pub proof fn lemma_extended_message_read_back<E: ExtensionEncoder, D: ExtensionDecoder>(
    flags: CodecFlags,
    before: WriteHalfView,
    after: WriteHalfView,
    encoder: E,
    encoder_after: Option<E>,
    decoder: D,
    message_type: PayloadType,
    payload: Seq<u8>,
    rest: Seq<u8>,
    max_size: usize,
    reception: Reception<D>,
    result: Result<Progress, ReadFailure<D::Error>>,
)
    requires
        !flags.r_cont,
        message_type is Text || message_type is Binary,
        undoes(decoder, encoder, flags, opcode_of(message_type)->DataCode_0, payload, max_size),
        written(
            before,
            after,
            Some(encoder),
            encoder_after,
            payload,
            message_type,
            only_fin(),
            !flags.role,
            Ok(()),
        ),
        reads_on(
            Reception {
                state: ReadState {
                    flags,
                    position: FrameDecoder::DecodingHeader,
                    buffered: after.pending.skip(before.pending.len() as int) + rest,
                },
                data: Seq::empty(),
                extension: Some(decoder),
            },
            max_size,
            reception,
            result,
        ),
    ensures
        result matches Ok(Progress::Item(item)) && item@ == if message_type is Text {
            ItemView::Text
        } else {
            ItemView::Binary
        },
        reception.data == payload,
        reception.state == (ReadState {
            flags,
            position: FrameDecoder::DecodingHeader,
            buffered: rest,
        }),
{
    let code = opcode_of(message_type)->DataCode_0;
    let opcode = OpCode::DataCode(code);
    let (marked, encoded, outcome) = choose|
        marked: HeaderFlags,
        encoded: Seq<u8>,
        outcome: Result<(), E::Error>,
    |
        {
            &&& #[trigger] encoded_as(
                Some(encoder),
                encoder_after,
                code,
                only_fin(),
                marked,
                payload,
                encoded,
                outcome,
            )
            &&& outcome is Ok
            &&& adds_frame(before.pending, after.pending, !flags.role, opcode, marked, encoded)
        };
    assert(outcome->Ok_0 == ());
    assert(may_encode(
        encoder,
        encoder_after->0,
        code,
        only_fin(),
        marked,
        payload,
        encoded,
        Ok(()),
    ));
    let mask = choose|mask: Option<u32>|
        (mask is None <==> !flags.role) && after.pending == before.pending + frame_bytes(
            #[trigger] masked_header(opcode, marked, mask),
            encoded,
        );
    let header = masked_header(opcode, marked, mask);
    assert(after.pending.skip(before.pending.len() as int) =~= frame_bytes(header, encoded));
    let start = Reception {
        state: ReadState {
            flags,
            position: FrameDecoder::DecodingHeader,
            buffered: frame_bytes(header, encoded) + rest,
        },
        data: Seq::empty(),
        extension: Some(decoder),
    };
    assert forall|next: Reception<D>| !(#[trigger] takes_frame(start, max_size, next, Ok(None))) by {
        if takes_frame(start, max_size, next, Ok(None)) {
            lemma_takes_message(
                flags,
                header,
                code,
                encoded,
                rest,
                Some(decoder),
                max_size,
                next,
                Ok(None),
            );
        }
    }
    let last = match result {
        Ok(progress) => Ok(Some(progress)),
        Err(e) => Err(e),
    };
    lemma_takes_message(
        flags,
        header,
        code,
        encoded,
        rest,
        Some(decoder),
        max_size,
        reception,
        last,
    );
}

/// A control frame that one end sends is read by the other end, at any time.
pub proof fn lemma_control_read_back(
    flags: CodecFlags,
    before: Seq<u8>,
    after: Seq<u8>,
    code: ControlCode,
    payload: Seq<u8>,
    rest: Seq<u8>,
    max_size: usize,
)
    requires
        payload.len() <= max_size,
        adds_frame(
            before,
            after,
            !flags.role,
            OpCode::ControlCode(code),
            only_fin(),
            payload,
        ),
    ensures
        read_run(
            ReadState {
                flags,
                position: FrameDecoder::DecodingHeader,
                buffered: after.skip(before.len() as int) + rest,
            },
            max_size,
        ) == (ReadRun {
            state: ReadState { flags, position: FrameDecoder::DecodingHeader, buffered: rest },
            data: Seq::empty(),
            outcome: match accept_control(code, payload) {
                Ok(item) => ProgressView::Item(item),
                Err(e) => ProgressView::Fail(e),
            },
        }),
{
    let opcode = OpCode::ControlCode(code);
    let mask = choose|mask: Option<u32>|
        (mask is None <==> !flags.role) && after == before + frame_bytes(
            #[trigger] masked_header(opcode, only_fin(), mask),
            payload,
        );
    assert(masked_header(opcode, only_fin(), mask) == control_header(code, mask));
    assert(after.skip(before.len() as int) =~= frame_bytes(control_header(code, mask), payload));
    lemma_control_between_fragments(flags, code, mask, payload, rest, max_size);
}

/// A ping that one end sends is read by the other end with its payload, and so is the pong that
/// answers it.
pub proof fn lemma_ping_pong_read_back(
    flags: CodecFlags,
    before: Seq<u8>,
    after: Seq<u8>,
    message_type: PayloadType,
    payload: Seq<u8>,
    rest: Seq<u8>,
    max_size: usize,
)
    requires
        message_type is Ping || message_type is Pong,
        payload.len() <= CONTROL_MAX_SIZE <= max_size,
        adds_frame(before, after, !flags.role, opcode_of(message_type), only_fin(), payload),
    ensures
        ({
            let run = read_run(
                ReadState {
                    flags,
                    position: FrameDecoder::DecodingHeader,
                    buffered: after.skip(before.len() as int) + rest,
                },
                max_size,
            );
            &&& run.outcome == ProgressView::Item(
                if message_type is Ping {
                    ItemView::Ping(payload)
                } else {
                    ItemView::Pong(payload)
                },
            )
            &&& run.data.len() == 0
            &&& run.state == (ReadState {
                flags,
                position: FrameDecoder::DecodingHeader,
                buffered: rest,
            })
        }),
{
    let code = opcode_of(message_type)->ControlCode_0;
    lemma_control_read_back(flags, before, after, code, payload, rest, max_size);
}

/// A ping that comes behind fragments of a message that is not complete is handed to the caller at once
/// and answered with one pong that has its payload. The data of the fragments has been received, that of
/// the ping has not, the closing handshake is where it was, and what follows is left. Only an extension
/// that fails to decode the data can change that.
pub proof fn lemma_ping_answered_amid_fragments<D: ExtensionDecoder>(
    flags: CodecFlags,
    code: DataCode,
    masks: Seq<Option<u32>>,
    parts: Seq<Seq<u8>>,
    mask: Option<u32>,
    payload: Seq<u8>,
    rest: Seq<u8>,
    max_size: usize,
    data: Seq<u8>,
    extension: Option<D>,
    after: Reception<D>,
    state: CloseState,
    state_after: CloseState,
    before_half: WriteHalfView,
    after_half: WriteHalfView,
    step: ReadStep<D::Error>,
)
    requires
        masks.len() == parts.len(),
        forall|i: int| 0 <= i < masks.len() ==> (#[trigger] masks[i] is Some <==> flags.role),
        forall|i: int| 0 <= i < parts.len() ==> (#[trigger] parts[i]).len() <= max_size,
        flags.r_cont <==> code is Continuation,
        mask is Some <==> flags.role,
        payload.len() <= CONTROL_MAX_SIZE,
        payload.len() <= max_size,
        receives(
            Reception {
                state: ReadState {
                    flags,
                    position: FrameDecoder::DecodingHeader,
                    buffered: unfinished(code, masks, parts) + (frame_bytes(
                        control_header(ControlCode::Ping, mask),
                        payload,
                    ) + rest),
                },
                data,
                extension,
            },
            max_size,
            after,
            state,
            state_after,
            before_half,
            after_half,
            step,
        ),
    ensures
        ({
            ||| {
                &&& reads(step, MessageView::Ping(payload))
                &&& adds_frame(
                    before_half.pending,
                    after_half.pending,
                    flags.role,
                    OpCode::ControlCode(ControlCode::Pong),
                    only_fin(),
                    payload,
                )
                &&& after_half.pinged == before_half.pinged
                &&& state_after == state
                &&& extension is None ==> after.data == data + joined(parts)
                &&& after.state == (ReadState {
                    flags: flags_amid(flags, code, parts.len()),
                    position: FrameDecoder::DecodingHeader,
                    buffered: rest,
                })
            }
            ||| extension is Some && closes_for_extension(
                state,
                state_after,
                before_half,
                after_half,
                flags.role,
                step,
            )
        }),
        after.extension is None <==> extension is None,
{
    let before = Reception {
        state: ReadState {
            flags,
            position: FrameDecoder::DecodingHeader,
            buffered: unfinished(code, masks, parts) + (frame_bytes(
                control_header(ControlCode::Ping, mask),
                payload,
            ) + rest),
        },
        data,
        extension,
    };
    lemma_ping_amid_fragments(flags, code, masks, parts, mask, payload, rest, max_size);
    lemma_receives_as_run(
        before,
        max_size,
        after,
        state,
        state_after,
        before_half,
        after_half,
        step,
    );
}

/// A read that follows goes on with the message: its remaining fragments complete it, their data is
/// received behind the data before, and nothing is sent. Only an extension that fails to decode the data
/// can change that.
pub proof fn lemma_message_goes_on<D: ExtensionDecoder>(
    flags: CodecFlags,
    code: DataCode,
    masks: Seq<Option<u32>>,
    parts: Seq<Seq<u8>>,
    rest: Seq<u8>,
    max_size: usize,
    data: Seq<u8>,
    extension: Option<D>,
    after: Reception<D>,
    state: CloseState,
    state_after: CloseState,
    before_half: WriteHalfView,
    after_half: WriteHalfView,
    step: ReadStep<D::Error>,
)
    requires
        parts.len() > 0,
        masks.len() == parts.len(),
        forall|i: int| 0 <= i < masks.len() ==> (#[trigger] masks[i] is Some <==> flags.role),
        forall|i: int| 0 <= i < parts.len() ==> (#[trigger] parts[i]).len() <= max_size,
        flags.r_cont <==> code is Continuation,
        flags.cont_type ==> flags.r_cont,
        receives(
            Reception {
                state: ReadState {
                    flags,
                    position: FrameDecoder::DecodingHeader,
                    buffered: fragments(code, masks, parts) + rest,
                },
                data,
                extension,
            },
            max_size,
            after,
            state,
            state_after,
            before_half,
            after_half,
            step,
        ),
    ensures
        ({
            ||| {
                &&& reads(
                    step,
                    if code is Text || flags.cont_type {
                        MessageView::Text
                    } else {
                        MessageView::Binary
                    },
                )
                &&& after_half == before_half
                &&& state_after == state
                &&& extension is None ==> after.data == data + joined(parts)
                &&& after.state == (ReadState {
                    flags: CodecFlags { r_cont: false, cont_type: false, ..flags },
                    position: FrameDecoder::DecodingHeader,
                    buffered: rest,
                })
            }
            ||| extension is Some && closes_for_extension(
                state,
                state_after,
                before_half,
                after_half,
                flags.role,
                step,
            )
        }),
{
    let before = Reception {
        state: ReadState {
            flags,
            position: FrameDecoder::DecodingHeader,
            buffered: fragments(code, masks, parts) + rest,
        },
        data,
        extension,
    };
    lemma_fragments_run(flags, code, masks, parts, rest, max_size);
    lemma_receives_as_run(
        before,
        max_size,
        after,
        state,
        state_after,
        before_half,
        after_half,
        step,
    );
}

/// A reason for closing that one end sends is read by the other end, if its code may be sent and its
/// description, if there is one, says anything.
pub proof fn lemma_reason_read_back(
    flags: CodecFlags,
    before: Seq<u8>,
    after: Seq<u8>,
    reason: CloseReasonView,
    rest: Seq<u8>,
    max_size: usize,
)
    requires
        reason.code.in_range(),
        !reason.code.illegal(),
        reason.description matches Some(description) ==> description.len() > 0,
        close_payload(reason).len() <= max_size,
        adds_frame(
            before,
            after,
            !flags.role,
            OpCode::ControlCode(ControlCode::Close),
            only_fin(),
            close_payload(reason),
        ),
    ensures
        read_run(
            ReadState {
                flags,
                position: FrameDecoder::DecodingHeader,
                buffered: after.skip(before.len() as int) + rest,
            },
            max_size,
        ).outcome == ProgressView::Item(ItemView::Close(Some(reason), close_payload(reason))),
{
    lemma_reason_round_trip(reason);
    lemma_control_read_back(
        flags,
        before,
        after,
        ControlCode::Close,
        close_payload(reason),
        rest,
        max_size,
    );
}

/// The close frame that answers a reason is read by the end that sent the reason as its code alone.
pub proof fn lemma_echo_read_back(
    flags: CodecFlags,
    before: Seq<u8>,
    after: Seq<u8>,
    reason: CloseReasonView,
    rest: Seq<u8>,
    max_size: usize,
)
    requires
        reason.code.in_range(),
        !reason.code.illegal(),
        2 <= max_size,
        adds_frame(
            before,
            after,
            !flags.role,
            OpCode::ControlCode(ControlCode::Close),
            only_fin(),
            echo_of(Some(reason)),
        ),
    ensures
        read_run(
            ReadState {
                flags,
                position: FrameDecoder::DecodingHeader,
                buffered: after.skip(before.len() as int) + rest,
            },
            max_size,
        ).outcome == ProgressView::Item(
            ItemView::Close(
                Some(CloseReasonView { code: reason.code, description: None }),
                echo_of(Some(reason)),
            ),
        ),
{
    let bare = CloseReasonView { code: reason.code, description: None };
    assert(close_payload(bare) == echo_of(Some(reason)));
    lemma_reason_read_back(flags, before, after, bare, rest, max_size);
}

/// The closing handshake ends: an end that has sent a close frame and receives one is closed, told
/// that it has stopped, and told that it is closed from then on. The server shuts the stream down.
pub proof fn lemma_closing_ends<X>(
    after: CloseState,
    before_half: WriteHalfView,
    after_half: WriteHalfView,
    is_server: bool,
    item: ItemView,
    step: ReadStep<X>,
)
    requires
        item is Close,
        received(
            CloseState::Closing,
            after,
            before_half,
            after_half,
            is_server,
            ProgressView::Item(item),
            step,
        ),
    ensures
        after is Closed,
        after_half == before_half,
        step matches ReadStep::Done { result: Err(e), shutdown } && shutdown == is_server && e.says(
            close_fault(CloseCause::Stopped),
        ),
{
}

/// An end that is open and receives a close frame sends one back, with the code that it received, and
/// hands the reason to the caller.
pub proof fn lemma_closing_answered<X>(
    after: CloseState,
    before_half: WriteHalfView,
    after_half: WriteHalfView,
    is_server: bool,
    reason: Option<CloseReasonView>,
    payload: Seq<u8>,
    step: ReadStep<X>,
)
    requires
        received(
            CloseState::NotClosed,
            after,
            before_half,
            after_half,
            is_server,
            ProgressView::Item(ItemView::Close(reason, payload)),
            step,
        ),
    ensures
        step matches ReadStep::Closing { result: Ok(message) } && message@ == MessageView::Close(
            reason,
        ),
        adds_frame(
            before_half.pending,
            after_half.pending,
            is_server,
            OpCode::ControlCode(ControlCode::Close),
            only_fin(),
            echo_of(reason),
        ),
{
}

} // verus!
