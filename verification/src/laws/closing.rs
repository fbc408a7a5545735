//! What closes a connection, and how.

use crate::buffer::{be16, contents};
use crate::errors::{
    close_fault, protocol_fault, worded, CloseCause, Error, ErrorKind, ErrorView, ProtocolErrorView,
};
use crate::framed::{
    close_payload, closing, control_header, decode_step, frame_bytes,
    lemma_control_between_fragments, lemma_frame_round_trip, read_run, reads_on, takes_frame,
    Decoded, ItemView, Progress, ProgressView, ReadFailure, ReadState, Reception,
};
use crate::laws::frames::{lemma_sends, plain_header, sends};
use crate::protocol::{
    lemma_close_code_round_trip, CloseReason, CloseReasonView, ControlCode, DataCode, FrameHeader,
    MessageView, OpCode,
};
use crate::ratchet_ext::{Extension, ExtensionDecoder, ExtensionEncoder};
use crate::session::{
    closes_for, echo_of, handled, received, receives, CloseState, ReadStep, WriteHalfView,
};
use crate::split::{Receiver, Sender, Shared};
use crate::text::{decimal, utf8_fault};
use crate::ws::WebSocket;
use bytes::BytesMut;
use vstd::prelude::*;
use vstd::utf8::{
    decode_utf8, decode_utf8_encode_utf8, encode_utf8, encode_utf8_decode_utf8,
    encode_utf8_valid_utf8, valid_utf8,
};

verus! {

/// The payload of a close frame: the number of the code in two bytes, then the description.
pub open spec fn reason_bytes(reason: CloseReasonView) -> Seq<u8> {
    let number = reason.code.number();
    seq![(number / 256) as u8, (number % 256) as u8] + match reason.description {
        Some(description) => encode_utf8(description),
        None => Seq::empty(),
    }
}

/// What a connection comes to if it is closed because of `error`.
///
/// If it is open, a close frame without a code is to be sent, and the caller gets the error and is
/// to report whether it could be. If a close frame has been sent before, the connection is closed,
/// the caller gets the error, and a server shuts the stream down. If the connection is closed, the
/// caller is told so.
pub open spec fn closes_with<X>(
    is_server: bool,
    state: CloseState,
    state_after: CloseState,
    before: WriteHalfView,
    after: WriteHalfView,
    error: ErrorView,
    step: ReadStep<X>,
) -> bool {
    match state {
        CloseState::NotClosed => {
            &&& step matches ReadStep::Closing { result: Err(e) } && e.says(error)
            &&& state_after is NotClosed
            &&& after.pinged == before.pinged
            &&& sends(
                before.pending,
                after.pending,
                is_server,
                OpCode::ControlCode(ControlCode::Close),
                seq![0, 0],
            )
        },
        CloseState::Closing => {
            &&& step matches ReadStep::Done { result: Err(e), shutdown } && e.says(error)
                && shutdown == is_server
            &&& state_after is Closed
            &&& after == before
        },
        CloseState::Closed => {
            &&& step matches ReadStep::Done { result: Err(e), shutdown: false } && e.says(
                close_fault(CloseCause::Error),
            )
            &&& state_after is Closed
            &&& after == before
        },
    }
}

/// What a connection comes to if it is closed because of an error.
proof fn lemma_closes_with<X>(
    is_server: bool,
    state: CloseState,
    state_after: CloseState,
    before: WriteHalfView,
    after: WriteHalfView,
    error: ErrorView,
    step: ReadStep<X>,
)
    requires
        closes_for(state, state_after, before, after, is_server, error, step),
    ensures
        closes_with(is_server, state, state_after, before, after, error, step),
{
    if state is NotClosed {
        assert(be16(0) =~= seq![0u8, 0u8]);
        lemma_sends(
            before.pending,
            after.pending,
            is_server,
            OpCode::ControlCode(ControlCode::Close),
            seq![0, 0],
        );
    }
}

/// A stream that cannot be read closes its WebSocket, for the cause that is given.
pub proof fn law_read_failed_closes<E: Extension>(
    socket: &mut WebSocket<E>,
    cause: String,
    step: ReadStep<<E as ExtensionDecoder>::Error>,
)
    requires
        call_ensures(WebSocket::<E>::read_failed, (socket, cause), step),
    ensures
        closes_with(
            old(socket).framed_parts().flags.role,
            old(socket).state(),
            final(socket).state(),
            old(socket).half(),
            final(socket).half(),
            worded(ErrorKind::IO, cause@),
            step,
        ),
        final(socket).reading() == old(socket).reading(),
        final(socket).extended() == old(socket).extended(),
{
    lemma_closes_with(
        old(socket).framed_parts().flags.role,
        old(socket).state(),
        final(socket).state(),
        old(socket).half(),
        final(socket).half(),
        worded(ErrorKind::IO, cause@),
        step,
    );
}

/// A stream that cannot be read closes the connection of its receiver, for the cause that is given.
pub proof fn law_receiver_read_failed_closes<D: ExtensionDecoder>(
    receiver: &mut Receiver<D>,
    shared: &mut Shared,
    cause: String,
    step: ReadStep<D::Error>,
)
    requires
        old(receiver).wf(),
        call_ensures(Receiver::<D>::read_failed, (receiver, shared, cause), step),
    ensures
        closes_with(
            old(receiver).end() is Server,
            old(shared)@.close_state,
            final(shared)@.close_state,
            old(shared)@.half,
            final(shared)@.half,
            worded(ErrorKind::IO, cause@),
            step,
        ),
        final(shared)@.id == old(shared)@.id,
        *final(receiver) == *old(receiver),
{
    lemma_closes_with(
        old(receiver).end() is Server,
        old(shared)@.close_state,
        final(shared)@.close_state,
        old(shared)@.half,
        final(shared)@.half,
        worded(ErrorKind::IO, cause@),
        step,
    );
}

/// What a frame that breaks the protocol is rejected for, if its first two bytes show it. An
/// operation code that is not defined comes before everything else, then a control frame that is
/// not whole, then a reserved bit that was not negotiated, then the mask, which a client must use
/// and a server must not.
pub open spec fn breach_of(
    first: u8,
    second: u8,
    is_server: bool,
    rsv1: bool,
    rsv2: bool,
    rsv3: bool,
) -> Option<Seq<char>> {
    let code = first % 16;
    if 3 <= code <= 7 || 11 <= code {
        Some("Reserved OpCode: `"@ + decimal(code as nat) + "`"@)
    } else if code >= 8 && first < 128 {
        Some("Received a fragmented control frame"@)
    } else if (first / 64) % 2 == 1 && !rsv1 || (first / 32) % 2 == 1 && !rsv2 || (first / 16) % 2
        == 1 && !rsv3 {
        Some("Received reserved bits that no extension has negotiated"@)
    } else if is_server && second < 128 {
        Some("Received an unexpected unmasked frame"@)
    } else if !is_server && second >= 128 {
        Some("Received an unexpected masked frame"@)
    } else {
        None
    }
}

/// The length of a payload that a header announces, once all of its bytes are there.
pub open spec fn announced(bytes: Seq<u8>) -> Option<int> {
    let short = bytes[1] as int % 128;
    if short <= 125 {
        Some(short)
    } else if short == 126 {
        if bytes.len() >= 4 {
            Some(bytes[2] * 256 + bytes[3])
        } else {
            None
        }
    } else if bytes.len() >= 10 {
        Some(
            (((bytes[2] * 256 + bytes[3]) * 65536 + (bytes[4] * 256 + bytes[5])) * 65536 + (bytes[6]
                * 256 + bytes[7])) * 65536 + (bytes[8] * 256 + bytes[9]),
        )
    } else {
        None
    }
}

/// A read that comes to no data frame does not depend on the extension, and leaves the data alone.
pub(crate) proof fn lemma_read_without_data<D: ExtensionDecoder>(
    before: Reception<D>,
    max_size: usize,
    after: Reception<D>,
    state: CloseState,
    state_after: CloseState,
    before_half: WriteHalfView,
    after_half: WriteHalfView,
    step: ReadStep<D::Error>,
)
    requires
        !(decode_step(
            before.state.position,
            before.state.buffered,
            before.state.flags.role,
            before.state.flags.unknown_bits(),
            max_size,
        ).outcome matches Decoded::Frame(header, _) && header.opcode is DataCode),
        receives(
            before,
            max_size,
            after,
            state,
            state_after,
            before_half,
            after_half,
            step,
        ),
    ensures
        after.data == before.data,
        after.extension == before.extension,
        after.state == read_run(before.state, max_size).state,
        received(
            state,
            state_after,
            before_half,
            after_half,
            before.state.flags.role,
            read_run(before.state, max_size).outcome,
            step,
        ),
{
    reveal(takes_frame);
    let result = choose|result: Result<Progress, ReadFailure<D::Error>>|
        #[trigger] reads_on(before, max_size, after, result) && handled(
            state,
            state_after,
            before_half,
            after_half,
            before.state.flags.role,
            result,
            step,
        );
    assert forall|next: Reception<D>| !(#[trigger] takes_frame(before, max_size, next, Ok(None))) by {
    }
}

/// What a read comes to if the frame that is next breaks the protocol.
proof fn lemma_breach_closes<D: ExtensionDecoder>(
    before: Reception<D>,
    max_size: usize,
    after: Reception<D>,
    state: CloseState,
    state_after: CloseState,
    before_half: WriteHalfView,
    after_half: WriteHalfView,
    step: ReadStep<D::Error>,
)
    requires
        before.state.position is DecodingHeader,
        before.state.buffered.len() >= 2,
        receives(
            before,
            max_size,
            after,
            state,
            state_after,
            before_half,
            after_half,
            step,
        ),
    ensures
        ({
            let flags = before.state.flags;
            let bytes = before.state.buffered;
            let closed_for = |message: Seq<char>|
                closes_with(
                    flags.role,
                    state,
                    state_after,
                    before_half,
                    after_half,
                    worded(ErrorKind::Protocol, message),
                    step,
                ) && after.data == before.data;
            match breach_of(bytes[0], bytes[1], flags.role, flags.rsv1, flags.rsv2, flags.rsv3) {
                Some(message) => closed_for(message),
                None => announced(bytes) matches Some(length) && length > max_size ==> closed_for(
                    "A frame exceeded the maximum permitted size"@,
                ),
            }
        }),
{
    let flags = before.state.flags;
    let bytes = before.state.buffered;
    let breach = breach_of(bytes[0], bytes[1], flags.role, flags.rsv1, flags.rsv2, flags.rsv3);
    let too_long = announced(bytes) matches Some(length) && length > max_size;
    if breach is Some || too_long {
        let message = match breach {
            Some(message) => message,
            None => "A frame exceeded the maximum permitted size"@,
        };
        lemma_read_without_data(
            before,
            max_size,
            after,
            state,
            state_after,
            before_half,
            after_half,
            step,
        );
        let run = read_run(before.state, max_size);
        assert(run.outcome matches ProgressView::Fail(e) && e.error == worded(
            ErrorKind::Protocol,
            message,
        ));
        lemma_closes_with(
            flags.role,
            state,
            state_after,
            before_half,
            after_half,
            worded(ErrorKind::Protocol, message),
            step,
        );
    }
}

/// A frame that breaks the protocol closes a WebSocket, with an extension or without: one with an
/// operation code that is not defined, a control frame that is not whole, one with a reserved bit
/// that was not negotiated, one without a mask that a client has sent or with one that a server has
/// sent, and one with a payload that is too long.
pub proof fn law_breach_closes<E: Extension>(
    socket: &mut WebSocket<E>,
    read_buffer: &mut BytesMut,
    step: ReadStep<<E as ExtensionDecoder>::Error>,
)
    requires
        !(old(socket).state() is Closed),
        old(socket).reading().position is DecodingHeader,
        old(socket).reading().buffered.len() >= 2,
        call_ensures(WebSocket::<E>::read, (socket, read_buffer), step),
    ensures
        ({
            let flags = old(socket).framed_parts().flags;
            let bytes = old(socket).reading().buffered;
            let closed_for = |message: Seq<char>|
                closes_with(
                    flags.role,
                    old(socket).state(),
                    final(socket).state(),
                    old(socket).half(),
                    final(socket).half(),
                    worded(ErrorKind::Protocol, message),
                    step,
                ) && contents(*final(read_buffer)) == contents(*old(read_buffer));
            match breach_of(bytes[0], bytes[1], flags.role, flags.rsv1, flags.rsv2, flags.rsv3) {
                Some(message) => closed_for(message),
                None => announced(bytes) matches Some(length) && length > old(
                    socket,
                ).framed_parts().max_message_size ==> closed_for(
                    "A frame exceeded the maximum permitted size"@,
                ),
            }
        }),
{
    lemma_breach_closes(
        old(socket).reception(*old(read_buffer)),
        old(socket).framed_parts().max_message_size,
        final(socket).reception(*final(read_buffer)),
        old(socket).state(),
        final(socket).state(),
        old(socket).half(),
        final(socket).half(),
        step,
    );
}

/// A frame that breaks the protocol closes the connection of a receiver, as it closes a WebSocket.
pub proof fn law_receiver_breach_closes<D: ExtensionDecoder>(
    receiver: &mut Receiver<D>,
    shared: &mut Shared,
    read_buffer: &mut BytesMut,
    step: ReadStep<D::Error>,
)
    requires
        !(old(shared)@.close_state is Closed),
        old(receiver).wf(),
        old(receiver).reading_side().position() is DecodingHeader,
        old(receiver).reading_side().buffered().len() >= 2,
        call_ensures(Receiver::<D>::read, (receiver, shared, read_buffer), step),
    ensures
        ({
            let flags = old(receiver).codec();
            let is_server = old(receiver).end() is Server;
            let bytes = old(receiver).reading_side().buffered();
            let closed_for = |message: Seq<char>|
                closes_with(
                    is_server,
                    old(shared)@.close_state,
                    final(shared)@.close_state,
                    old(shared)@.half,
                    final(shared)@.half,
                    worded(ErrorKind::Protocol, message),
                    step,
                ) && contents(*final(read_buffer)) == contents(*old(read_buffer));
            match breach_of(bytes[0], bytes[1], is_server, flags.rsv1, flags.rsv2, flags.rsv3) {
                Some(message) => closed_for(message),
                None => announced(bytes) matches Some(length) && length > old(receiver).limit()
                    ==> closed_for("A frame exceeded the maximum permitted size"@),
            }
        }),
{
    lemma_breach_closes(
        old(receiver).reception(*old(read_buffer)),
        old(receiver).limit(),
        final(receiver).reception(*final(read_buffer)),
        old(shared)@.close_state,
        final(shared)@.close_state,
        old(shared)@.half,
        final(shared)@.half,
        step,
    );
}

/// Whether a number is one that a peer may close a connection with.
pub open spec fn may_close_with(number: int) -> bool {
    1000 <= number <= 1003 || 1007 <= number <= 1013 || 3000 <= number <= 4999
}

/// Whether a number stands for a reason that a peer must never send.
pub open spec fn kept_back(number: int) -> bool {
    number == 1005 || number == 1006 || number == 1015 || 2000 <= number <= 2999
}

/// Whether a step answers a close frame with this payload as it should.
///
/// Its code is sent back, or zeros if it has none, and the caller gets the reason: the code and the
/// words, if there are any. If a close frame has been sent before, the connection is closed and the
/// caller is told so; a server shuts the stream down. A code that a peer must not send, and words
/// that are no text, close the connection with an error.
pub open spec fn answers_close<X>(
    is_server: bool,
    state: CloseState,
    state_after: CloseState,
    before: WriteHalfView,
    after: WriteHalfView,
    payload: Seq<u8>,
    step: ReadStep<X>,
) -> bool {
    let number = payload[0] * 256 + payload[1];
    let words = payload.skip(2);
    let closed_for = |error: ErrorView|
        closes_with(is_server, state, state_after, before, after, error, step);
    if payload.len() < 2 || may_close_with(number) && valid_utf8(words) {
        if state is NotClosed {
            &&& step matches ReadStep::Closing { result: Ok(message) } && message@ matches MessageView::Close(
                reason,
            ) && reason_in(payload, reason)
            &&& state_after is NotClosed
            &&& after.pinged == before.pinged
            &&& sends(
                before.pending,
                after.pending,
                is_server,
                OpCode::ControlCode(ControlCode::Close),
                if payload.len() < 2 {
                    seq![0, 0]
                } else {
                    payload.take(2)
                },
            )
        } else {
            closed_for(close_fault(CloseCause::Stopped))
        }
    } else if kept_back(number) {
        closed_for(protocol_fault(ProtocolErrorView::CloseCode(number as u16)))
    } else if !may_close_with(number) {
        closed_for(
            worded(ErrorKind::Protocol, "Unknown close code: `"@ + decimal(number as nat) + "`"@),
        )
    } else {
        closed_for(worded(ErrorKind::Protocol, utf8_fault(words)))
    }
}

/// Whether a reason is what the payload of a close frame says.
pub open spec fn reason_in(payload: Seq<u8>, reason: Option<CloseReasonView>) -> bool {
    match reason {
        Some(reason) => {
            &&& payload.len() >= 2
            &&& reason.code.number() == payload[0] * 256 + payload[1]
            &&& reason.code.in_range()
            &&& match reason.description {
                Some(description) => encode_utf8(description) == payload.skip(2) && payload.len() > 2,
                None => payload.len() == 2,
            }
        },
        None => payload.len() < 2,
    }
}

/// What the payload of a close frame says, or is rejected for.
proof fn lemma_closing_says(payload: Seq<u8>)
    ensures
        ({
            let number = payload[0] * 256 + payload[1];
            let words = payload.skip(2);
            if payload.len() < 2 || may_close_with(number) && valid_utf8(words) {
                closing(payload) matches Ok(ItemView::Close(reason, _)) && reason_in(
                    payload,
                    reason,
                ) && echo_of(reason) == if payload.len() < 2 {
                    seq![0u8, 0u8]
                } else {
                    payload.take(2)
                }
            } else {
                closing(payload) matches Err(e) && e.error == if kept_back(number) {
                    protocol_fault(ProtocolErrorView::CloseCode(number as u16))
                } else if !may_close_with(number) {
                    worded(
                        ErrorKind::Protocol,
                        "Unknown close code: `"@ + decimal(number as nat) + "`"@,
                    )
                } else {
                    worded(ErrorKind::Protocol, utf8_fault(words))
                }
            }
        }),
{
    let words = payload.skip(2);
    if let Ok(ItemView::Close(reason, _)) = closing(payload) {
        if payload.len() < 2 {
            assert(echo_of(reason) =~= seq![0u8, 0u8]);
        } else {
            decode_utf8_encode_utf8(words);
            assert(echo_of(reason) =~= payload.take(2));
            if decode_utf8(words).len() == 0 {
                assert(decode_utf8(words) =~= Seq::<char>::empty());
                assert(encode_utf8(Seq::<char>::empty()) =~= Seq::<u8>::empty());
            } else if words.len() == 0 {
                assert(words =~= Seq::<u8>::empty());
            }
        }
    }
}

/// What a read comes to if a close frame is next.
proof fn lemma_close_answered<D: ExtensionDecoder>(
    before: Reception<D>,
    max_size: usize,
    after: Reception<D>,
    state: CloseState,
    state_after: CloseState,
    before_half: WriteHalfView,
    after_half: WriteHalfView,
    step: ReadStep<D::Error>,
    mask: Option<u32>,
    payload: Seq<u8>,
    rest: Seq<u8>,
)
    requires
        !(state is Closed),
        before.state.position is DecodingHeader,
        before.state.buffered == frame_bytes(
            plain_header(OpCode::ControlCode(ControlCode::Close), mask),
            payload,
        ) + rest,
        mask is Some <==> before.state.flags.role,
        payload.len() <= max_size,
        receives(
            before,
            max_size,
            after,
            state,
            state_after,
            before_half,
            after_half,
            step,
        ),
    ensures
        answers_close(
            before.state.flags.role,
            state,
            state_after,
            before_half,
            after_half,
            payload,
            step,
        ),
        after.data == before.data,
        after.state == (ReadState { buffered: rest, ..before.state }),
{
    let flags = before.state.flags;
    let opcode = OpCode::ControlCode(ControlCode::Close);
    assert(plain_header(opcode, mask) == control_header(ControlCode::Close, mask));
    lemma_frame_round_trip(
        plain_header(opcode, mask),
        payload,
        rest,
        flags.unknown_bits(),
        max_size,
    );
    lemma_control_between_fragments(flags, ControlCode::Close, mask, payload, rest, max_size);
    lemma_read_without_data(
        before,
        max_size,
        after,
        state,
        state_after,
        before_half,
        after_half,
        step,
    );
    lemma_closing_says(payload);
    match closing(payload) {
        Err(e) => {
            lemma_closes_with(
                flags.role,
                state,
                state_after,
                before_half,
                after_half,
                e.error,
                step,
            );
        },
        Ok(_) => {
            if state is NotClosed {
                lemma_sends(
                    before_half.pending,
                    after_half.pending,
                    flags.role,
                    opcode,
                    if payload.len() < 2 {
                        seq![0, 0]
                    } else {
                        payload.take(2)
                    },
                );
            }
        },
    }
}

/// A close frame that is next is answered, with an extension or without, between two messages or inside
/// one.
pub proof fn law_close_answered<E: Extension>(
    socket: &mut WebSocket<E>,
    read_buffer: &mut BytesMut,
    step: ReadStep<<E as ExtensionDecoder>::Error>,
    mask: Option<u32>,
    payload: Seq<u8>,
    rest: Seq<u8>,
)
    requires
        !(old(socket).state() is Closed),
        old(socket).reading().position is DecodingHeader,
        old(socket).reading().buffered == frame_bytes(
            plain_header(OpCode::ControlCode(ControlCode::Close), mask),
            payload,
        ) + rest,
        mask is Some <==> old(socket).framed_parts().flags.role,
        payload.len() <= old(socket).framed_parts().max_message_size,
        call_ensures(WebSocket::<E>::read, (socket, read_buffer), step),
    ensures
        answers_close(
            old(socket).framed_parts().flags.role,
            old(socket).state(),
            final(socket).state(),
            old(socket).half(),
            final(socket).half(),
            payload,
            step,
        ),
        contents(*final(read_buffer)) == contents(*old(read_buffer)),
        final(socket).reading() == (ReadState { buffered: rest, ..old(socket).reading() }),
{
    lemma_close_answered(
        old(socket).reception(*old(read_buffer)),
        old(socket).framed_parts().max_message_size,
        final(socket).reception(*final(read_buffer)),
        old(socket).state(),
        final(socket).state(),
        old(socket).half(),
        final(socket).half(),
        step,
        mask,
        payload,
        rest,
    );
}

/// A receiver answers a close frame as a WebSocket does.
pub proof fn law_receiver_close_answered<D: ExtensionDecoder>(
    receiver: &mut Receiver<D>,
    shared: &mut Shared,
    read_buffer: &mut BytesMut,
    step: ReadStep<D::Error>,
    mask: Option<u32>,
    payload: Seq<u8>,
    rest: Seq<u8>,
)
    requires
        !(old(shared)@.close_state is Closed),
        old(receiver).wf(),
        old(receiver).reading_side().position() is DecodingHeader,
        old(receiver).reading_side().buffered() == frame_bytes(
            plain_header(OpCode::ControlCode(ControlCode::Close), mask),
            payload,
        ) + rest,
        mask is Some <==> old(receiver).end() is Server,
        payload.len() <= old(receiver).limit(),
        call_ensures(Receiver::<D>::read, (receiver, shared, read_buffer), step),
    ensures
        answers_close(
            old(receiver).end() is Server,
            old(shared)@.close_state,
            final(shared)@.close_state,
            old(shared)@.half,
            final(shared)@.half,
            payload,
            step,
        ),
        contents(*final(read_buffer)) == contents(*old(read_buffer)),
        final(receiver).reading_side().buffered() == rest,
{
    lemma_close_answered(
        old(receiver).reception(*old(read_buffer)),
        old(receiver).limit(),
        final(receiver).reception(*final(read_buffer)),
        old(shared)@.close_state,
        final(shared)@.close_state,
        old(shared)@.half,
        final(shared)@.half,
        step,
        mask,
        payload,
        rest,
    );
}

/// Whether closing came to what it should: an open connection is closing and a close frame with the
/// reason is to be sent, and one that is not open stays as it is and the caller is told so.
pub open spec fn starts_closing(
    is_server: bool,
    state: CloseState,
    state_after: CloseState,
    before: WriteHalfView,
    after: WriteHalfView,
    reason: CloseReasonView,
    result: Result<(), Error>,
) -> bool {
    if state is NotClosed {
        &&& result is Ok
        &&& state_after is Closing
        &&& after.pinged == before.pinged
        &&& sends(
            before.pending,
            after.pending,
            is_server,
            OpCode::ControlCode(ControlCode::Close),
            reason_bytes(reason),
        )
    } else {
        &&& result matches Err(e) && e@ == close_fault(CloseCause::Error)
        &&& state_after == state
        &&& after == before
    }
}

/// The payload of a close frame is the code of the reason and its description.
proof fn lemma_reason_bytes(reason: CloseReasonView)
    ensures
        close_payload(reason) == reason_bytes(reason),
{
    assert(close_payload(reason) =~= reason_bytes(reason));
}

/// Closing a WebSocket starts the closing handshake with the reason, once.
pub proof fn law_close_starts<E: Extension>(
    socket: &mut WebSocket<E>,
    reason: CloseReason,
    result: Result<(), Error>,
)
    requires
        call_ensures(WebSocket::<E>::close, (socket, reason), result),
    ensures
        starts_closing(
            old(socket).framed_parts().flags.role,
            old(socket).state(),
            final(socket).state(),
            old(socket).half(),
            final(socket).half(),
            reason@,
            result,
        ),
        final(socket).reading() == old(socket).reading(),
        final(socket).extended() == old(socket).extended(),
{
    lemma_reason_bytes(reason@);
    if old(socket).state() is NotClosed {
        lemma_sends(
            old(socket).half().pending,
            final(socket).half().pending,
            old(socket).framed_parts().flags.role,
            OpCode::ControlCode(ControlCode::Close),
            reason_bytes(reason@),
        );
    }
}

/// Closing a sender starts the closing handshake with the reason, once.
pub proof fn law_sender_close_starts<E: ExtensionEncoder>(
    sender: &mut Sender<E>,
    shared: &mut Shared,
    reason: CloseReason,
    result: Result<(), Error>,
)
    requires
        call_ensures(Sender::<E>::close, (sender, shared, reason), result),
    ensures
        starts_closing(
            old(sender).end() is Server,
            old(shared)@.close_state,
            final(shared)@.close_state,
            old(shared)@.half,
            final(shared)@.half,
            reason@,
            result,
        ),
        final(shared)@.id == old(shared)@.id,
        *final(sender) == *old(sender),
{
    lemma_reason_bytes(reason@);
    if old(shared)@.close_state is NotClosed {
        lemma_sends(
            old(shared)@.half.pending,
            final(shared)@.half.pending,
            old(sender).end() is Server,
            OpCode::ControlCode(ControlCode::Close),
            reason_bytes(reason@),
        );
    }
}

/// Closing a receiver starts the closing handshake with the reason, once.
pub proof fn law_receiver_close_starts<D: ExtensionDecoder>(
    receiver: &mut Receiver<D>,
    shared: &mut Shared,
    reason: CloseReason,
    result: Result<(), Error>,
)
    requires
        call_ensures(Receiver::<D>::close, (receiver, shared, reason), result),
    ensures
        starts_closing(
            old(receiver).end() is Server,
            old(shared)@.close_state,
            final(shared)@.close_state,
            old(shared)@.half,
            final(shared)@.half,
            reason@,
            result,
        ),
        final(shared)@.id == old(shared)@.id,
        *final(receiver) == *old(receiver),
{
    lemma_reason_bytes(reason@);
    if old(shared)@.close_state is NotClosed {
        lemma_sends(
            old(shared)@.half.pending,
            final(shared)@.half.pending,
            old(receiver).end() is Server,
            OpCode::ControlCode(ControlCode::Close),
            reason_bytes(reason@),
        );
    }
}

/// Once the close frame that answers the peer has been sent, the connection is closing. If it could
/// not be sent, the connection is closed, and a server shuts the stream down.
pub proof fn law_close_sent<E: Extension>(socket: &mut WebSocket<E>, sent: bool, shutdown: bool)
    requires
        call_ensures(WebSocket::<E>::close_sent, (socket, sent), shutdown),
    ensures
        final(socket).state() is Closing <==> sent,
        final(socket).state() is Closed <==> !sent,
        shutdown <==> !sent && old(socket).framed_parts().flags.role,
        final(socket).half() == old(socket).half(),
        final(socket).reading() == old(socket).reading(),
{
}

/// The same holds of the connection of a receiver.
pub proof fn law_receiver_close_sent<D: ExtensionDecoder>(
    receiver: &Receiver<D>,
    shared: &mut Shared,
    sent: bool,
    shutdown: bool,
)
    requires
        call_ensures(Receiver::<D>::close_sent, (receiver, shared, sent), shutdown),
    ensures
        final(shared)@.close_state is Closing <==> sent,
        final(shared)@.close_state is Closed <==> !sent,
        shutdown <==> !sent && receiver.end() is Server,
        final(shared)@.half == old(shared)@.half,
        final(shared)@.id == old(shared)@.id,
{
}

/// The closing handshake: an end closes the connection with a reason, the other end reads the
/// reason and answers it, and the end that has started it reads the answer and is closed. The
/// server shuts the stream down, whichever end has started.
pub proof fn law_closing_handshake<E: Extension, F: Extension>(
    reason: CloseReason,
    first: &mut WebSocket<E>,
    result: Result<(), Error>,
    second: &mut WebSocket<F>,
    second_buffer: &mut BytesMut,
    second_step: ReadStep<<F as ExtensionDecoder>::Error>,
    first_again: &mut WebSocket<E>,
    first_buffer: &mut BytesMut,
    first_step: ReadStep<<E as ExtensionDecoder>::Error>,
)
    requires
        may_close_with(reason@.code.number() as int),
        reason@.code.in_range(),
        reason@.description matches Some(description) ==> description.len() > 0,
        // The first end closes the connection.
        old(first).state() is NotClosed,
        call_ensures(WebSocket::<E>::close, (first, reason), result),
        // The second end reads what the first has sent.
        old(second).framed_parts().flags.role != old(first).framed_parts().flags.role,
        old(second).state() is NotClosed,
        old(second).reading().position is DecodingHeader,
        old(second).reading().buffered == final(first).half().pending.skip(
            old(first).half().pending.len() as int,
        ),
        reason_bytes(reason@).len() <= old(second).framed_parts().max_message_size,
        call_ensures(WebSocket::<F>::read, (second, second_buffer), second_step),
        // The first end reads what the second has sent.
        *old(first_again) == *final(first),
        old(first_again).reading().position is DecodingHeader,
        old(first_again).reading().buffered == final(second).half().pending.skip(
            old(second).half().pending.len() as int,
        ),
        2 <= old(first_again).framed_parts().max_message_size,
        call_ensures(WebSocket::<E>::read, (first_again, first_buffer), first_step),
    ensures
        result is Ok,
        second_step matches ReadStep::Closing { result: Ok(message) } && message@
            == MessageView::Close(Some(reason@)),
        first_step matches ReadStep::Done { result: Err(e), shutdown } && e.says(
            close_fault(CloseCause::Stopped),
        ) && shutdown == old(first).framed_parts().flags.role,
        final(first_again).state() is Closed,
{
    let opcode = OpCode::ControlCode(ControlCode::Close);
    let payload = reason_bytes(reason@);
    let words = payload.skip(2);
    law_close_starts(first, reason, result);
    let sent = final(first).half().pending.skip(old(first).half().pending.len() as int);
    let mask = choose|mask: Option<u32>|
        (mask is None <==> old(first).framed_parts().flags.role) && final(first).half().pending
            == old(first).half().pending + frame_bytes(
            #[trigger] plain_header(opcode, mask),
            payload,
        );
    assert(sent =~= frame_bytes(plain_header(opcode, mask), payload) + Seq::<u8>::empty());
    match reason@.description {
        Some(description) => {
            assert(words =~= encode_utf8(description));
            encode_utf8_valid_utf8(description);
            encode_utf8_decode_utf8(description);
        },
        None => {
            assert(words =~= Seq::<u8>::empty());
        },
    }
    law_close_answered(second, second_buffer, second_step, mask, payload, Seq::empty());
    match second_step {
        ReadStep::Closing { result: Ok(message) } => {
            let read = message@->Close_0->0;
            lemma_close_code_round_trip(read.code);
            lemma_close_code_round_trip(reason@.code);
            if let Some(description) = read.description {
                encode_utf8_decode_utf8(description);
            }
        },
        _ => {},
    }
    let answer = payload.take(2);
    let returned = final(second).half().pending.skip(old(second).half().pending.len() as int);
    let back = choose|mask: Option<u32>|
        (mask is None <==> old(second).framed_parts().flags.role) && final(second).half().pending
            == old(second).half().pending + frame_bytes(
            #[trigger] plain_header(opcode, mask),
            answer,
        );
    assert(returned =~= frame_bytes(plain_header(opcode, back), answer) + Seq::<u8>::empty());
    assert(answer.skip(2) =~= Seq::<u8>::empty());
    law_close_answered(first_again, first_buffer, first_step, back, answer, Seq::empty());
}

/// What a frame that comes out of order, or is too long for what it controls, is rejected for: a
/// frame that continues a message where none was started, one that starts a message inside another,
/// and a ping or a pong with more than 125 bytes.
pub open spec fn disorder_of(header: FrameHeader, payload: Seq<u8>, started: bool) -> Option<
    ProtocolErrorView,
> {
    match header.opcode {
        OpCode::DataCode(DataCode::Continuation) => if started {
            None
        } else if header.flags.fin {
            Some(ProtocolErrorView::ContinuationNotStarted)
        } else {
            Some(ProtocolErrorView::FrameOverflow)
        },
        OpCode::DataCode(_) => if started {
            Some(ProtocolErrorView::ContinuationAlreadyStarted)
        } else {
            None
        },
        OpCode::ControlCode(ControlCode::Close) => None,
        OpCode::ControlCode(_) => if payload.len() > 125 {
            Some(ProtocolErrorView::FrameOverflow)
        } else {
            None
        },
    }
}

/// What a read comes to if the frame that is next comes out of order.
proof fn lemma_disorder_closes<D: ExtensionDecoder>(
    before: Reception<D>,
    max_size: usize,
    after: Reception<D>,
    state: CloseState,
    state_after: CloseState,
    before_half: WriteHalfView,
    after_half: WriteHalfView,
    step: ReadStep<D::Error>,
    header: FrameHeader,
    payload: Seq<u8>,
    rest: Seq<u8>,
)
    requires
        before.state.position is DecodingHeader,
        header.opcode is ControlCode ==> header.flags.fin,
        !header.flags.rsv_1 && !header.flags.rsv_2 && !header.flags.rsv_3,
        header.mask is Some <==> before.state.flags.role,
        payload.len() <= max_size,
        before.state.buffered == frame_bytes(header, payload) + rest,
        receives(
            before,
            max_size,
            after,
            state,
            state_after,
            before_half,
            after_half,
            step,
        ),
    ensures
        disorder_of(header, payload, before.state.flags.r_cont) matches Some(breach) ==> closes_with(
            before.state.flags.role,
            state,
            state_after,
            before_half,
            after_half,
            protocol_fault(breach),
            step,
        ),
{
    if let Some(breach) = disorder_of(header, payload, before.state.flags.r_cont) {
        reveal(takes_frame);
        lemma_frame_round_trip(
            header,
            payload,
            rest,
            before.state.flags.unknown_bits(),
            max_size,
        );
        let result = choose|result: Result<Progress, ReadFailure<D::Error>>|
            #[trigger] reads_on(before, max_size, after, result) && handled(
                state,
                state_after,
                before_half,
                after_half,
                before.state.flags.role,
                result,
                step,
            );
        assert forall|next: Reception<D>| !(#[trigger] takes_frame(
            before,
            max_size,
            next,
            Ok(None),
        )) by {
        }
        lemma_closes_with(
            before.state.flags.role,
            state,
            state_after,
            before_half,
            after_half,
            protocol_fault(breach),
            step,
        );
    }
}

/// A frame that comes out of order, and a ping or a pong that is too long, close a WebSocket, with
/// an extension or without.
pub proof fn law_disorder_closes<E: Extension>(
    socket: &mut WebSocket<E>,
    read_buffer: &mut BytesMut,
    step: ReadStep<<E as ExtensionDecoder>::Error>,
    header: FrameHeader,
    payload: Seq<u8>,
    rest: Seq<u8>,
    breach: ProtocolErrorView,
)
    requires
        !(old(socket).state() is Closed),
        old(socket).reading().position is DecodingHeader,
        header.opcode is ControlCode ==> header.flags.fin,
        !header.flags.rsv_1 && !header.flags.rsv_2 && !header.flags.rsv_3,
        header.mask is Some <==> old(socket).framed_parts().flags.role,
        payload.len() <= old(socket).framed_parts().max_message_size,
        old(socket).reading().buffered == frame_bytes(header, payload) + rest,
        disorder_of(header, payload, old(socket).reading().flags.r_cont) == Some(breach),
        call_ensures(WebSocket::<E>::read, (socket, read_buffer), step),
    ensures
        closes_with(
            old(socket).framed_parts().flags.role,
            old(socket).state(),
            final(socket).state(),
            old(socket).half(),
            final(socket).half(),
            protocol_fault(breach),
            step,
        ),
{
    lemma_disorder_closes(
        old(socket).reception(*old(read_buffer)),
        old(socket).framed_parts().max_message_size,
        final(socket).reception(*final(read_buffer)),
        old(socket).state(),
        final(socket).state(),
        old(socket).half(),
        final(socket).half(),
        step,
        header,
        payload,
        rest,
    );
}

/// The same closes the connection of a receiver.
pub proof fn law_receiver_disorder_closes<D: ExtensionDecoder>(
    receiver: &mut Receiver<D>,
    shared: &mut Shared,
    read_buffer: &mut BytesMut,
    step: ReadStep<D::Error>,
    header: FrameHeader,
    payload: Seq<u8>,
    rest: Seq<u8>,
    breach: ProtocolErrorView,
)
    requires
        !(old(shared)@.close_state is Closed),
        old(receiver).wf(),
        old(receiver).reading_side().position() is DecodingHeader,
        header.opcode is ControlCode ==> header.flags.fin,
        !header.flags.rsv_1 && !header.flags.rsv_2 && !header.flags.rsv_3,
        header.mask is Some <==> old(receiver).end() is Server,
        payload.len() <= old(receiver).limit(),
        old(receiver).reading_side().buffered() == frame_bytes(header, payload) + rest,
        disorder_of(header, payload, old(receiver).codec().r_cont) == Some(breach),
        call_ensures(Receiver::<D>::read, (receiver, shared, read_buffer), step),
    ensures
        closes_with(
            old(receiver).end() is Server,
            old(shared)@.close_state,
            final(shared)@.close_state,
            old(shared)@.half,
            final(shared)@.half,
            protocol_fault(breach),
            step,
        ),
{
    lemma_disorder_closes(
        old(receiver).reception(*old(read_buffer)),
        old(receiver).limit(),
        final(receiver).reception(*final(read_buffer)),
        old(shared)@.close_state,
        final(shared)@.close_state,
        old(shared)@.half,
        final(shared)@.half,
        step,
        header,
        payload,
        rest,
    );
}

} // verus!
