//! What is sent, and what the peer makes of it.

use crate::buffer::contents;
use crate::errors::{close_fault, protocol_fault, CloseCause, Failure, ProtocolErrorView};
use crate::fragment::fragment_flags;
use crate::framed::{extension_header, frame_bytes, ReadState};
use crate::laws::frames::{lemma_sends, plain_header, sends};
use crate::laws::reading::{at_rest, hands_over, law_frame_read, law_receiver_frame_read};
use crate::protocol::{ControlCode, DataCode, FrameHeader, HeaderFlags, OpCode, PayloadType};
use crate::ratchet_ext;
use crate::ratchet_ext::{Extension, ExtensionDecoder, ExtensionEncoder};
use crate::session::{
    adds_data, adds_frame, encoded_as, masked_header, may_encode, only_fin, opcode_of,
    with_reserved, written, ReadStep, WriteHalfView,
};
use crate::split::{sent_as, Receiver, Sender, Shared, SharedView};
use crate::ws::WebSocket;
use bytes::BytesMut;
use vstd::prelude::*;
use vstd::utf8::encode_utf8;

verus! {

/// The header of a data frame that an encoder is given: none of its reserved bits is set.
pub open spec fn offered_header(code: DataCode, fin: bool) -> ratchet_ext::FrameHeader {
    ratchet_ext::FrameHeader {
        fin,
        rsv1: false,
        rsv2: false,
        rsv3: false,
        opcode: match code {
            DataCode::Continuation => ratchet_ext::OpCode::Continuation,
            DataCode::Text => ratchet_ext::OpCode::Text,
            DataCode::Binary => ratchet_ext::OpCode::Binary,
        },
    }
}

/// Whether an encoder has made the payload and the reserved bits of a data frame that is sent, or has
/// failed and nothing is sent.
pub open spec fn sends_encoded<E: ExtensionEncoder>(
    before: Seq<u8>,
    after: Seq<u8>,
    encoder: E,
    encoder_after: E,
    is_server: bool,
    code: DataCode,
    fin: bool,
    payload: Seq<u8>,
    result: Result<(), Failure<E::Error>>,
) -> bool {
    exists|encoded: Seq<u8>, seen: ratchet_ext::FrameHeader, outcome: Result<(), E::Error>|
        {
            &&& #[trigger] encoder.encodes(
                &encoder_after,
                payload,
                encoded,
                offered_header(code, fin),
                seen,
                outcome,
            )
            &&& match result {
                Ok(_) => outcome is Ok && exists|mask: Option<u32>|
                    (mask is None <==> is_server) && after == before + frame_bytes(
                        #[trigger] marked_header(code, fin, seen, mask),
                        encoded,
                    ),
                Err(failure) => outcome matches Err(e) && failure == Failure::Extension(e) && after
                    == before,
            }
        }
}

/// The header of a data frame whose reserved bits an extension has set.
pub open spec fn marked_header(
    code: DataCode,
    fin: bool,
    seen: ratchet_ext::FrameHeader,
    mask: Option<u32>,
) -> FrameHeader {
    FrameHeader {
        opcode: OpCode::DataCode(code),
        flags: HeaderFlags { fin, rsv_1: seen.rsv1, rsv_2: seen.rsv2, rsv_3: seen.rsv3 },
        mask,
    }
}

/// What writing a payload of some type comes to on an open connection: one frame of that type is to be
/// sent. An extension encodes messages, and pings and pongs are sent as they are, if they are not too
/// long. The payload of a ping is kept until it is answered.
pub open spec fn writes<E: ExtensionEncoder>(
    is_server: bool,
    before: WriteHalfView,
    after: WriteHalfView,
    encoder: Option<E>,
    encoder_after: Option<E>,
    message_type: PayloadType,
    payload: Seq<u8>,
    result: Result<(), Failure<E::Error>>,
) -> bool {
    let message = |code: DataCode|
        {
            &&& after.pinged == before.pinged
            &&& match (encoder, encoder_after) {
                (None, None) => result is Ok && sends(
                    before.pending,
                    after.pending,
                    is_server,
                    OpCode::DataCode(code),
                    payload,
                ),
                (Some(encoder), Some(encoder_after)) => sends_encoded(
                    before.pending,
                    after.pending,
                    encoder,
                    encoder_after,
                    is_server,
                    code,
                    true,
                    payload,
                    result,
                ),
                _ => false,
            }
        };
    let control = |code: ControlCode, pinged: Seq<u8>|
        {
            &&& encoder_after == encoder
            &&& if payload.len() <= 125 {
                &&& result is Ok
                &&& after.pinged == pinged
                &&& sends(
                    before.pending,
                    after.pending,
                    is_server,
                    OpCode::ControlCode(code),
                    payload,
                )
            } else {
                &&& result matches Err(e) && e.says(
                    protocol_fault(ProtocolErrorView::FrameOverflow),
                )
                &&& after == before
            }
        };
    match message_type {
        PayloadType::Text => message(DataCode::Text),
        PayloadType::Binary => message(DataCode::Binary),
        PayloadType::Ping => control(ControlCode::Ping, payload),
        PayloadType::Pong => control(ControlCode::Pong, before.pinged),
    }
}

/// What writing a payload comes to.
proof fn lemma_writes<E: ExtensionEncoder>(
    is_server: bool,
    before: WriteHalfView,
    after: WriteHalfView,
    encoder: Option<E>,
    encoder_after: Option<E>,
    message_type: PayloadType,
    payload: Seq<u8>,
    result: Result<(), Failure<E::Error>>,
)
    requires
        written(
            before,
            after,
            encoder,
            encoder_after,
            payload,
            message_type,
            only_fin(),
            is_server,
            result,
        ),
    ensures
        writes(
            is_server,
            before,
            after,
            encoder,
            encoder_after,
            message_type,
            payload,
            result,
        ),
{
    match opcode_of(message_type) {
        OpCode::ControlCode(code) => {
            if payload.len() <= 125 {
                lemma_sends(
                    before.pending,
                    after.pending,
                    is_server,
                    OpCode::ControlCode(code),
                    payload,
                );
            }
        },
        OpCode::DataCode(code) => {
            if encoder is Some {
                lemma_sends_encoded(
                    before.pending,
                    after.pending,
                    encoder,
                    encoder_after,
                    is_server,
                    code,
                    true,
                    payload,
                    result,
                );
            } else {
                lemma_sends(
                    before.pending,
                    after.pending,
                    is_server,
                    OpCode::DataCode(code),
                    payload,
                );
            }
        },
    }
}

/// What adding a data frame with an extension comes to.
pub(crate) proof fn lemma_sends_encoded<E: ExtensionEncoder>(
    before: Seq<u8>,
    after: Seq<u8>,
    encoder: Option<E>,
    encoder_after: Option<E>,
    is_server: bool,
    code: DataCode,
    fin: bool,
    payload: Seq<u8>,
    result: Result<(), Failure<E::Error>>,
)
    requires
        encoder is Some,
        adds_data(
            before,
            after,
            encoder,
            encoder_after,
            is_server,
            code,
            fragment_flags(fin),
            payload,
            result,
        ),
    ensures
        encoder_after is Some,
        sends_encoded(
            before,
            after,
            encoder->0,
            encoder_after->0,
            is_server,
            code,
            fin,
            payload,
            result,
        ),
{
    let flags = fragment_flags(fin);
    assert(extension_header(flags, code) == offered_header(code, fin));
    let (marked, encoded, outcome) = choose|
        marked: HeaderFlags,
        encoded: Seq<u8>,
        outcome: Result<(), E::Error>,
    |
        {
            &&& #[trigger] encoded_as(
                encoder,
                encoder_after,
                code,
                flags,
                marked,
                payload,
                encoded,
                outcome,
            )
            &&& match (outcome, result) {
                (Ok(_), Ok(_)) => adds_frame(
                    before,
                    after,
                    is_server,
                    OpCode::DataCode(code),
                    marked,
                    encoded,
                ),
                (Err(e), Err(failure)) => after == before && failure == Failure::Extension(e),
                _ => false,
            }
        };
    assert(may_encode(
        encoder->0,
        encoder_after->0,
        code,
        flags,
        marked,
        payload,
        encoded,
        outcome,
    ));
    let seen = choose|seen: ratchet_ext::FrameHeader|
        {
            &&& #[trigger] (encoder->0).encodes(
                &encoder_after->0,
                payload,
                encoded,
                extension_header(flags, code),
                seen,
                outcome,
            )
            &&& marked == if outcome is Ok {
                with_reserved(flags, seen)
            } else {
                flags
            }
        };
    if outcome is Ok {
        let mask = choose|mask: Option<u32>|
            (mask is None <==> is_server) && after == before + frame_bytes(
                #[trigger] masked_header(OpCode::DataCode(code), marked, mask),
                encoded,
            );
        assert(masked_header(OpCode::DataCode(code), marked, mask) == marked_header(
            code,
            fin,
            seen,
            mask,
        ));
    }
}

/// Writing to a WebSocket sends one frame of the type that was asked for, with the payload that was
/// given, unless the closing handshake has been started.
pub proof fn law_written<E: Extension>(
    socket: &mut WebSocket<E>,
    payload: &[u8],
    message_type: PayloadType,
    result: Result<(), Failure<<E as ExtensionEncoder>::Error>>,
)
    requires
        call_ensures(WebSocket::<E>::write, (socket, payload, message_type), result),
    ensures
        if old(socket).state() is NotClosed {
            writes(
                old(socket).framed_parts().flags.role,
                old(socket).half(),
                final(socket).half(),
                old(socket).extended(),
                final(socket).extended(),
                message_type,
                payload@,
                result,
            )
        } else {
            &&& result matches Err(e) && e.says(close_fault(CloseCause::Error))
            &&& *final(socket) == *old(socket)
        },
        final(socket).state() == old(socket).state(),
        final(socket).reading() == old(socket).reading(),
{
    if old(socket).state() is NotClosed {
        lemma_writes(
            old(socket).framed_parts().flags.role,
            old(socket).half(),
            final(socket).half(),
            old(socket).extended(),
            final(socket).extended(),
            message_type,
            payload@,
            result,
        );
    }
}

/// What writing through a sender comes to.
pub open spec fn sender_writes<E: ExtensionEncoder>(
    sender: Sender<E>,
    sender_after: Sender<E>,
    shared: SharedView,
    shared_after: SharedView,
    message_type: PayloadType,
    payload: Seq<u8>,
    result: Result<(), Failure<E::Error>>,
) -> bool {
    &&& sender_after.connection() == sender.connection()
    &&& sender_after.end() == sender.end()
    &&& shared_after.id == shared.id
    &&& shared_after.close_state == shared.close_state
    &&& if shared.close_state is NotClosed {
        writes(
            sender.end() is Server,
            shared.half,
            shared_after.half,
            sender.encoder(),
            sender_after.encoder(),
            message_type,
            payload,
            result,
        )
    } else {
        &&& result matches Err(e) && e.says(close_fault(CloseCause::Error))
        &&& shared_after == shared
        &&& sender_after.encoder() == sender.encoder()
    }
}

/// What writing through a sender comes to.
proof fn lemma_sender_writes<E: ExtensionEncoder>(
    sender: Sender<E>,
    sender_after: Sender<E>,
    shared: SharedView,
    shared_after: SharedView,
    message_type: PayloadType,
    payload: Seq<u8>,
    result: Result<(), Failure<E::Error>>,
)
    requires
        sender_after.connection() == sender.connection(),
        sender_after.end() == sender.end(),
        sent_as(
            shared,
            shared_after,
            sender.encoder(),
            sender_after.encoder(),
            sender.end(),
            payload,
            message_type,
            result,
        ),
    ensures
        sender_writes(sender, sender_after, shared, shared_after, message_type, payload, result),
{
    if shared.close_state is NotClosed {
        lemma_writes(
            sender.end() is Server,
            shared.half,
            shared_after.half,
            sender.encoder(),
            sender_after.encoder(),
            message_type,
            payload,
            result,
        );
    }
}

/// Writing through a sender sends one frame of the type that was asked for, with the payload that was
/// given, unless the closing handshake has been started.
pub proof fn law_sender_written<E: ExtensionEncoder>(
    sender: &mut Sender<E>,
    shared: &mut Shared,
    payload: &[u8],
    message_type: PayloadType,
    result: Result<(), Failure<E::Error>>,
)
    requires
        call_ensures(Sender::<E>::write, (sender, shared, payload, message_type), result),
    ensures
        sender_writes(
            *old(sender),
            *final(sender),
            old(shared)@,
            final(shared)@,
            message_type,
            payload@,
            result,
        ),
{
    lemma_sender_writes(
        *old(sender),
        *final(sender),
        old(shared)@,
        final(shared)@,
        message_type,
        payload@,
        result,
    );
}

/// Text is sent as a text message, in UTF-8.
pub proof fn law_sender_text_written<E: ExtensionEncoder>(
    sender: &mut Sender<E>,
    shared: &mut Shared,
    text: &str,
    result: Result<(), Failure<E::Error>>,
)
    requires
        call_ensures(Sender::<E>::write_text, (sender, shared, text), result),
    ensures
        sender_writes(
            *old(sender),
            *final(sender),
            old(shared)@,
            final(shared)@,
            PayloadType::Text,
            encode_utf8(text@),
            result,
        ),
{
    lemma_sender_writes(
        *old(sender),
        *final(sender),
        old(shared)@,
        final(shared)@,
        PayloadType::Text,
        encode_utf8(text@),
        result,
    );
}

/// A binary message that is written is sent as a binary message, with the payload that was given.
pub proof fn law_sender_binary_written<E: ExtensionEncoder>(
    sender: &mut Sender<E>,
    shared: &mut Shared,
    payload: &[u8],
    result: Result<(), Failure<E::Error>>,
)
    requires
        call_ensures(Sender::<E>::write_binary, (sender, shared, payload), result),
    ensures
        sender_writes(
            *old(sender),
            *final(sender),
            old(shared)@,
            final(shared)@,
            PayloadType::Binary,
            payload@,
            result,
        ),
{
    lemma_sender_writes(
        *old(sender),
        *final(sender),
        old(shared)@,
        final(shared)@,
        PayloadType::Binary,
        payload@,
        result,
    );
}

/// A ping that is written is sent as a ping, with the payload that was given.
pub proof fn law_sender_ping_written<E: ExtensionEncoder>(
    sender: &mut Sender<E>,
    shared: &mut Shared,
    payload: &[u8],
    result: Result<(), Failure<E::Error>>,
)
    requires
        call_ensures(Sender::<E>::write_ping, (sender, shared, payload), result),
    ensures
        sender_writes(
            *old(sender),
            *final(sender),
            old(shared)@,
            final(shared)@,
            PayloadType::Ping,
            payload@,
            result,
        ),
{
    lemma_sender_writes(
        *old(sender),
        *final(sender),
        old(shared)@,
        final(shared)@,
        PayloadType::Ping,
        payload@,
        result,
    );
}

/// A pong that is written is sent as a pong, with the payload that was given.
pub proof fn law_sender_pong_written<E: ExtensionEncoder>(
    sender: &mut Sender<E>,
    shared: &mut Shared,
    payload: &[u8],
    result: Result<(), Failure<E::Error>>,
)
    requires
        call_ensures(Sender::<E>::write_pong, (sender, shared, payload), result),
    ensures
        sender_writes(
            *old(sender),
            *final(sender),
            old(shared)@,
            final(shared)@,
            PayloadType::Pong,
            payload@,
            result,
        ),
{
    lemma_sender_writes(
        *old(sender),
        *final(sender),
        old(shared)@,
        final(shared)@,
        PayloadType::Pong,
        payload@,
        result,
    );
}

/// The operation code of a payload of some type.
pub open spec fn code_for(message_type: PayloadType) -> OpCode {
    match message_type {
        PayloadType::Text => OpCode::DataCode(DataCode::Text),
        PayloadType::Binary => OpCode::DataCode(DataCode::Binary),
        PayloadType::Ping => OpCode::ControlCode(ControlCode::Ping),
        PayloadType::Pong => OpCode::ControlCode(ControlCode::Pong),
    }
}

/// What one WebSocket writes, the other reads: as a message of the type that was asked for and with the
/// payload that was given, and nothing of what follows it.
pub proof fn law_written_is_read<E: Extension, F: Extension>(
    socket: &mut WebSocket<E>,
    payload: &[u8],
    message_type: PayloadType,
    result: Result<(), Failure<<E as ExtensionEncoder>::Error>>,
    peer: &mut WebSocket<F>,
    read_buffer: &mut BytesMut,
    step: ReadStep<<F as ExtensionDecoder>::Error>,
    rest: Seq<u8>,
)
    requires
        old(socket).state() is NotClosed,
        old(socket).extended() is None,
        message_type is Ping || message_type is Pong ==> payload@.len() <= 125,
        call_ensures(WebSocket::<E>::write, (socket, payload, message_type), result),
        !(old(peer).state() is Closed),
        old(peer).extended() is None,
        at_rest(old(peer).reading()),
        old(peer).framed_parts().flags.role != old(socket).framed_parts().flags.role,
        payload@.len() <= old(peer).framed_parts().max_message_size,
        old(peer).reading().buffered == final(socket).half().pending.skip(
            old(socket).half().pending.len() as int,
        ) + rest,
        call_ensures(WebSocket::<F>::read, (peer, read_buffer), step),
    ensures
        result is Ok,
        hands_over(
            step,
            code_for(message_type),
            payload@,
            contents(*old(read_buffer)),
            contents(*final(read_buffer)),
        ),
        final(peer).reading() == (ReadState { buffered: rest, ..old(peer).reading() }),
{
    let opcode = code_for(message_type);
    law_written(socket, payload, message_type, result);
    let before = old(socket).half().pending;
    let after = final(socket).half().pending;
    let mask = choose|mask: Option<u32>|
        (mask is None <==> old(socket).framed_parts().flags.role) && after == before + frame_bytes(
            #[trigger] plain_header(opcode, mask),
            payload@,
        );
    assert(after.skip(before.len() as int) =~= frame_bytes(plain_header(opcode, mask), payload@));
    law_frame_read(peer, read_buffer, step, opcode, mask, payload@, rest);
}

/// What a sender writes, the receiver at the other end reads: as a message of the type that was
/// asked for and with the payload that was given, and nothing of what follows it.
pub proof fn law_sender_written_is_read<E: ExtensionEncoder, D: ExtensionDecoder>(
    sender: &mut Sender<E>,
    shared: &mut Shared,
    payload: &[u8],
    message_type: PayloadType,
    result: Result<(), Failure<E::Error>>,
    peer: &mut Receiver<D>,
    peer_shared: &mut Shared,
    read_buffer: &mut BytesMut,
    step: ReadStep<D::Error>,
    rest: Seq<u8>,
)
    requires
        old(shared)@.close_state is NotClosed,
        old(sender).encoder() is None,
        message_type is Ping || message_type is Pong ==> payload@.len() <= 125,
        call_ensures(Sender::<E>::write, (sender, shared, payload, message_type), result),
        !(old(peer_shared)@.close_state is Closed),
        old(peer).wf(),
        old(peer).decoder() is None,
        at_rest(old(peer).reception(*old(read_buffer)).state),
        old(peer).end() != old(sender).end(),
        payload@.len() <= old(peer).limit(),
        old(peer).reading_side().buffered() == final(shared)@.half.pending.skip(
            old(shared)@.half.pending.len() as int,
        ) + rest,
        call_ensures(Receiver::<D>::read, (peer, peer_shared, read_buffer), step),
    ensures
        result is Ok,
        hands_over(
            step,
            code_for(message_type),
            payload@,
            contents(*old(read_buffer)),
            contents(*final(read_buffer)),
        ),
        final(peer).reading_side().buffered() == rest,
{
    let opcode = code_for(message_type);
    law_sender_written(sender, shared, payload, message_type, result);
    let before = old(shared)@.half.pending;
    let after = final(shared)@.half.pending;
    let mask = choose|mask: Option<u32>|
        (mask is None <==> old(sender).end() is Server) && after == before + frame_bytes(
            #[trigger] plain_header(opcode, mask),
            payload@,
        );
    assert(after.skip(before.len() as int) =~= frame_bytes(plain_header(opcode, mask), payload@));
    law_receiver_frame_read(
        peer,
        peer_shared,
        read_buffer,
        step,
        opcode,
        mask,
        payload@,
        rest,
    );
}

} // verus!
