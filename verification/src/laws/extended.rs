//! What an extension does to messages.

use crate::buffer::{be16, contents};
use crate::errors::Failure;
use crate::ext::{NoExt, NoExtDecoder, NoExtEncoder};
use crate::framed::{
    decoded_as, extension_header, frame_bytes, lemma_frame_round_trip, reads_on, takes_frame,
    CodecFlags, ItemView, Progress, ReadFailure, ReadState, Reception,
};
use crate::laws::frames::{lemma_sends, sends};
use crate::laws::reading::at_rest;
use crate::laws::writing::{law_sender_written, law_written, marked_header, offered_header};
use crate::protocol::{ControlCode, DataCode, FrameHeader, MessageView, OpCode, PayloadType};
use crate::ratchet_ext;
use crate::ratchet_ext::{Extension, ExtensionDecoder, ExtensionEncoder, RsvBits};
use crate::session::{handled, receives, CloseState, ReadStep, WriteHalfView};
use crate::split::{Receiver, Sender, Shared};
use crate::ws::WebSocket;
use bytes::BytesMut;
use std::convert::Infallible;
use vstd::prelude::*;

verus! {

/// The header of a frame that is a message of its own, as a decoder sees it.
pub open spec fn received_header(
    code: DataCode,
    seen: ratchet_ext::FrameHeader,
) -> ratchet_ext::FrameHeader {
    ratchet_ext::FrameHeader {
        rsv1: seen.rsv1,
        rsv2: seen.rsv2,
        rsv3: seen.rsv3,
        ..offered_header(code, true)
    }
}

/// Whether the reserved bits of a frame are among those that were negotiated.
pub open spec fn permitted(seen: ratchet_ext::FrameHeader, flags: CodecFlags) -> bool {
    &&& seen.rsv1 ==> flags.rsv1
    &&& seen.rsv2 ==> flags.rsv2
    &&& seen.rsv3 ==> flags.rsv3
}

/// Whether a read has handed a message to the decoder, and the caller gets what the decoder has made of
/// it. If the decoder fails, the caller gets its failure and the connection is closed.
pub open spec fn decodes_message<D: ExtensionDecoder>(
    is_server: bool,
    state: CloseState,
    state_after: CloseState,
    before: WriteHalfView,
    after: WriteHalfView,
    decoder: D,
    decoder_after: D,
    code: DataCode,
    seen: ratchet_ext::FrameHeader,
    data: Seq<u8>,
    decoded: Seq<u8>,
    step: ReadStep<D::Error>,
) -> bool {
    exists|marked: ratchet_ext::FrameHeader, outcome: Result<(), D::Error>|
        {
            &&& #[trigger] decoder.decodes(
                &decoder_after,
                data,
                decoded,
                received_header(code, seen),
                marked,
                outcome,
            )
            &&& match outcome {
                Ok(_) => {
                    &&& step matches ReadStep::Done { result: Ok(message), shutdown: false }
                        && message@ == if code is Text {
                        MessageView::Text
                    } else {
                        MessageView::Binary
                    }
                    &&& state_after == state
                    &&& after == before
                },
                Err(e) => if state is NotClosed {
                    &&& step == ReadStep::<D::Error>::Closing { result: Err(Failure::Extension(e)) }
                    &&& state_after is NotClosed
                    &&& sends(
                        before.pending,
                        after.pending,
                        is_server,
                        OpCode::ControlCode(ControlCode::Close),
                        seq![0, 0],
                    )
                } else {
                    &&& step == ReadStep::<D::Error>::Done {
                        result: Err(Failure::Extension(e)),
                        shutdown: is_server,
                    }
                    &&& state_after is Closed
                    &&& after == before
                },
            }
        }
}

/// What taking a frame that is a message of its own comes to with an extension.
proof fn lemma_takes_message<D: ExtensionDecoder>(
    before: Reception<D>,
    max_size: usize,
    after: Reception<D>,
    result: Result<Option<Progress>, ReadFailure<D::Error>>,
    code: DataCode,
    seen: ratchet_ext::FrameHeader,
    mask: Option<u32>,
    payload: Seq<u8>,
    rest: Seq<u8>,
)
    requires
        !(code is Continuation),
        at_rest(before.state),
        before.extension is Some,
        permitted(seen, before.state.flags),
        mask is Some <==> before.state.flags.role,
        payload.len() <= max_size,
        before.state.buffered == frame_bytes(marked_header(code, true, seen, mask), payload) + rest,
        takes_frame(before, max_size, after, result),
    ensures
        after.state == (ReadState { buffered: rest, ..before.state }),
        match result {
            Err(ReadFailure::Extension(e)) => decoded_as(
                before.extension,
                after.extension,
                marked_header(code, true, seen, mask).flags,
                code,
                before.data + payload,
                after.data,
                Err(e),
            ),
            Ok(Some(Progress::Item(item))) => decoded_as(
                before.extension,
                after.extension,
                marked_header(code, true, seen, mask).flags,
                code,
                before.data + payload,
                after.data,
                Ok(()),
            ) && item@ == if code is Text {
                ItemView::Text
            } else {
                ItemView::Binary
            },
            _ => false,
        },
{
    reveal(takes_frame);
    lemma_frame_round_trip(
        marked_header(code, true, seen, mask),
        payload,
        rest,
        before.state.flags.unknown_bits(),
        max_size,
    );
}

/// What a read comes to with an extension, if a message in one frame is next.
proof fn lemma_decodes_message<D: ExtensionDecoder>(
    before: Reception<D>,
    max_size: usize,
    after: Reception<D>,
    state: CloseState,
    state_after: CloseState,
    before_half: WriteHalfView,
    after_half: WriteHalfView,
    step: ReadStep<D::Error>,
    code: DataCode,
    seen: ratchet_ext::FrameHeader,
    mask: Option<u32>,
    payload: Seq<u8>,
    rest: Seq<u8>,
)
    requires
        !(state is Closed),
        !(code is Continuation),
        at_rest(before.state),
        before.extension is Some,
        permitted(seen, before.state.flags),
        mask is Some <==> before.state.flags.role,
        payload.len() <= max_size,
        before.state.buffered == frame_bytes(marked_header(code, true, seen, mask), payload) + rest,
        receives(
            before,
            max_size,
            after,
            state,
            state_after,
            before_half,
            after_half,
            step,
        ),
    ensures
        after.state == (ReadState { buffered: rest, ..before.state }),
        after.extension is Some,
        decodes_message(
            before.state.flags.role,
            state,
            state_after,
            before_half,
            after_half,
            before.extension->0,
            after.extension->0,
            code,
            seen,
            before.data + payload,
            after.data,
            step,
        ),
{
    let result = choose|result: Result<Progress, ReadFailure<D::Error>>|
        #[trigger] reads_on(before, max_size, after, result) && handled(
            state,
            state_after,
            before_half,
            after_half,
            before.state.flags.role,
            result,
            step,
        );
    assert forall|next: Reception<D>| !(#[trigger] takes_frame(before, max_size, next, Ok(None))) by {
        if takes_frame(before, max_size, next, Ok(None)) {
            lemma_takes_message(
                before,
                max_size,
                next,
                Ok(None),
                code,
                seen,
                mask,
                payload,
                rest,
            );
        }
    }
    let last = match result {
        Ok(progress) => Ok(Some(progress)),
        Err(e) => Err(e),
    };
    lemma_takes_message(before, max_size, after, last, code, seen, mask, payload, rest);
    let flags = marked_header(code, true, seen, mask).flags;
    assert(extension_header(flags, code) == received_header(code, seen));
    let decoder = before.extension->0;
    let decoder_after = after.extension->0;
    let data = before.data + payload;
    match result {
        Err(ReadFailure::Extension(e)) => {
            let marked = choose|marked: ratchet_ext::FrameHeader| #[trigger]
                decoder.decodes(
                    &decoder_after,
                    data,
                    after.data,
                    extension_header(flags, code),
                    marked,
                    Err(e),
                );
            assert(decoder.decodes(
                &decoder_after,
                data,
                after.data,
                received_header(code, seen),
                marked,
                Err(e),
            ));
            if state is NotClosed {
                assert(be16(0) =~= seq![0u8, 0u8]);
                lemma_sends(
                    before_half.pending,
                    after_half.pending,
                    before.state.flags.role,
                    OpCode::ControlCode(ControlCode::Close),
                    seq![0, 0],
                );
            }
        },
        _ => {
            let marked = choose|marked: ratchet_ext::FrameHeader| #[trigger]
                decoder.decodes(
                    &decoder_after,
                    data,
                    after.data,
                    extension_header(flags, code),
                    marked,
                    Ok(()),
                );
            assert(decoder.decodes(
                &decoder_after,
                data,
                after.data,
                received_header(code, seen),
                marked,
                Ok(()),
            ));
        },
    }
}

/// A WebSocket with an extension hands each message to it: its data, with the reserved bits of its
/// frame. The caller gets what the extension makes of it.
pub proof fn law_read_decodes<E: Extension>(
    socket: &mut WebSocket<E>,
    read_buffer: &mut BytesMut,
    step: ReadStep<<E as ExtensionDecoder>::Error>,
    code: DataCode,
    seen: ratchet_ext::FrameHeader,
    mask: Option<u32>,
    payload: Seq<u8>,
    rest: Seq<u8>,
)
    requires
        !(old(socket).state() is Closed),
        !(code is Continuation),
        at_rest(old(socket).reading()),
        old(socket).extended() is Some,
        permitted(seen, old(socket).framed_parts().flags),
        mask is Some <==> old(socket).framed_parts().flags.role,
        payload.len() <= old(socket).framed_parts().max_message_size,
        old(socket).reading().buffered == frame_bytes(
            marked_header(code, true, seen, mask),
            payload,
        ) + rest,
        call_ensures(WebSocket::<E>::read, (socket, read_buffer), step),
    ensures
        final(socket).reading() == (ReadState { buffered: rest, ..old(socket).reading() }),
        final(socket).extended() is Some,
        decodes_message(
            old(socket).framed_parts().flags.role,
            old(socket).state(),
            final(socket).state(),
            old(socket).half(),
            final(socket).half(),
            old(socket).extended()->0,
            final(socket).extended()->0,
            code,
            seen,
            contents(*old(read_buffer)) + payload,
            contents(*final(read_buffer)),
            step,
        ),
{
    lemma_decodes_message(
        old(socket).reception(*old(read_buffer)),
        old(socket).framed_parts().max_message_size,
        final(socket).reception(*final(read_buffer)),
        old(socket).state(),
        final(socket).state(),
        old(socket).half(),
        final(socket).half(),
        step,
        code,
        seen,
        mask,
        payload,
        rest,
    );
}

/// A receiver with an extension hands each message to its decoder, as a WebSocket does.
pub proof fn law_receiver_read_decodes<D: ExtensionDecoder>(
    receiver: &mut Receiver<D>,
    shared: &mut Shared,
    read_buffer: &mut BytesMut,
    step: ReadStep<D::Error>,
    code: DataCode,
    seen: ratchet_ext::FrameHeader,
    mask: Option<u32>,
    payload: Seq<u8>,
    rest: Seq<u8>,
)
    requires
        !(old(shared)@.close_state is Closed),
        !(code is Continuation),
        old(receiver).wf(),
        at_rest(old(receiver).reception(*old(read_buffer)).state),
        old(receiver).decoder() is Some,
        permitted(seen, old(receiver).codec()),
        mask is Some <==> old(receiver).end() is Server,
        payload.len() <= old(receiver).limit(),
        old(receiver).reading_side().buffered() == frame_bytes(
            marked_header(code, true, seen, mask),
            payload,
        ) + rest,
        call_ensures(Receiver::<D>::read, (receiver, shared, read_buffer), step),
    ensures
        final(receiver).reading_side().buffered() == rest,
        final(receiver).decoder() is Some,
        decodes_message(
            old(receiver).end() is Server,
            old(shared)@.close_state,
            final(shared)@.close_state,
            old(shared)@.half,
            final(shared)@.half,
            old(receiver).decoder()->0,
            final(receiver).decoder()->0,
            code,
            seen,
            contents(*old(read_buffer)) + payload,
            contents(*final(read_buffer)),
            step,
        ),
{
    lemma_decodes_message(
        old(receiver).reception(*old(read_buffer)),
        old(receiver).limit(),
        final(receiver).reception(*final(read_buffer)),
        old(shared)@.close_state,
        final(shared)@.close_state,
        old(shared)@.half,
        final(shared)@.half,
        step,
        code,
        seen,
        mask,
        payload,
        rest,
    );
}

/// Whether a decoder makes a payload again of whatever an encoder makes of it: what the encoder
/// makes of it is not too long, sets only reserved bits that were negotiated, and the decoder does
/// not fail.
pub open spec fn restores<E: ExtensionEncoder, D: ExtensionDecoder>(
    decoder: D,
    encoder: E,
    flags: CodecFlags,
    code: DataCode,
    payload: Seq<u8>,
    max_size: usize,
) -> bool {
    forall|encoder_after: E, encoded: Seq<u8>, seen: ratchet_ext::FrameHeader|
        #[trigger] encoder.encodes(
            &encoder_after,
            payload,
            encoded,
            offered_header(code, true),
            seen,
            Ok(()),
        ) ==> {
            &&& encoded.len() <= max_size
            &&& permitted(seen, flags)
            &&& forall|
                decoder_after: D,
                decoded: Seq<u8>,
                marked: ratchet_ext::FrameHeader,
                outcome: Result<(), D::Error>,
            |
                #[trigger] decoder.decodes(
                    &decoder_after,
                    encoded,
                    decoded,
                    received_header(code, seen),
                    marked,
                    outcome,
                ) ==> outcome is Ok && decoded == payload
        }
}

/// What one WebSocket writes with an extension, the other reads with it: a message of the type that
/// was asked for and with the payload that was given, if the extension's decoder undoes what its
/// encoder does.
pub proof fn law_encoded_is_decoded<E: Extension, F: Extension>(
    socket: &mut WebSocket<E>,
    payload: &[u8],
    message_type: PayloadType,
    peer: &mut WebSocket<F>,
    read_buffer: &mut BytesMut,
    step: ReadStep<<F as ExtensionDecoder>::Error>,
    rest: Seq<u8>,
)
    requires
        old(socket).state() is NotClosed,
        old(socket).extended() is Some,
        message_type is Text || message_type is Binary,
        call_ensures(WebSocket::<E>::write, (socket, payload, message_type), Ok(())),
        !(old(peer).state() is Closed),
        old(peer).extended() is Some,
        at_rest(old(peer).reading()),
        old(peer).framed_parts().flags.role != old(socket).framed_parts().flags.role,
        restores(
            old(peer).extended()->0,
            old(socket).extended()->0,
            old(peer).framed_parts().flags,
            if message_type is Text {
                DataCode::Text
            } else {
                DataCode::Binary
            },
            payload@,
            old(peer).framed_parts().max_message_size,
        ),
        old(peer).reading().buffered == final(socket).half().pending.skip(
            old(socket).half().pending.len() as int,
        ) + rest,
        contents(*old(read_buffer)).len() == 0,
        call_ensures(WebSocket::<F>::read, (peer, read_buffer), step),
    ensures
        step matches ReadStep::Done { result: Ok(message), shutdown: false } && message@
            == if message_type is Text {
            MessageView::Text
        } else {
            MessageView::Binary
        },
        contents(*final(read_buffer)) == payload@,
        final(peer).reading().buffered == rest,
{
    let code = if message_type is Text {
        DataCode::Text
    } else {
        DataCode::Binary
    };
    let result: Result<(), Failure<<E as ExtensionEncoder>::Error>> = Ok(());
    let is_server = old(socket).framed_parts().flags.role;
    law_written(socket, payload, message_type, result);
    let before = old(socket).half().pending;
    let after = final(socket).half().pending;
    let encoder = old(socket).extended()->0;
    let encoder_after = final(socket).extended()->0;
    let (encoded, seen, outcome) = choose|
        encoded: Seq<u8>,
        seen: ratchet_ext::FrameHeader,
        outcome: Result<(), <E as ExtensionEncoder>::Error>,
    |
        {
            &&& #[trigger] encoder.encodes(
                &encoder_after,
                payload@,
                encoded,
                offered_header(code, true),
                seen,
                outcome,
            )
            &&& outcome is Ok
            &&& exists|mask: Option<u32>|
                (mask is None <==> is_server) && after == before + frame_bytes(
                    #[trigger] marked_header(code, true, seen, mask),
                    encoded,
                )
        };
    let mask = choose|mask: Option<u32>|
        (mask is None <==> is_server) && after == before + frame_bytes(
            #[trigger] marked_header(code, true, seen, mask),
            encoded,
        );
    assert(outcome->Ok_0 == ());
    assert(after.skip(before.len() as int) =~= frame_bytes(
        marked_header(code, true, seen, mask),
        encoded,
    ));
    law_read_decodes(peer, read_buffer, step, code, seen, mask, encoded, rest);
    assert(contents(*old(read_buffer)) + encoded =~= encoded);
}

/// What a sender writes with an extension, the receiver at the other end reads with it, in the same
/// way.
pub proof fn law_sender_encoded_is_decoded<E: ExtensionEncoder, D: ExtensionDecoder>(
    sender: &mut Sender<E>,
    shared: &mut Shared,
    payload: &[u8],
    message_type: PayloadType,
    peer: &mut Receiver<D>,
    peer_shared: &mut Shared,
    read_buffer: &mut BytesMut,
    step: ReadStep<D::Error>,
    rest: Seq<u8>,
)
    requires
        old(shared)@.close_state is NotClosed,
        old(sender).encoder() is Some,
        message_type is Text || message_type is Binary,
        call_ensures(Sender::<E>::write, (sender, shared, payload, message_type), Ok(())),
        !(old(peer_shared)@.close_state is Closed),
        old(peer).wf(),
        old(peer).decoder() is Some,
        at_rest(old(peer).reception(*old(read_buffer)).state),
        old(peer).end() != old(sender).end(),
        restores(
            old(peer).decoder()->0,
            old(sender).encoder()->0,
            old(peer).codec(),
            if message_type is Text {
                DataCode::Text
            } else {
                DataCode::Binary
            },
            payload@,
            old(peer).limit(),
        ),
        old(peer).reading_side().buffered() == final(shared)@.half.pending.skip(
            old(shared)@.half.pending.len() as int,
        ) + rest,
        contents(*old(read_buffer)).len() == 0,
        call_ensures(Receiver::<D>::read, (peer, peer_shared, read_buffer), step),
    ensures
        step matches ReadStep::Done { result: Ok(message), shutdown: false } && message@
            == if message_type is Text {
            MessageView::Text
        } else {
            MessageView::Binary
        },
        contents(*final(read_buffer)) == payload@,
        final(peer).reading_side().buffered() == rest,
{
    let code = if message_type is Text {
        DataCode::Text
    } else {
        DataCode::Binary
    };
    let result: Result<(), Failure<E::Error>> = Ok(());
    let is_server = old(sender).end() is Server;
    law_sender_written(sender, shared, payload, message_type, result);
    let before = old(shared)@.half.pending;
    let after = final(shared)@.half.pending;
    let encoder = old(sender).encoder()->0;
    let encoder_after = final(sender).encoder()->0;
    let (encoded, seen, outcome) = choose|
        encoded: Seq<u8>,
        seen: ratchet_ext::FrameHeader,
        outcome: Result<(), E::Error>,
    |
        {
            &&& #[trigger] encoder.encodes(
                &encoder_after,
                payload@,
                encoded,
                offered_header(code, true),
                seen,
                outcome,
            )
            &&& outcome is Ok
            &&& exists|mask: Option<u32>|
                (mask is None <==> is_server) && after == before + frame_bytes(
                    #[trigger] marked_header(code, true, seen, mask),
                    encoded,
                )
        };
    let mask = choose|mask: Option<u32>|
        (mask is None <==> is_server) && after == before + frame_bytes(
            #[trigger] marked_header(code, true, seen, mask),
            encoded,
        );
    assert(outcome->Ok_0 == ());
    assert(after.skip(before.len() as int) =~= frame_bytes(
        marked_header(code, true, seen, mask),
        encoded,
    ));
    law_receiver_read_decodes(
        peer,
        peer_shared,
        read_buffer,
        step,
        code,
        seen,
        mask,
        encoded,
        rest,
    );
    assert(contents(*old(read_buffer)) + encoded =~= encoded);
}

/// An extension that does nothing makes every payload that is not too long again of what it makes
/// of it, with any reserved bits negotiated, and never fails.
pub proof fn law_no_extension(
    flags: CodecFlags,
    code: DataCode,
    payload: Seq<u8>,
    max_size: usize,
)
    requires
        payload.len() <= max_size,
    ensures
        restores(NoExtDecoder, NoExtEncoder, flags, code, payload, max_size),
        restores(NoExt, NoExt, flags, code, payload, max_size),
{
}

/// An extension that does nothing leaves payloads and headers as they are, and sets no reserved bits.
pub proof fn law_no_extension_calls(
    ext: &mut NoExt,
    payload: &mut BytesMut,
    header: &mut ratchet_ext::FrameHeader,
    result: Result<(), Infallible>,
    bits: RsvBits,
)
    requires
        call_ensures(<NoExt as ExtensionEncoder>::encode, (ext, payload, header), result)
            || call_ensures(<NoExt as ExtensionDecoder>::decode, (ext, payload, header), result),
        call_ensures(<NoExt as Extension>::bits, (&*old(ext),), bits),
    ensures
        result is Ok,
        contents(*final(payload)) == contents(*old(payload)),
        *final(header) == *old(header),
        !bits.rsv1 && !bits.rsv2 && !bits.rsv3,
{
}

/// The header of a data frame, as a decoder sees it.
pub open spec fn header_seen(
    code: DataCode,
    fin: bool,
    seen: ratchet_ext::FrameHeader,
) -> ratchet_ext::FrameHeader {
    ratchet_ext::FrameHeader {
        rsv1: seen.rsv1,
        rsv2: seen.rsv2,
        rsv3: seen.rsv3,
        ..offered_header(code, fin)
    }
}

/// Whether a decoder may make `decoded` of the data up to and with one frame.
pub open spec fn decodes_part<D: ExtensionDecoder>(
    decoder: D,
    decoder_after: D,
    code: DataCode,
    fin: bool,
    seen: ratchet_ext::FrameHeader,
    data: Seq<u8>,
    decoded: Seq<u8>,
    outcome: Result<(), D::Error>,
) -> bool {
    exists|marked: ratchet_ext::FrameHeader| #[trigger]
        decoder.decodes(
            &decoder_after,
            data,
            decoded,
            header_seen(code, fin, seen),
            marked,
            outcome,
        )
}

/// Whether a decoder is handed a message in fragments as it should be: with each fragment all of
/// the data up to and with it, until the message is complete or the decoder fails.
pub open spec fn decodes_each<D: ExtensionDecoder>(
    decoder: D,
    decoder_after: D,
    code: DataCode,
    seen: Seq<ratchet_ext::FrameHeader>,
    parts: Seq<Seq<u8>>,
    data: Seq<u8>,
    decoded: Seq<u8>,
    outcome: Result<(), D::Error>,
) -> bool
    decreases parts.len(),
{
    if parts.len() <= 1 {
        decodes_part(
            decoder,
            decoder_after,
            code,
            true,
            seen[0],
            data + parts[0],
            decoded,
            outcome,
        )
    } else {
        ||| outcome is Err && decodes_part(
            decoder,
            decoder_after,
            code,
            false,
            seen[0],
            data + parts[0],
            decoded,
            outcome,
        )
        ||| exists|decoder_then: D, middle: Seq<u8>|
            #[trigger] decodes_part(
                decoder,
                decoder_then,
                code,
                false,
                seen[0],
                data + parts[0],
                middle,
                Ok(()),
            ) && decodes_each(
                decoder_then,
                decoder_after,
                DataCode::Continuation,
                seen.skip(1),
                parts.skip(1),
                middle,
                decoded,
                outcome,
            )
    }
}

/// A message in fragments whose reserved bits an extension has set.
pub open spec fn marked_fragments(
    code: DataCode,
    masks: Seq<Option<u32>>,
    seen: Seq<ratchet_ext::FrameHeader>,
    parts: Seq<Seq<u8>>,
) -> Seq<u8>
    decreases parts.len(),
{
    if parts.len() == 0 {
        Seq::empty()
    } else {
        frame_bytes(marked_header(code, parts.len() == 1, seen[0], masks[0]), parts[0])
            + marked_fragments(
            DataCode::Continuation,
            masks.skip(1),
            seen.skip(1),
            parts.skip(1),
        )
    }
}

/// Whether fragments can be read with an extension.
pub open spec fn readable_fragments(
    flags: CodecFlags,
    max_size: usize,
    code: DataCode,
    masks: Seq<Option<u32>>,
    seen: Seq<ratchet_ext::FrameHeader>,
    parts: Seq<Seq<u8>>,
) -> bool {
    &&& parts.len() > 0
    &&& masks.len() == parts.len()
    &&& seen.len() == parts.len()
    &&& flags.r_cont <==> code is Continuation
    &&& forall|i: int| 0 <= i < masks.len() ==> (#[trigger] masks[i] is Some <==> flags.role)
    &&& forall|i: int| 0 <= i < seen.len() ==> permitted(#[trigger] seen[i], flags)
    &&& forall|i: int| 0 <= i < parts.len() ==> (#[trigger] parts[i]).len() <= max_size
}

/// What taking the first of several fragments comes to with an extension.
proof fn lemma_takes_fragment<D: ExtensionDecoder>(
    before: Reception<D>,
    max_size: usize,
    after: Reception<D>,
    result: Result<Option<Progress>, ReadFailure<D::Error>>,
    code: DataCode,
    fin: bool,
    seen: ratchet_ext::FrameHeader,
    mask: Option<u32>,
    payload: Seq<u8>,
    rest: Seq<u8>,
)
    requires
        before.state.position is DecodingHeader,
        before.state.flags.r_cont <==> code is Continuation,
        before.extension is Some,
        permitted(seen, before.state.flags),
        mask is Some <==> before.state.flags.role,
        payload.len() <= max_size,
        before.state.buffered == frame_bytes(marked_header(code, fin, seen, mask), payload) + rest,
        takes_frame(before, max_size, after, result),
    ensures
        after.extension is Some,
        after.state.position is DecodingHeader,
        after.state.buffered == rest,
        after.state.flags == if fin {
            CodecFlags {
                r_cont: false,
                cont_type: if code is Continuation {
                    false
                } else {
                    before.state.flags.cont_type
                },
                ..before.state.flags
            }
        } else {
            CodecFlags {
                r_cont: true,
                cont_type: before.state.flags.cont_type || code is Text,
                ..before.state.flags
            }
        },
        match result {
            Err(ReadFailure::Extension(e)) => decodes_part(
                before.extension->0,
                after.extension->0,
                code,
                fin,
                seen,
                before.data + payload,
                after.data,
                Err(e),
            ),
            Err(ReadFailure::Read(_)) => false,
            Ok(progress) => {
                &&& decodes_part(
                    before.extension->0,
                    after.extension->0,
                    code,
                    fin,
                    seen,
                    before.data + payload,
                    after.data,
                    Ok(()),
                )
                &&& progress is None <==> !fin
                &&& fin ==> (progress matches Some(Progress::Item(item)) && item@ == if code is Text
                    || code is Continuation && before.state.flags.cont_type {
                    ItemView::Text
                } else {
                    ItemView::Binary
                })
            },
        },
{
    reveal(takes_frame);
    let header = marked_header(code, fin, seen, mask);
    lemma_frame_round_trip(
        header,
        payload,
        rest,
        before.state.flags.unknown_bits(),
        max_size,
    );
    assert(extension_header(header.flags, code) == header_seen(code, fin, seen));
}

/// What reading fragments comes to with an extension.
proof fn lemma_reads_fragments<D: ExtensionDecoder>(
    before: Reception<D>,
    max_size: usize,
    after: Reception<D>,
    result: Result<Progress, ReadFailure<D::Error>>,
    code: DataCode,
    masks: Seq<Option<u32>>,
    seen: Seq<ratchet_ext::FrameHeader>,
    parts: Seq<Seq<u8>>,
    rest: Seq<u8>,
)
    requires
        before.state.position is DecodingHeader,
        before.extension is Some,
        readable_fragments(before.state.flags, max_size, code, masks, seen, parts),
        before.state.buffered == marked_fragments(code, masks, seen, parts) + rest,
        reads_on(before, max_size, after, result),
    ensures
        after.extension is Some,
        match result {
            Ok(Progress::Item(item)) => {
                &&& decodes_each(
                    before.extension->0,
                    after.extension->0,
                    code,
                    seen,
                    parts,
                    before.data,
                    after.data,
                    Ok(()),
                )
                &&& after.state.buffered == rest
                &&& item@ == if code is Text || before.state.flags.cont_type && (code is Continuation
                    || parts.len() > 1) {
                    ItemView::Text
                } else {
                    ItemView::Binary
                }
            },
            Err(ReadFailure::Extension(e)) => decodes_each(
                before.extension->0,
                after.extension->0,
                code,
                seen,
                parts,
                before.data,
                after.data,
                Err(e),
            ),
            _ => false,
        },
    decreases parts.len(),
{
    let last = match result {
        Ok(progress) => Ok(Some(progress)),
        Err(e) => Err(e),
    };
    let fin = parts.len() == 1;
    let others = marked_fragments(
        DataCode::Continuation,
        masks.skip(1),
        seen.skip(1),
        parts.skip(1),
    );
    assert(before.state.buffered =~= frame_bytes(
        marked_header(code, fin, seen[0], masks[0]),
        parts[0],
    ) + (others + rest));
    if takes_frame(before, max_size, after, last) {
        lemma_takes_fragment(
            before,
            max_size,
            after,
            last,
            code,
            fin,
            seen[0],
            masks[0],
            parts[0],
            others + rest,
        );
        if fin {
            assert(others + rest =~= rest);
        }
    } else {
        let next = choose|next: Reception<D>|
            #[trigger] takes_frame(before, max_size, next, Ok(None)) && next.state.buffered.len()
                < before.state.buffered.len() && reads_on(next, max_size, after, result);
        lemma_takes_fragment(
            before,
            max_size,
            next,
            Ok(None),
            code,
            fin,
            seen[0],
            masks[0],
            parts[0],
            others + rest,
        );
        assert(readable_fragments(
            next.state.flags,
            max_size,
            DataCode::Continuation,
            masks.skip(1),
            seen.skip(1),
            parts.skip(1),
        )) by {
            let flags = next.state.flags;
            assert forall|i: int| 0 <= i < masks.skip(1).len() implies (#[trigger] masks.skip(1)[i]
                is Some <==> flags.role) by {
                assert(masks[i + 1] == masks.skip(1)[i]);
            }
            assert forall|i: int| 0 <= i < seen.skip(1).len() implies permitted(
                #[trigger] seen.skip(1)[i],
                flags,
            ) by {
                assert(permitted(seen[i + 1], before.state.flags));
            }
            assert forall|i: int| 0 <= i < parts.skip(1).len() implies (#[trigger] parts.skip(
                1,
            )[i]).len() <= max_size by {
                assert(parts[i + 1].len() <= max_size);
            }
        }
        lemma_reads_fragments(
            next,
            max_size,
            after,
            result,
            DataCode::Continuation,
            masks.skip(1),
            seen.skip(1),
            parts.skip(1),
            rest,
        );
        assert(decodes_part(
            before.extension->0,
            next.extension->0,
            code,
            false,
            seen[0],
            before.data + parts[0],
            next.data,
            Ok(()),
        ));
    }
}

/// A WebSocket with an extension hands each fragment of a message to it, with all of the data up to
/// and with the fragment. The caller gets the message once it is complete, or the failure of the
/// extension.
pub proof fn law_fragments_decoded<E: Extension>(
    socket: &mut WebSocket<E>,
    read_buffer: &mut BytesMut,
    step: ReadStep<<E as ExtensionDecoder>::Error>,
    code: DataCode,
    masks: Seq<Option<u32>>,
    seen: Seq<ratchet_ext::FrameHeader>,
    parts: Seq<Seq<u8>>,
    rest: Seq<u8>,
)
    requires
        old(socket).state() is NotClosed,
        !(code is Continuation),
        at_rest(old(socket).reading()),
        old(socket).extended() is Some,
        readable_fragments(
            old(socket).framed_parts().flags,
            old(socket).framed_parts().max_message_size,
            code,
            masks,
            seen,
            parts,
        ),
        old(socket).reading().buffered == marked_fragments(code, masks, seen, parts) + rest,
        call_ensures(WebSocket::<E>::read, (socket, read_buffer), step),
    ensures
        final(socket).extended() is Some,
        ({
            let handed = |outcome: Result<(), <E as ExtensionDecoder>::Error>|
                decodes_each(
                    old(socket).extended()->0,
                    final(socket).extended()->0,
                    code,
                    seen,
                    parts,
                    contents(*old(read_buffer)),
                    contents(*final(read_buffer)),
                    outcome,
                );
            match step {
                ReadStep::Done { result: Ok(message), shutdown } => {
                    &&& !shutdown
                    &&& message@ == if code is Text {
                        MessageView::Text
                    } else {
                        MessageView::Binary
                    }
                    &&& handed(Ok(()))
                    &&& final(socket).reading().buffered == rest
                    &&& final(socket).half() == old(socket).half()
                },
                ReadStep::Closing { result: Err(Failure::Extension(e)) } => handed(Err(e)),
                _ => false,
            }
        }),
{
    let before = old(socket).reception(*old(read_buffer));
    let after = final(socket).reception(*final(read_buffer));
    let max_size = old(socket).framed_parts().max_message_size;
    let result = choose|result: Result<Progress, ReadFailure<<E as ExtensionDecoder>::Error>>|
        #[trigger] reads_on(before, max_size, after, result) && handled(
            old(socket).state(),
            final(socket).state(),
            old(socket).half(),
            final(socket).half(),
            before.state.flags.role,
            result,
            step,
        );
    lemma_reads_fragments(
        before,
        max_size,
        after,
        result,
        code,
        masks,
        seen,
        parts,
        rest,
    );
}

} // verus!
