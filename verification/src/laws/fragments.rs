//! Messages in fragments.

use crate::buffer::contents;
use crate::errors::{close_fault, CloseCause, Failure};
use crate::fragment::{
    adds_message, chunks, data_code, fragment_flags, lemma_chunks, lemma_plain_message,
};
use crate::framed::{
    control_header, flags_amid, fragments, frame_bytes, joined, lemma_fragments_run,
    lemma_ping_amid_fragments, unfinished, ReadState, Reception,
};
use crate::laws::frames::{lemma_sends, plain_header, sends};
use crate::laws::reading::{at_rest, hands_over};
use crate::laws::writing::{lemma_sends_encoded, sends_encoded};
use crate::protocol::{ControlCode, DataCode, MessageType, MessageView, OpCode};
use crate::ratchet_ext::{Extension, ExtensionDecoder, ExtensionEncoder};
use crate::session::{
    adds_data, lemma_receives_as_run, receives, CloseState, ReadStep, WriteHalfView,
};
use crate::split::{Receiver, Sender, Shared};
use crate::ws::WebSocket;
use bytes::BytesMut;
use vstd::prelude::*;

verus! {

/// Whether parts are a payload that was cut every `size` bytes: put together they are the payload,
/// all but the last have that size, and the last is not longer and not empty, unless the payload
/// is.
pub open spec fn cut_up(payload: Seq<u8>, size: nat, parts: Seq<Seq<u8>>) -> bool {
    &&& parts.len() > 0
    &&& joined(parts) == payload
    &&& forall|i: int| 0 <= i < parts.len() - 1 ==> (#[trigger] parts[i]).len() == size
    &&& parts.last().len() <= size
    &&& parts.last().len() == 0 ==> payload.len() == 0
}

/// The parts of a payload.
proof fn lemma_cut_up(payload: Seq<u8>, size: nat)
    requires
        size > 0,
    ensures
        cut_up(payload, size, chunks(payload, size)),
        payload.len() <= size ==> chunks(payload, size).len() == 1,
    decreases payload.len(),
{
    lemma_chunks(payload, size);
    let parts = chunks(payload, size);
    if payload.len() > size {
        let rest = payload.skip(size as int);
        lemma_cut_up(rest, size);
        let others = chunks(rest, size);
        assert(parts =~= seq![payload.take(size as int)] + others);
        assert(parts.last() == others.last());
        assert forall|i: int| 0 <= i < parts.len() - 1 implies (#[trigger] parts[i]).len() == size by {
            if i > 0 {
                assert(parts[i] == others[i - 1]);
            }
        }
    }
}

/// The code of the first frame of a message of some type.
pub open spec fn first_code(message_type: MessageType) -> DataCode {
    match message_type {
        MessageType::Text => DataCode::Text,
        MessageType::Binary => DataCode::Binary,
    }
}

/// A message that is written in fragments is cut up and sent whole and in order: the first frame
/// has the type of the message, the others continue it, and only the last is final.
pub proof fn law_fragments_written<E: ExtensionEncoder>(
    sender: &mut Sender<E>,
    shared: &mut Shared,
    payload: &[u8],
    message_type: MessageType,
    size: usize,
    result: Result<(), Failure<E::Error>>,
)
    requires
        size > 0,
        !(old(shared)@.close_state is Closed),
        old(sender).encoder() is None,
        call_ensures(
            Sender::<E>::write_fragmented,
            (sender, shared, payload, message_type, size),
            result,
        ),
    ensures
        result is Ok,
        final(sender).encoder() is None,
        final(sender).end() == old(sender).end(),
        final(shared)@.id == old(shared)@.id,
        final(shared)@.close_state == old(shared)@.close_state,
        final(shared)@.half.pinged == old(shared)@.half.pinged,
        exists|masks: Seq<Option<u32>>, parts: Seq<Seq<u8>>|
            {
                &&& cut_up(payload@, size as nat, parts)
                &&& payload@.len() <= size ==> parts.len() == 1
                &&& masks.len() == parts.len()
                &&& forall|i: int|
                    0 <= i < masks.len() ==> (#[trigger] masks[i] is None <==> old(
                        sender,
                    ).end() is Server)
                &&& final(shared)@.half.pending == old(shared)@.half.pending
                    + #[trigger] fragments(first_code(message_type), masks, parts)
            },
{
    let before = old(shared)@.half.pending;
    let after = final(shared)@.half.pending;
    let is_server = old(sender).end() is Server;
    let code = data_code(message_type);
    let parts = chunks(payload@, size as nat);
    lemma_cut_up(payload@, size as nat);
    lemma_plain_message(
        before,
        after,
        final(sender).encoder(),
        is_server,
        code,
        parts,
        result,
    );
    let masks = choose|masks: Seq<Option<u32>>|
        masks.len() == parts.len() && (forall|i: int|
            0 <= i < masks.len() ==> (#[trigger] masks[i] is None <==> is_server)) && after
            == before + #[trigger] fragments(code, masks, parts);
    assert(after == before + fragments(first_code(message_type), masks, parts));
}

/// Whether an encoder has made each fragment of a message that is sent, one after the other, or has
/// failed on one of them: those before it have been sent.
pub open spec fn sends_each<E: ExtensionEncoder>(
    before: Seq<u8>,
    after: Seq<u8>,
    encoder: E,
    encoder_after: E,
    is_server: bool,
    code: DataCode,
    parts: Seq<Seq<u8>>,
    result: Result<(), Failure<E::Error>>,
) -> bool
    decreases parts.len(),
{
    if parts.len() <= 1 {
        sends_encoded(
            before,
            after,
            encoder,
            encoder_after,
            is_server,
            code,
            true,
            parts[0],
            result,
        )
    } else {
        ||| result is Err && sends_encoded(
            before,
            after,
            encoder,
            encoder_after,
            is_server,
            code,
            false,
            parts[0],
            result,
        )
        ||| exists|middle: Seq<u8>, encoder_then: E|
            #[trigger] sends_encoded(
                before,
                middle,
                encoder,
                encoder_then,
                is_server,
                code,
                false,
                parts[0],
                Ok(()),
            ) && sends_each(
                middle,
                after,
                encoder_then,
                encoder_after,
                is_server,
                DataCode::Continuation,
                parts.skip(1),
                result,
            )
    }
}

/// What adding a message in fragments comes to with an extension.
proof fn lemma_sends_each<E: ExtensionEncoder>(
    before: Seq<u8>,
    after: Seq<u8>,
    encoder: Option<E>,
    encoder_after: Option<E>,
    is_server: bool,
    code: DataCode,
    parts: Seq<Seq<u8>>,
    result: Result<(), Failure<E::Error>>,
)
    requires
        parts.len() > 0,
        encoder is Some,
        adds_message(before, after, encoder, encoder_after, is_server, code, parts, result),
    ensures
        encoder_after is Some,
        sends_each(
            before,
            after,
            encoder->0,
            encoder_after->0,
            is_server,
            code,
            parts,
            result,
        ),
    decreases parts.len(),
{
    if parts.len() == 1 {
        lemma_sends_encoded(
            before,
            after,
            encoder,
            encoder_after,
            is_server,
            code,
            true,
            parts[0],
            result,
        );
    } else if result is Err && adds_data(
        before,
        after,
        encoder,
        encoder_after,
        is_server,
        code,
        fragment_flags(false),
        parts[0],
        result,
    ) {
        lemma_sends_encoded(
            before,
            after,
            encoder,
            encoder_after,
            is_server,
            code,
            false,
            parts[0],
            result,
        );
    } else {
        let (middle, encoder_then) = choose|middle: Seq<u8>, encoder_then: Option<E>|
            #[trigger] adds_data(
                before,
                middle,
                encoder,
                encoder_then,
                is_server,
                code,
                fragment_flags(false),
                parts[0],
                Ok(()),
            ) && adds_message(
                middle,
                after,
                encoder_then,
                encoder_after,
                is_server,
                DataCode::Continuation,
                parts.skip(1),
                result,
            );
        lemma_sends_encoded(
            before,
            middle,
            encoder,
            encoder_then,
            is_server,
            code,
            false,
            parts[0],
            Ok(()),
        );
        lemma_sends_each(
            middle,
            after,
            encoder_then,
            encoder_after,
            is_server,
            DataCode::Continuation,
            parts.skip(1),
            result,
        );
    }
}

/// With an extension each fragment is sent as the encoder makes it.
pub proof fn law_encoded_fragments_written<E: ExtensionEncoder>(
    sender: &mut Sender<E>,
    shared: &mut Shared,
    payload: &[u8],
    message_type: MessageType,
    size: usize,
    result: Result<(), Failure<E::Error>>,
)
    requires
        size > 0,
        !(old(shared)@.close_state is Closed),
        old(sender).encoder() is Some,
        call_ensures(
            Sender::<E>::write_fragmented,
            (sender, shared, payload, message_type, size),
            result,
        ),
    ensures
        final(sender).encoder() is Some,
        final(shared)@.close_state == old(shared)@.close_state,
        final(shared)@.half.pinged == old(shared)@.half.pinged,
        exists|parts: Seq<Seq<u8>>|
            #[trigger] cut_up(payload@, size as nat, parts) && sends_each(
                old(shared)@.half.pending,
                final(shared)@.half.pending,
                old(sender).encoder()->0,
                final(sender).encoder()->0,
                old(sender).end() is Server,
                first_code(message_type),
                parts,
                result,
            ),
{
    let parts = chunks(payload@, size as nat);
    lemma_cut_up(payload@, size as nat);
    lemma_sends_each(
        old(shared)@.half.pending,
        final(shared)@.half.pending,
        old(sender).encoder(),
        final(sender).encoder(),
        old(sender).end() is Server,
        data_code(message_type),
        parts,
        result,
    );
}

/// No message is written in fragments on a connection that is closed.
pub proof fn law_no_fragments_when_closed<E: ExtensionEncoder>(
    sender: &mut Sender<E>,
    shared: &mut Shared,
    payload: &[u8],
    message_type: MessageType,
    size: usize,
    result: Result<(), Failure<E::Error>>,
)
    requires
        old(shared)@.close_state is Closed,
        call_ensures(
            Sender::<E>::write_fragmented,
            (sender, shared, payload, message_type, size),
            result,
        ),
    ensures
        result matches Err(e) && e.says(close_fault(CloseCause::Error)),
        final(shared)@ == old(shared)@,
        final(sender).encoder() == old(sender).encoder(),
{
}

/// What a read comes to if the fragments of a message are next.
proof fn lemma_fragments_read<D: ExtensionDecoder>(
    before: Reception<D>,
    max_size: usize,
    after: Reception<D>,
    state: CloseState,
    state_after: CloseState,
    before_half: WriteHalfView,
    after_half: WriteHalfView,
    step: ReadStep<D::Error>,
    code: DataCode,
    masks: Seq<Option<u32>>,
    parts: Seq<Seq<u8>>,
    rest: Seq<u8>,
)
    requires
        !(code is Continuation),
        before.extension is None,
        at_rest(before.state),
        parts.len() > 0,
        masks.len() == parts.len(),
        forall|i: int|
            0 <= i < masks.len() ==> (#[trigger] masks[i] is Some <==> before.state.flags.role),
        forall|i: int| 0 <= i < parts.len() ==> (#[trigger] parts[i]).len() <= max_size,
        before.state.buffered == fragments(code, masks, parts) + rest,
        receives(
            before,
            max_size,
            after,
            state,
            state_after,
            before_half,
            after_half,
            step,
        ),
    ensures
        hands_over(step, OpCode::DataCode(code), joined(parts), before.data, after.data),
        after.state == (ReadState { buffered: rest, ..before.state }),
        after_half == before_half,
        state_after == state,
{
    lemma_receives_as_run(
        before,
        max_size,
        after,
        state,
        state_after,
        before_half,
        after_half,
        step,
    );
    lemma_fragments_run(before.state.flags, code, masks, parts, rest, max_size);
}

/// The fragments of a message are put together: a WebSocket hands over one message, with the data
/// of all of them, and leaves what follows.
pub proof fn law_fragments_read<E: Extension>(
    socket: &mut WebSocket<E>,
    read_buffer: &mut BytesMut,
    step: ReadStep<<E as ExtensionDecoder>::Error>,
    code: DataCode,
    masks: Seq<Option<u32>>,
    parts: Seq<Seq<u8>>,
    rest: Seq<u8>,
)
    requires
        !(old(socket).state() is Closed),
        !(code is Continuation),
        old(socket).extended() is None,
        at_rest(old(socket).reading()),
        parts.len() > 0,
        masks.len() == parts.len(),
        forall|i: int|
            0 <= i < masks.len() ==> (#[trigger] masks[i] is Some <==> old(
                socket,
            ).framed_parts().flags.role),
        forall|i: int|
            0 <= i < parts.len() ==> (#[trigger] parts[i]).len() <= old(
                socket,
            ).framed_parts().max_message_size,
        old(socket).reading().buffered == fragments(code, masks, parts) + rest,
        call_ensures(WebSocket::<E>::read, (socket, read_buffer), step),
    ensures
        hands_over(
            step,
            OpCode::DataCode(code),
            joined(parts),
            contents(*old(read_buffer)),
            contents(*final(read_buffer)),
        ),
        final(socket).reading() == (ReadState { buffered: rest, ..old(socket).reading() }),
        final(socket).half() == old(socket).half(),
        final(socket).state() == old(socket).state(),
{
    lemma_fragments_read(
        old(socket).reception(*old(read_buffer)),
        old(socket).framed_parts().max_message_size,
        final(socket).reception(*final(read_buffer)),
        old(socket).state(),
        final(socket).state(),
        old(socket).half(),
        final(socket).half(),
        step,
        code,
        masks,
        parts,
        rest,
    );
}

/// A message that a sender writes in fragments is read whole by the receiver at the other end, as a
/// message of its type.
pub proof fn law_fragments_are_read<E: ExtensionEncoder, D: ExtensionDecoder>(
    sender: &mut Sender<E>,
    shared: &mut Shared,
    payload: &[u8],
    message_type: MessageType,
    size: usize,
    result: Result<(), Failure<E::Error>>,
    peer: &mut Receiver<D>,
    peer_shared: &mut Shared,
    read_buffer: &mut BytesMut,
    step: ReadStep<D::Error>,
    rest: Seq<u8>,
)
    requires
        !(old(shared)@.close_state is Closed),
        old(sender).encoder() is None,
        0 < size <= old(peer).limit(),
        call_ensures(
            Sender::<E>::write_fragmented,
            (sender, shared, payload, message_type, size),
            result,
        ),
        !(old(peer_shared)@.close_state is Closed),
        old(peer).wf(),
        old(peer).decoder() is None,
        at_rest(old(peer).reception(*old(read_buffer)).state),
        old(peer).end() != old(sender).end(),
        old(peer).reading_side().buffered() == final(shared)@.half.pending.skip(
            old(shared)@.half.pending.len() as int,
        ) + rest,
        call_ensures(Receiver::<D>::read, (peer, peer_shared, read_buffer), step),
    ensures
        result is Ok,
        hands_over(
            step,
            OpCode::DataCode(first_code(message_type)),
            payload@,
            contents(*old(read_buffer)),
            contents(*final(read_buffer)),
        ),
        final(peer).reading_side().buffered() == rest,
        final(peer_shared)@.half == old(peer_shared)@.half,
{
    let code = first_code(message_type);
    let before = old(shared)@.half.pending;
    let after = final(shared)@.half.pending;
    law_fragments_written(sender, shared, payload, message_type, size, result);
    let (masks, parts) = choose|masks: Seq<Option<u32>>, parts: Seq<Seq<u8>>|
        {
            &&& cut_up(payload@, size as nat, parts)
            &&& payload@.len() <= size ==> parts.len() == 1
            &&& masks.len() == parts.len()
            &&& forall|i: int|
                0 <= i < masks.len() ==> (#[trigger] masks[i] is None <==> old(sender).end() is Server)
            &&& after == before + #[trigger] fragments(code, masks, parts)
        };
    assert(after.skip(before.len() as int) =~= fragments(code, masks, parts));
    assert forall|i: int| 0 <= i < parts.len() implies (#[trigger] parts[i]).len() <= size by {
        if i == parts.len() - 1 {
            assert(parts[i] == parts.last());
        }
    }
    lemma_fragments_read(
        old(peer).reception(*old(read_buffer)),
        old(peer).limit(),
        final(peer).reception(*final(read_buffer)),
        old(peer_shared)@.close_state,
        final(peer_shared)@.close_state,
        old(peer_shared)@.half,
        final(peer_shared)@.half,
        step,
        code,
        masks,
        parts,
        rest,
    );
}

/// A ping that comes between the fragments of a message is handed over at once and answered. The
/// read after it goes on with the message, which loses nothing: it has the data of the fragments
/// before the ping and behind it.
pub proof fn law_ping_between_fragments<E: Extension>(
    socket: &mut WebSocket<E>,
    read_buffer: &mut BytesMut,
    step: ReadStep<<E as ExtensionDecoder>::Error>,
    socket_again: &mut WebSocket<E>,
    buffer_again: &mut BytesMut,
    step_again: ReadStep<<E as ExtensionDecoder>::Error>,
    code: DataCode,
    masks: Seq<Option<u32>>,
    parts: Seq<Seq<u8>>,
    mask: Option<u32>,
    ping: Seq<u8>,
    later_masks: Seq<Option<u32>>,
    later_parts: Seq<Seq<u8>>,
    rest: Seq<u8>,
)
    requires
        !(code is Continuation),
        !(old(socket).state() is Closed),
        old(socket).extended() is None,
        at_rest(old(socket).reading()),
        parts.len() > 0,
        masks.len() == parts.len(),
        later_parts.len() > 0,
        later_masks.len() == later_parts.len(),
        forall|i: int|
            0 <= i < masks.len() ==> (#[trigger] masks[i] is Some <==> old(
                socket,
            ).framed_parts().flags.role),
        forall|i: int|
            0 <= i < later_masks.len() ==> (#[trigger] later_masks[i] is Some <==> old(
                socket,
            ).framed_parts().flags.role),
        forall|i: int|
            0 <= i < parts.len() ==> (#[trigger] parts[i]).len() <= old(
                socket,
            ).framed_parts().max_message_size,
        forall|i: int|
            0 <= i < later_parts.len() ==> (#[trigger] later_parts[i]).len() <= old(
                socket,
            ).framed_parts().max_message_size,
        mask is Some <==> old(socket).framed_parts().flags.role,
        ping.len() <= 125,
        ping.len() <= old(socket).framed_parts().max_message_size,
        old(socket).reading().buffered == unfinished(code, masks, parts) + (frame_bytes(
            plain_header(OpCode::ControlCode(ControlCode::Ping), mask),
            ping,
        ) + (fragments(DataCode::Continuation, later_masks, later_parts) + rest)),
        call_ensures(WebSocket::<E>::read, (socket, read_buffer), step),
        *old(socket_again) == *final(socket),
        *old(buffer_again) == *final(read_buffer),
        call_ensures(WebSocket::<E>::read, (socket_again, buffer_again), step_again),
    ensures
        step matches ReadStep::Done { result: Ok(message), shutdown: false } && message@
            == MessageView::Ping(ping),
        contents(*final(read_buffer)) == contents(*old(read_buffer)) + joined(parts),
        sends(
            old(socket).half().pending,
            final(socket).half().pending,
            old(socket).framed_parts().flags.role,
            OpCode::ControlCode(ControlCode::Pong),
            ping,
        ),
        hands_over(
            step_again,
            OpCode::DataCode(code),
            joined(parts) + joined(later_parts),
            contents(*old(read_buffer)),
            contents(*final(buffer_again)),
        ),
        final(socket_again).half() == final(socket).half(),
        final(socket_again).reading() == (ReadState { buffered: rest, ..old(socket).reading() }),
{
    let max_size = old(socket).framed_parts().max_message_size;
    let flags = old(socket).reading().flags;
    let later = fragments(DataCode::Continuation, later_masks, later_parts) + rest;
    let data = contents(*old(read_buffer));
    assert(plain_header(OpCode::ControlCode(ControlCode::Ping), mask) == control_header(
        ControlCode::Ping,
        mask,
    ));
    lemma_ping_amid_fragments(flags, code, masks, parts, mask, ping, later, max_size);
    lemma_receives_as_run(
        old(socket).reception(*old(read_buffer)),
        max_size,
        final(socket).reception(*final(read_buffer)),
        old(socket).state(),
        final(socket).state(),
        old(socket).half(),
        final(socket).half(),
        step,
    );
    lemma_sends(
        old(socket).half().pending,
        final(socket).half().pending,
        flags.role,
        OpCode::ControlCode(ControlCode::Pong),
        ping,
    );
    lemma_fragments_run(
        flags_amid(flags, code, parts.len()),
        DataCode::Continuation,
        later_masks,
        later_parts,
        rest,
        max_size,
    );
    lemma_receives_as_run(
        old(socket_again).reception(*old(buffer_again)),
        max_size,
        final(socket_again).reception(*final(buffer_again)),
        old(socket_again).state(),
        final(socket_again).state(),
        old(socket_again).half(),
        final(socket_again).half(),
        step_again,
    );
    assert((data + joined(parts)) + joined(later_parts) =~= data + (joined(parts) + joined(
        later_parts,
    )));
}

} // verus!
