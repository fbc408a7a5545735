//! What reading from a connection gives.

use crate::buffer::{be16, contents};
use crate::errors::{close_fault, CloseCause};
use crate::framed::{
    accept_data, control_header, decode_step, fragment_header, fragments, frame_bytes, joined,
    lemma_control_between_fragments, lemma_decode_waits, lemma_fragments_run, lemma_read_resumes,
    read_run, CodecFlags, Decoded, FrameDecoder, ItemView, ProgressView, ReadState, Reception,
};
use crate::handshake::client::{upgraded, HandshakeResult, UpgradedClient};
use crate::laws::frames::{lemma_sends, plain_header, sends};
use crate::protocol::{ControlCode, DataCode, MessageView, OpCode, Role, WebSocketConfig};
use crate::ratchet_ext::{Extension, ExtensionDecoder, RsvBits};
use crate::session::{lemma_receives_as_run, receives, CloseState, ReadStep, WriteHalfView};
use crate::split::{Receiver, Shared};
use crate::ws::WebSocket;
use bytes::BytesMut;
use vstd::prelude::*;

verus! {

/// Whether a reader stands between two messages.
pub open spec fn at_rest(state: ReadState) -> bool {
    state.position is DecodingHeader && !state.flags.r_cont && !state.flags.cont_type
}

/// What a read comes to on a connection that is open, whatever was received.
///
/// A ping is answered with a pong that has its payload, and a pong settles the ping before it. A close
/// frame is answered with one that has its code. A read that fails is answered with a close frame too,
/// whatever it fails for. Nothing else is sent, and the state changes only once `close_sent` is told
/// about the close frame.
pub open spec fn answers_open<X>(
    is_server: bool,
    before: WriteHalfView,
    after: WriteHalfView,
    step: ReadStep<X>,
) -> bool {
    match step {
        ReadStep::Need(_) => after == before,
        ReadStep::Done { result, shutdown } => {
            &&& !shutdown
            &&& result matches Ok(message) && match message@ {
                MessageView::Text => after == before,
                MessageView::Binary => after == before,
                MessageView::Ping(payload) => {
                    &&& payload.len() <= 125
                    &&& after.pinged == before.pinged
                    &&& sends(
                        before.pending,
                        after.pending,
                        is_server,
                        OpCode::ControlCode(ControlCode::Pong),
                        payload,
                    )
                },
                MessageView::Pong(payload) => {
                    &&& payload.len() <= 125
                    &&& after.pinged.len() == 0
                    &&& after.pending == before.pending
                },
                MessageView::Close(_) => false,
            }
        },
        ReadStep::Closing { result } => {
            let code: int = match result {
                Ok(message) => match message@ {
                    MessageView::Close(Some(reason)) => reason.code.number() as int,
                    _ => 0,
                },
                Err(_) => 0,
            };
            &&& result matches Ok(message) ==> message@ is Close
            &&& after.pinged == before.pinged
            &&& sends(
                before.pending,
                after.pending,
                is_server,
                OpCode::ControlCode(ControlCode::Close),
                seq![(code / 256) as u8, (code % 256) as u8],
            )
        },
    }
}

/// What a read comes to on a connection on which a close frame has been sent.
///
/// Messages are still handed over and pings answered. A close frame, or a read that fails, closes the
/// connection: nothing is sent, and a server shuts the stream down.
pub open spec fn answers_closing<X>(
    is_server: bool,
    state_after: CloseState,
    before: WriteHalfView,
    after: WriteHalfView,
    step: ReadStep<X>,
) -> bool {
    match step {
        ReadStep::Done { result: Err(_), shutdown } => {
            &&& shutdown == is_server
            &&& state_after is Closed
            &&& after == before
        },
        ReadStep::Closing { result } => false,
        _ => state_after is Closing && answers_open(is_server, before, after, step),
    }
}

/// The payload of a ping or a pong that is read has at most 125 bytes.
proof fn lemma_short_control(state: ReadState, max_size: usize)
    requires
        state.position.ready(state.buffered),
    ensures
        match read_run(state, max_size).outcome {
            ProgressView::Item(ItemView::Ping(payload)) => payload.len() <= 125,
            ProgressView::Item(ItemView::Pong(payload)) => payload.len() <= 125,
            _ => true,
        },
    decreases state.buffered.len(),
{
    let step = decode_step(
        state.position,
        state.buffered,
        state.flags.role,
        state.flags.unknown_bits(),
        max_size,
    );
    if let Decoded::Frame(header, _) = step.outcome {
        if let OpCode::DataCode(code) = header.opcode {
            let (flags, accepted) = accept_data(state.flags, code, header.flags.fin);
            if accepted is More {
                lemma_short_control(
                    ReadState { flags, position: step.decoder, buffered: step.buffer },
                    max_size,
                );
            }
        }
    }
}

/// What a read of a connection that is not closed comes to.
proof fn lemma_read_answers<D: ExtensionDecoder>(
    before: Reception<D>,
    max_size: usize,
    after: Reception<D>,
    state: CloseState,
    state_after: CloseState,
    before_half: WriteHalfView,
    after_half: WriteHalfView,
    step: ReadStep<D::Error>,
)
    requires
        !(state is Closed),
        before.state.position.ready(before.state.buffered),
        receives(
            before,
            max_size,
            after,
            state,
            state_after,
            before_half,
            after_half,
            step,
        ),
    ensures
        state is NotClosed ==> state_after is NotClosed && answers_open(
            before.state.flags.role,
            before_half,
            after_half,
            step,
        ),
        state is Closing ==> answers_closing(
            before.state.flags.role,
            state_after,
            before_half,
            after_half,
            step,
        ),
{
    let is_server = before.state.flags.role;
    lemma_short_control(before.state, max_size);
    lemma_receives_as_run(
        before,
        max_size,
        after,
        state,
        state_after,
        before_half,
        after_half,
        step,
    );
    match step {
        ReadStep::Done { result: Ok(message), .. } => {
            if let MessageView::Ping(payload) = message@ {
                lemma_sends(
                    before_half.pending,
                    after_half.pending,
                    is_server,
                    OpCode::ControlCode(ControlCode::Pong),
                    payload,
                );
            }
        },
        ReadStep::Closing { result } => {
            let code: u16 = match result {
                Ok(message) => match message@ {
                    MessageView::Close(Some(reason)) => reason.code.number(),
                    _ => 0,
                },
                Err(_) => 0,
            };
            lemma_sends(
                before_half.pending,
                after_half.pending,
                is_server,
                OpCode::ControlCode(ControlCode::Close),
                be16(code),
            );
        },
        _ => {},
    }
}

/// Every read of an open WebSocket answers the peer as it should, with an extension or without.
pub proof fn law_read_answers<E: Extension>(
    socket: &mut WebSocket<E>,
    read_buffer: &mut BytesMut,
    step: ReadStep<<E as ExtensionDecoder>::Error>,
)
    requires
        old(socket).wf(),
        call_ensures(WebSocket::<E>::read, (socket, read_buffer), step),
    ensures
        old(socket).state() is NotClosed ==> final(socket).state() is NotClosed && answers_open(
            old(socket).framed_parts().flags.role,
            old(socket).half(),
            final(socket).half(),
            step,
        ),
        old(socket).state() is Closing ==> answers_closing(
            old(socket).framed_parts().flags.role,
            final(socket).state(),
            old(socket).half(),
            final(socket).half(),
            step,
        ),
        old(socket).state() is Closed ==> {
            &&& step matches ReadStep::Done { result: Err(e), shutdown: false } && e.says(
                close_fault(CloseCause::Error),
            )
            &&& *final(socket) == *old(socket)
            &&& contents(*final(read_buffer)) == contents(*old(read_buffer))
        },
{
    if !(old(socket).state() is Closed) {
        lemma_read_answers(
            old(socket).reception(*old(read_buffer)),
            old(socket).framed_parts().max_message_size,
            final(socket).reception(*final(read_buffer)),
            old(socket).state(),
            final(socket).state(),
            old(socket).half(),
            final(socket).half(),
            step,
        );
    }
}

/// Every read of a receiver answers the peer as it should, with an extension or without.
pub proof fn law_receiver_read_answers<D: ExtensionDecoder>(
    receiver: &mut Receiver<D>,
    shared: &mut Shared,
    read_buffer: &mut BytesMut,
    step: ReadStep<D::Error>,
)
    requires
        old(receiver).wf(),
        call_ensures(Receiver::<D>::read, (receiver, shared, read_buffer), step),
    ensures
        old(shared)@.close_state is NotClosed ==> final(shared)@.close_state is NotClosed
            && answers_open(
            old(receiver).end() is Server,
            old(shared)@.half,
            final(shared)@.half,
            step,
        ),
        old(shared)@.close_state is Closing ==> answers_closing(
            old(receiver).end() is Server,
            final(shared)@.close_state,
            old(shared)@.half,
            final(shared)@.half,
            step,
        ),
        old(shared)@.close_state is Closed ==> {
            &&& step matches ReadStep::Done { result: Err(e), shutdown: false } && e.says(
                close_fault(CloseCause::Error),
            )
            &&& *final(receiver) == *old(receiver)
            &&& final(shared)@ == old(shared)@
            &&& contents(*final(read_buffer)) == contents(*old(read_buffer))
        },
        final(shared)@.id == old(shared)@.id,
        final(receiver).end() == old(receiver).end(),
{
    if !(old(shared)@.close_state is Closed) {
        lemma_read_answers(
            old(receiver).reception(*old(read_buffer)),
            old(receiver).limit(),
            final(receiver).reception(*final(read_buffer)),
            old(shared)@.close_state,
            final(shared)@.close_state,
            old(shared)@.half,
            final(shared)@.half,
            step,
        );
    }
}

/// Whether a step hands over what one frame carries: data behind the data before it, or the payload
/// of a ping or a pong, which leaves the data alone.
pub open spec fn hands_over<X>(
    step: ReadStep<X>,
    opcode: OpCode,
    payload: Seq<u8>,
    data: Seq<u8>,
    data_after: Seq<u8>,
) -> bool {
    step matches ReadStep::Done { result: Ok(message), shutdown: false } && match opcode {
        OpCode::DataCode(code) => {
            &&& message@ == if code is Text {
                MessageView::Text
            } else {
                MessageView::Binary
            }
            &&& data_after == data + payload
        },
        OpCode::ControlCode(ControlCode::Ping) => message@ == MessageView::Ping(payload)
            && data_after == data,
        OpCode::ControlCode(ControlCode::Pong) => message@ == MessageView::Pong(payload)
            && data_after == data,
        OpCode::ControlCode(ControlCode::Close) => false,
    }
}

/// Whether a frame can be handed over as it comes: a message that is whole, or a ping or a pong that is
/// not too long, with a mask if and only if the reader is a server.
pub open spec fn readable(
    state: ReadState,
    max_size: usize,
    opcode: OpCode,
    mask: Option<u32>,
    payload: Seq<u8>,
) -> bool {
    &&& state.position is DecodingHeader
    &&& mask is Some <==> state.flags.role
    &&& payload.len() <= max_size
    &&& match opcode {
        OpCode::DataCode(code) => !(code is Continuation) && at_rest(state),
        OpCode::ControlCode(code) => !(code is Close) && payload.len() <= 125,
    }
}

/// What reading one frame comes to.
pub(crate) proof fn lemma_plain_frame_run(
    state: ReadState,
    max_size: usize,
    opcode: OpCode,
    mask: Option<u32>,
    payload: Seq<u8>,
    rest: Seq<u8>,
)
    requires
        readable(state, max_size, opcode, mask, payload),
        state.buffered == frame_bytes(plain_header(opcode, mask), payload) + rest,
    ensures
        ({
            let run = read_run(state, max_size);
            &&& run.state == (ReadState { buffered: rest, ..state })
            &&& match opcode {
                OpCode::DataCode(code) => run.data == payload && run.outcome == ProgressView::Item(
                    if code is Text {
                        ItemView::Text
                    } else {
                        ItemView::Binary
                    },
                ),
                OpCode::ControlCode(code) => run.data.len() == 0 && run.outcome
                    == ProgressView::Item(
                    if code is Ping {
                        ItemView::Ping(payload)
                    } else {
                        ItemView::Pong(payload)
                    },
                ),
            }
        }),
{
    let flags = state.flags;
    match opcode {
        OpCode::DataCode(code) => {
            assert(plain_header(opcode, mask) == fragment_header(code, mask, true));
            let parts = seq![payload];
            let masks = seq![mask];
            assert(parts.skip(1) =~= Seq::empty());
            assert(fragments(DataCode::Continuation, masks.skip(1), parts.skip(1)) =~= Seq::<
                u8,
            >::empty());
            assert(fragments(code, masks, parts) =~= frame_bytes(
                plain_header(opcode, mask),
                payload,
            ));
            assert(joined(parts.skip(1)) =~= Seq::<u8>::empty());
            assert(joined(parts) =~= payload);
            lemma_fragments_run(flags, code, masks, parts, rest, max_size);
        },
        OpCode::ControlCode(code) => {
            assert(plain_header(opcode, mask) == control_header(code, mask));
            lemma_control_between_fragments(flags, code, mask, payload, rest, max_size);
        },
    }
}

/// What a read comes to if one frame is next.
proof fn lemma_frame_read<D: ExtensionDecoder>(
    before: Reception<D>,
    max_size: usize,
    after: Reception<D>,
    state: CloseState,
    state_after: CloseState,
    before_half: WriteHalfView,
    after_half: WriteHalfView,
    step: ReadStep<D::Error>,
    opcode: OpCode,
    mask: Option<u32>,
    payload: Seq<u8>,
    rest: Seq<u8>,
)
    requires
        before.extension is None,
        readable(before.state, max_size, opcode, mask, payload),
        before.state.buffered == frame_bytes(plain_header(opcode, mask), payload) + rest,
        receives(
            before,
            max_size,
            after,
            state,
            state_after,
            before_half,
            after_half,
            step,
        ),
    ensures
        hands_over(step, opcode, payload, before.data, after.data),
        after.state == (ReadState { buffered: rest, ..before.state }),
        state_after == state,
{
    lemma_receives_as_run(
        before,
        max_size,
        after,
        state,
        state_after,
        before_half,
        after_half,
        step,
    );
    lemma_plain_frame_run(before.state, max_size, opcode, mask, payload, rest);
    assert(before.data + Seq::<u8>::empty() =~= before.data);
    assert(opcode is ControlCode ==> read_run(before.state, max_size).data =~= Seq::empty());
}

/// A frame that is next is handed over whole and as what it is, and what follows it is left: a text
/// or a binary message between two messages, and a ping or a pong at any time.
pub proof fn law_frame_read<E: Extension>(
    socket: &mut WebSocket<E>,
    read_buffer: &mut BytesMut,
    step: ReadStep<<E as ExtensionDecoder>::Error>,
    opcode: OpCode,
    mask: Option<u32>,
    payload: Seq<u8>,
    rest: Seq<u8>,
)
    requires
        !(old(socket).state() is Closed),
        old(socket).extended() is None,
        readable(
            old(socket).reading(),
            old(socket).framed_parts().max_message_size,
            opcode,
            mask,
            payload,
        ),
        old(socket).reading().buffered == frame_bytes(plain_header(opcode, mask), payload) + rest,
        call_ensures(WebSocket::<E>::read, (socket, read_buffer), step),
    ensures
        hands_over(
            step,
            opcode,
            payload,
            contents(*old(read_buffer)),
            contents(*final(read_buffer)),
        ),
        final(socket).reading() == (ReadState { buffered: rest, ..old(socket).reading() }),
        final(socket).state() == old(socket).state(),
        final(socket).extended() is None,
{
    let before = old(socket).reception(*old(read_buffer));
    let after = final(socket).reception(*final(read_buffer));
    let max_size = old(socket).framed_parts().max_message_size;
    lemma_frame_read(
        before,
        max_size,
        after,
        old(socket).state(),
        final(socket).state(),
        old(socket).half(),
        final(socket).half(),
        step,
        opcode,
        mask,
        payload,
        rest,
    );
    lemma_receives_as_run(
        before,
        max_size,
        after,
        old(socket).state(),
        final(socket).state(),
        old(socket).half(),
        final(socket).half(),
        step,
    );
}

/// A receiver hands a frame over as a WebSocket does.
pub proof fn law_receiver_frame_read<D: ExtensionDecoder>(
    receiver: &mut Receiver<D>,
    shared: &mut Shared,
    read_buffer: &mut BytesMut,
    step: ReadStep<D::Error>,
    opcode: OpCode,
    mask: Option<u32>,
    payload: Seq<u8>,
    rest: Seq<u8>,
)
    requires
        !(old(shared)@.close_state is Closed),
        old(receiver).decoder() is None,
        readable(
            old(receiver).reception(*old(read_buffer)).state,
            old(receiver).limit(),
            opcode,
            mask,
            payload,
        ),
        old(receiver).reading_side().buffered() == frame_bytes(plain_header(opcode, mask), payload)
            + rest,
        call_ensures(Receiver::<D>::read, (receiver, shared, read_buffer), step),
    ensures
        hands_over(
            step,
            opcode,
            payload,
            contents(*old(read_buffer)),
            contents(*final(read_buffer)),
        ),
        final(receiver).codec() == old(receiver).codec(),
        final(receiver).reading_side().position() == old(receiver).reading_side().position(),
        final(receiver).reading_side().buffered() == rest,
        final(shared)@.close_state == old(shared)@.close_state,
{
    lemma_frame_read(
        old(receiver).reception(*old(read_buffer)),
        old(receiver).limit(),
        final(receiver).reception(*final(read_buffer)),
        old(shared)@.close_state,
        final(shared)@.close_state,
        old(shared)@.half,
        final(shared)@.half,
        step,
        opcode,
        mask,
        payload,
        rest,
    );
}

/// The WebSocket of an upgraded stream has received the bytes in the buffer that it is given, in
/// that order and nothing else: it reads what a reader with these bytes reads. It has the limit,
/// the role and the extension that it is given, nothing to send, and is open.
pub proof fn law_upgraded_reads_buffer<E: Extension>(
    config: WebSocketConfig,
    extension: Option<E>,
    read_buffer: BytesMut,
    role: Role,
    socket: WebSocket<E>,
)
    requires
        call_ensures(
            WebSocket::<E>::from_upgraded,
            (config, extension, read_buffer, role),
            socket,
        ),
    ensures
        socket.wf(),
        at_rest(socket.reading()),
        socket.reading().buffered == contents(read_buffer),
        socket.reading().flags.role <==> role is Server,
        forall|max_size: usize| #[trigger]
            read_run(socket.reading(), max_size) == read_run(
                ReadState {
                    flags: socket.reading().flags,
                    position: FrameDecoder::DecodingHeader,
                    buffered: contents(read_buffer),
                },
                max_size,
            ),
        exists|bits: RsvBits|
            {
                &&& #[trigger] extension.has_bits(bits)
                &&& socket.reading().flags.rsv1 == bits.rsv1
                &&& socket.reading().flags.rsv2 == bits.rsv2
                &&& socket.reading().flags.rsv3 == bits.rsv3
            },
        socket.framed_parts().max_message_size == config.max_message_size,
        socket.extended() == extension,
        socket.half().pending.len() == 0,
        socket.half().pinged.len() == 0,
        socket.state() is NotClosed,
{
    let bits = choose|bits: RsvBits|
        socket.framed_parts().flags == #[trigger] CodecFlags::opened(role, bits)
            && extension.has_bits(bits);
    assert(extension.has_bits(bits));
}

/// The first frame behind the handshake is the first that is read, though it was received together with
/// the response: the first read hands it over whole and leaves what follows it.
pub proof fn law_first_frame_read<E: Extension>(
    config: WebSocketConfig,
    read_buffer: BytesMut,
    role: Role,
    socket: &mut WebSocket<E>,
    into: &mut BytesMut,
    step: ReadStep<<E as ExtensionDecoder>::Error>,
    opcode: OpCode,
    mask: Option<u32>,
    payload: Seq<u8>,
    rest: Seq<u8>,
)
    requires
        call_ensures(
            WebSocket::<E>::from_upgraded,
            (config, None, read_buffer, role),
            *old(socket),
        ),
        contents(read_buffer) == frame_bytes(plain_header(opcode, mask), payload) + rest,
        mask is Some <==> role is Server,
        payload.len() <= config.max_message_size,
        match opcode {
            OpCode::DataCode(code) => !(code is Continuation),
            OpCode::ControlCode(code) => !(code is Close) && payload.len() <= 125,
        },
        call_ensures(WebSocket::<E>::read, (socket, into), step),
    ensures
        hands_over(step, opcode, payload, contents(*old(into)), contents(*final(into))),
        final(socket).reading().buffered == rest,
{
    law_upgraded_reads_buffer(config, None, read_buffer, role, *old(socket));
    law_frame_read(socket, into, step, opcode, mask, payload, rest);
}

/// The same holds of the WebSocket of a client: its first read hands over the first frame that the
/// server has sent, though it came behind the response.
pub proof fn law_client_first_frame_read<E: Extension>(
    config: WebSocketConfig,
    handshake: HandshakeResult<E>,
    read_buffer: BytesMut,
    client: UpgradedClient<E>,
    socket: &mut WebSocket<E>,
    into: &mut BytesMut,
    step: ReadStep<<E as ExtensionDecoder>::Error>,
    opcode: OpCode,
    payload: Seq<u8>,
    rest: Seq<u8>,
)
    requires
        handshake.extension is None,
        call_ensures(upgraded::<E>, (config, handshake, read_buffer), client),
        contents(read_buffer) == frame_bytes(plain_header(opcode, None), payload) + rest,
        payload.len() <= config.max_message_size,
        match opcode {
            OpCode::DataCode(code) => !(code is Continuation),
            OpCode::ControlCode(code) => !(code is Close) && payload.len() <= 125,
        },
        *old(socket) == client.websocket,
        call_ensures(WebSocket::<E>::read, (socket, into), step),
    ensures
        hands_over(step, opcode, payload, contents(*old(into)), contents(*final(into))),
        final(socket).reading().buffered == rest,
{
    law_frame_read(socket, into, step, opcode, None, payload, rest);
}

/// The WebSocket of a client has the subprotocol and the extension that the handshake has come to, and
/// has received what came behind the response.
pub proof fn law_client_upgraded<E: Extension>(
    config: WebSocketConfig,
    handshake: HandshakeResult<E>,
    read_buffer: BytesMut,
    client: UpgradedClient<E>,
)
    requires
        call_ensures(upgraded::<E>, (config, handshake, read_buffer), client),
    ensures
        client.subprotocol == handshake.subprotocol,
        client.websocket.extended() == handshake.extension,
        client.websocket.wf(),
        client.websocket.state() is NotClosed,
        client.websocket.half().pending.len() == 0,
        !client.websocket.reading().flags.role,
        at_rest(client.websocket.reading()),
        client.websocket.framed_parts().max_message_size == config.max_message_size,
        forall|max_size: usize| #[trigger]
            read_run(client.websocket.reading(), max_size) == read_run(
                ReadState {
                    flags: client.websocket.reading().flags,
                    position: FrameDecoder::DecodingHeader,
                    buffered: contents(read_buffer),
                },
                max_size,
            ),
        exists|bits: RsvBits|
            {
                &&& #[trigger] handshake.extension.has_bits(bits)
                &&& client.websocket.reading().flags.rsv1 == bits.rsv1
                &&& client.websocket.reading().flags.rsv2 == bits.rsv2
                &&& client.websocket.reading().flags.rsv3 == bits.rsv3
            },
{
    let bits = choose|bits: RsvBits|
        client.websocket.framed_parts().flags == #[trigger] CodecFlags::opened(Role::Client, bits)
            && handshake.extension.has_bits(bits);
    assert(handshake.extension.has_bits(bits));
}

/// What reading the first piece of a frame comes to.
proof fn lemma_first_piece_run(
    state: ReadState,
    max_size: usize,
    opcode: OpCode,
    mask: Option<u32>,
    payload: Seq<u8>,
    count: int,
)
    requires
        readable(state, max_size, opcode, mask, payload),
        0 <= count < frame_bytes(plain_header(opcode, mask), payload).len(),
        state.buffered == frame_bytes(plain_header(opcode, mask), payload).take(count),
    ensures
        ({
            let run = read_run(state, max_size);
            &&& run.outcome matches ProgressView::Need(missing) && 0 < missing <= frame_bytes(
                plain_header(opcode, mask),
                payload,
            ).len() - count
            &&& run.data.len() == 0
        }),
{
    lemma_decode_waits(
        plain_header(opcode, mask),
        payload,
        count,
        state.flags.unknown_bits(),
        max_size,
    );
}

/// What reading the second piece of a frame comes to.
proof fn lemma_second_piece_run(
    state: ReadState,
    max_size: usize,
    opcode: OpCode,
    mask: Option<u32>,
    payload: Seq<u8>,
    count: int,
    more: Seq<u8>,
    rest: Seq<u8>,
)
    requires
        readable(state, max_size, opcode, mask, payload),
        0 <= count < frame_bytes(plain_header(opcode, mask), payload).len(),
        state.buffered == frame_bytes(plain_header(opcode, mask), payload).take(count),
        more == frame_bytes(plain_header(opcode, mask), payload).skip(count) + rest,
    ensures
        ({
            let first = read_run(state, max_size).state;
            read_run(ReadState { buffered: first.buffered + more, ..first }, max_size) == read_run(
                ReadState {
                    buffered: frame_bytes(plain_header(opcode, mask), payload) + rest,
                    ..state
                },
                max_size,
            )
        }),
{
    let run = read_run(state, max_size);
    let whole = ReadState { buffered: state.buffered + more, ..state };
    lemma_first_piece_run(state, max_size, opcode, mask, payload, count);
    lemma_read_resumes(state, more, max_size);
    assert(whole.buffered =~= frame_bytes(plain_header(opcode, mask), payload) + rest);
    let second = read_run(
        ReadState { buffered: run.state.buffered + more, ..run.state },
        max_size,
    );
    assert(run.data + second.data =~= second.data);
}

/// A frame that arrives in two pieces is handed over once the second is there, as if it had arrived
/// at once. Before that nothing is handed over and nothing is sent: the caller is told to supply
/// some of the bytes that are missing, and not more than that.
pub proof fn law_frame_in_pieces<E: Extension>(
    socket: &mut WebSocket<E>,
    read_buffer: &mut BytesMut,
    step: ReadStep<<E as ExtensionDecoder>::Error>,
    supplied: &mut WebSocket<E>,
    more: &[u8],
    done: (),
    again: &mut WebSocket<E>,
    buffer_again: &mut BytesMut,
    step_again: ReadStep<<E as ExtensionDecoder>::Error>,
    opcode: OpCode,
    mask: Option<u32>,
    payload: Seq<u8>,
    count: int,
    rest: Seq<u8>,
)
    requires
        !(old(socket).state() is Closed),
        old(socket).extended() is None,
        readable(
            old(socket).reading(),
            old(socket).framed_parts().max_message_size,
            opcode,
            mask,
            payload,
        ),
        0 <= count < frame_bytes(plain_header(opcode, mask), payload).len(),
        old(socket).reading().buffered == frame_bytes(plain_header(opcode, mask), payload).take(
            count,
        ),
        call_ensures(WebSocket::<E>::read, (socket, read_buffer), step),
        *old(supplied) == *final(socket),
        more@ == frame_bytes(plain_header(opcode, mask), payload).skip(count) + rest,
        call_ensures(WebSocket::<E>::supply, (supplied, more), done),
        *old(again) == *final(supplied),
        *old(buffer_again) == *final(read_buffer),
        call_ensures(WebSocket::<E>::read, (again, buffer_again), step_again),
    ensures
        step matches ReadStep::Need(missing) && 0 < missing <= frame_bytes(
            plain_header(opcode, mask),
            payload,
        ).len() - count,
        contents(*final(read_buffer)) == contents(*old(read_buffer)),
        final(socket).half() == old(socket).half(),
        final(socket).state() == old(socket).state(),
        hands_over(
            step_again,
            opcode,
            payload,
            contents(*old(read_buffer)),
            contents(*final(buffer_again)),
        ),
        final(again).reading() == (ReadState { buffered: rest, ..old(socket).reading() }),
{
    let max_size = old(socket).framed_parts().max_message_size;
    let state = old(socket).reading();
    let data = contents(*old(read_buffer));
    let frame = frame_bytes(plain_header(opcode, mask), payload);
    let whole = ReadState { buffered: frame + rest, ..state };
    lemma_first_piece_run(state, max_size, opcode, mask, payload, count);
    lemma_second_piece_run(state, max_size, opcode, mask, payload, count, more@, rest);
    lemma_plain_frame_run(whole, max_size, opcode, mask, payload, rest);
    lemma_receives_as_run(
        old(socket).reception(*old(read_buffer)),
        max_size,
        final(socket).reception(*final(read_buffer)),
        old(socket).state(),
        final(socket).state(),
        old(socket).half(),
        final(socket).half(),
        step,
    );
    assert(data + read_run(state, max_size).data =~= data);
    lemma_receives_as_run(
        old(again).reception(*old(buffer_again)),
        max_size,
        final(again).reception(*final(buffer_again)),
        old(again).state(),
        final(again).state(),
        old(again).half(),
        final(again).half(),
        step_again,
    );
    if opcode is ControlCode {
        assert(data + read_run(whole, max_size).data =~= data);
    }
}

/// Bytes that a WebSocket is supplied with come behind those that it has received, and nothing else
/// changes.
pub proof fn law_supplied<E: Extension>(socket: &mut WebSocket<E>, bytes: &[u8], done: ())
    requires
        call_ensures(WebSocket::<E>::supply, (socket, bytes), done),
    ensures
        final(socket).reading() == (ReadState {
            buffered: old(socket).reading().buffered + bytes@,
            ..old(socket).reading()
        }),
        final(socket).half() == old(socket).half(),
        final(socket).state() == old(socket).state(),
        final(socket).extended() == old(socket).extended(),
{
}

/// Bytes that a receiver is supplied with come behind those that it has received, and nothing else
/// changes.
pub proof fn law_receiver_supplied<D: ExtensionDecoder>(
    receiver: &mut Receiver<D>,
    bytes: &[u8],
    done: (),
)
    requires
        call_ensures(Receiver::<D>::supply, (receiver, bytes), done),
    ensures
        final(receiver).reading_side().buffered() == old(receiver).reading_side().buffered()
            + bytes@,
        final(receiver).reading_side().position() == old(receiver).reading_side().position(),
        final(receiver).codec() == old(receiver).codec(),
        final(receiver).decoder() == old(receiver).decoder(),
        final(receiver).limit() == old(receiver).limit(),
        final(receiver).end() == old(receiver).end(),
        final(receiver).connection() == old(receiver).connection(),
{
}

/// The bytes that are to be sent are those that have been added and not been sent.
pub proof fn law_sent<E: Extension>(
    socket: &mut WebSocket<E>,
    before: &WebSocket<E>,
    unsent: &[u8],
    done: (),
)
    requires
        *before == *old(socket),
        call_ensures(WebSocket::<E>::unsent, (before,), unsent),
        call_ensures(WebSocket::<E>::sent, (socket,), done),
    ensures
        unsent@ == old(socket).half().pending,
        final(socket).half().pending.len() == 0,
        final(socket).half().pinged == old(socket).half().pinged,
        final(socket).reading() == old(socket).reading(),
        final(socket).state() == old(socket).state(),
        final(socket).extended() == old(socket).extended(),
{
}

/// The same holds of what a sender and a receiver share.
pub proof fn law_shared_sent(shared: &mut Shared, before: &Shared, unsent: &[u8], done: ())
    requires
        *before == *old(shared),
        call_ensures(Shared::unsent, (before,), unsent),
        call_ensures(Shared::sent, (shared,), done),
    ensures
        unsent@ == old(shared)@.half.pending,
        final(shared)@.half.pending.len() == 0,
        final(shared)@.half.pinged == old(shared)@.half.pinged,
        final(shared)@.close_state == old(shared)@.close_state,
        final(shared)@.id == old(shared)@.id,
{
}

/// A WebSocket tells its role, whether it is open and whether it is closed.
pub proof fn law_socket_tells<E: Extension>(
    socket: &WebSocket<E>,
    role: Role,
    open: bool,
    closed: bool,
)
    requires
        call_ensures(WebSocket::<E>::role, (socket,), role),
        call_ensures(WebSocket::<E>::is_open, (socket,), open),
        call_ensures(WebSocket::<E>::is_closed, (socket,), closed),
    ensures
        role is Server <==> socket.reading().flags.role,
        role is Client <==> !socket.reading().flags.role,
        open <==> socket.state() is NotClosed,
        closed <==> socket.state() is Closed,
{
}

} // verus!
