//! Laws of reading and writing.

use crate::framed::read::{lemma_after_data, lemma_run_continues};
use crate::framed::{
    accept_control, accept_data, after_data, close_payload, closing, decode_step, frame_bytes,
    payload_step, read_run, unmasked, AcceptedView, CodecFlags, DecodeStep, Decoded, FrameDecoder,
    ItemView, ProgressView, ReadErrorView, ReadRun, ReadState, CONTROL_MAX_SIZE,
};
use crate::protocol::{
    bit_high, header_bytes, header_of, lemma_close_code_round_trip, lemma_header_extended,
    lemma_header_prefix, lemma_header_round_trip, lemma_masking_twice, CloseReasonView, ControlCode,
    DataCode, FrameHeader, HeaderFlags, HeaderRead, OpCode,
};
use vstd::prelude::*;
use vstd::utf8::{encode_utf8, encode_utf8_decode_utf8, encode_utf8_valid_utf8};

verus! {

/// Whether the reserved bits of a header are among those that have been negotiated.
pub open spec fn negotiated(header: FrameHeader, rsv_bits: u8) -> bool {
    &&& !(header.flags.rsv_1 && bit_high(rsv_bits, 64))
    &&& !(header.flags.rsv_2 && bit_high(rsv_bits, 32))
    &&& !(header.flags.rsv_3 && bit_high(rsv_bits, 16))
}

/// A frame that was written is read back with its payload, and what follows it is left: by a
/// server if the frame is masked and by a client if it is not.
pub proof fn lemma_frame_round_trip(
    header: FrameHeader,
    payload: Seq<u8>,
    rest: Seq<u8>,
    rsv_bits: u8,
    max_size: usize,
)
    requires
        header.opcode is ControlCode ==> header.flags.fin,
        negotiated(header, rsv_bits),
        payload.len() <= max_size,
    ensures
        ({
            let step = decode_step(
                FrameDecoder::DecodingHeader,
                frame_bytes(header, payload) + rest,
                header.mask is Some,
                rsv_bits,
                max_size,
            );
            &&& step.decoder is DecodingHeader
            &&& step.buffer == rest
            &&& step.outcome == Decoded::Frame(header, payload)
        }),
{
    let head = header_bytes(header, payload.len());
    let body = unmasked(header.mask, payload);
    assert(frame_bytes(header, payload) + rest =~= head + (body + rest));
    lemma_header_round_trip(header, payload.len(), body + rest, rsv_bits, max_size);
    lemma_header_length(header, payload.len());
    lemma_payload_step(header, head, payload, rest);
}

/// A header is short.
proof fn lemma_header_length(header: FrameHeader, length: nat)
    ensures
        2 <= header_bytes(header, length).len() <= 14,
{
}

/// The payload that follows a header is taken whole and is no longer masked.
proof fn lemma_payload_step(header: FrameHeader, head: Seq<u8>, payload: Seq<u8>, rest: Seq<u8>)
    requires
        head.len() <= 14,
        payload.len() <= usize::MAX,
    ensures
        ({
            let step = payload_step(
                header,
                head.len() as usize,
                payload.len() as usize,
                head + (unmasked(header.mask, payload) + rest),
            );
            &&& step.decoder is DecodingHeader
            &&& step.buffer == rest
            &&& step.outcome == Decoded::Frame(header, payload)
        }),
{
    let body = unmasked(header.mask, payload);
    let buffer = head + (body + rest);
    assert(buffer.skip(head.len() + payload.len() as int) =~= rest);
    assert(buffer.subrange(head.len() as int, (head.len() + payload.len()) as int) =~= body);
    if header.mask is Some {
        lemma_masking_twice(header.mask->0, payload);
    }
}

/// A reader that has a part of a frame is told to wait for some of the missing bytes, and never
/// for more than the frame takes: it does not wait for bytes that the peer may never send.
pub proof fn lemma_decode_waits(
    header: FrameHeader,
    payload: Seq<u8>,
    count: int,
    rsv_bits: u8,
    max_size: usize,
)
    requires
        header.opcode is ControlCode ==> header.flags.fin,
        negotiated(header, rsv_bits),
        payload.len() <= max_size,
        0 <= count < frame_bytes(header, payload).len(),
    ensures
        decode_step(
            FrameDecoder::DecodingHeader,
            frame_bytes(header, payload).take(count),
            header.mask is Some,
            rsv_bits,
            max_size,
        ).outcome matches Decoded::Wait(missing) && 0 < missing <= frame_bytes(
            header,
            payload,
        ).len() - count,
{
    let head = header_bytes(header, payload.len());
    let body = unmasked(header.mask, payload);
    lemma_header_round_trip(header, payload.len(), body, rsv_bits, max_size);
    lemma_header_length(header, payload.len());
    lemma_header_prefix(head + body, count, header.mask is Some, rsv_bits, max_size);
}

/// A message in fragments: each part in a frame of its own, all but the last of them not final.
pub open spec fn fragments(code: DataCode, masks: Seq<Option<u32>>, parts: Seq<Seq<u8>>) -> Seq<u8>
    decreases parts.len(),
{
    if parts.len() == 0 {
        Seq::empty()
    } else {
        frame_bytes(fragment_header(code, masks[0], parts.len() == 1), parts[0]) + fragments(
            DataCode::Continuation,
            masks.skip(1),
            parts.skip(1),
        )
    }
}

/// The header of a fragment.
pub open spec fn fragment_header(code: DataCode, mask: Option<u32>, last: bool) -> FrameHeader {
    FrameHeader {
        opcode: OpCode::DataCode(code),
        flags: HeaderFlags { fin: last, rsv_1: false, rsv_2: false, rsv_3: false },
        mask,
    }
}

/// The parts of a message, put together.
pub open spec fn joined(parts: Seq<Seq<u8>>) -> Seq<u8>
    decreases parts.len(),
{
    if parts.len() == 0 {
        Seq::empty()
    } else {
        parts[0] + joined(parts.skip(1))
    }
}

/// What one frame at the front of the received bytes leads to.
proof fn lemma_run_of_frame(state: ReadState, header: FrameHeader, payload: Seq<u8>, rest: Seq<u8>, max_size: usize)
    requires
        header.opcode is ControlCode ==> header.flags.fin,
        negotiated(header, state.flags.unknown_bits()),
        header.mask is Some <==> state.flags.role,
        payload.len() <= max_size,
        state.position is DecodingHeader,
        state.buffered == frame_bytes(header, payload) + rest,
    ensures
        ({
            let at = |flags: CodecFlags|
                ReadState { flags, position: FrameDecoder::DecodingHeader, buffered: rest };
            let run = read_run(state, max_size);
            match header.opcode {
                OpCode::ControlCode(code) => run == (ReadRun {
                    state: at(state.flags),
                    data: Seq::empty(),
                    outcome: match accept_control(code, payload) {
                        Ok(item) => ProgressView::Item(item),
                        Err(e) => ProgressView::Fail(e),
                    },
                }),
                OpCode::DataCode(code) => {
                    let (flags, accepted) = accept_data(state.flags, code, header.flags.fin);
                    match accepted {
                        AcceptedView::Item(item) => run == (ReadRun {
                            state: at(flags),
                            data: payload,
                            outcome: ProgressView::Item(item),
                        }),
                        AcceptedView::Fail(e) => run == (ReadRun {
                            state: at(flags),
                            data: payload,
                            outcome: ProgressView::Fail(e),
                        }),
                        AcceptedView::More => run == after_data(
                            payload,
                            read_run(at(flags), max_size),
                        ),
                    }
                },
            }
        }),
{
    lemma_frame_round_trip(header, payload, rest, state.flags.unknown_bits(), max_size);
    lemma_header_length(header, payload.len());
    assert(rest.len() < state.buffered.len());
}

/// The remaining fragments of a message complete it: they are read on where the message was left, and
/// all of them if it was not started.
pub proof fn lemma_fragments_run(
    flags: CodecFlags,
    code: DataCode,
    masks: Seq<Option<u32>>,
    parts: Seq<Seq<u8>>,
    rest: Seq<u8>,
    max_size: usize,
)
    requires
        parts.len() > 0,
        masks.len() == parts.len(),
        forall|i: int| 0 <= i < masks.len() ==> (#[trigger] masks[i] is Some <==> flags.role),
        forall|i: int| 0 <= i < parts.len() ==> (#[trigger] parts[i]).len() <= max_size,
        flags.r_cont <==> code is Continuation,
        flags.cont_type ==> flags.r_cont,
    ensures
        read_run(
            ReadState {
                flags,
                position: FrameDecoder::DecodingHeader,
                buffered: fragments(code, masks, parts) + rest,
            },
            max_size,
        ) == (ReadRun {
            state: ReadState {
                flags: CodecFlags { r_cont: false, cont_type: false, ..flags },
                position: FrameDecoder::DecodingHeader,
                buffered: rest,
            },
            data: joined(parts),
            outcome: ProgressView::Item(
                if code is Text || flags.cont_type {
                    ItemView::Text
                } else {
                    ItemView::Binary
                },
            ),
        }),
    decreases parts.len(),
{
    let header = fragment_header(code, masks[0], parts.len() == 1);
    let later = fragments(DataCode::Continuation, masks.skip(1), parts.skip(1));
    let buffered = fragments(code, masks, parts) + rest;
    let state = ReadState { flags, position: FrameDecoder::DecodingHeader, buffered };
    assert(buffered =~= frame_bytes(header, parts[0]) + (later + rest));
    lemma_run_of_frame(state, header, parts[0], later + rest, max_size);
    if parts.len() == 1 {
        assert(later + rest =~= rest);
        assert(joined(parts.skip(1)) =~= Seq::<u8>::empty());
        assert(joined(parts) =~= parts[0]);
    } else {
        let started = accept_data(flags, code, false).0;
        lemma_fragments_run(
            started,
            DataCode::Continuation,
            masks.skip(1),
            parts.skip(1),
            rest,
            max_size,
        );
    }
}

/// A message that was sent in fragments is read back whole, and the connection is then in the
/// state that it was in before the message.
pub proof fn lemma_message_round_trip(
    flags: CodecFlags,
    code: DataCode,
    masks: Seq<Option<u32>>,
    parts: Seq<Seq<u8>>,
    rest: Seq<u8>,
    max_size: usize,
)
    requires
        !(code is Continuation),
        !flags.r_cont && !flags.cont_type,
        parts.len() > 0,
        masks.len() == parts.len(),
        forall|i: int| 0 <= i < masks.len() ==> (#[trigger] masks[i] is Some <==> flags.role),
        forall|i: int| 0 <= i < parts.len() ==> (#[trigger] parts[i]).len() <= max_size,
    ensures
        read_run(
            ReadState {
                flags,
                position: FrameDecoder::DecodingHeader,
                buffered: fragments(code, masks, parts) + rest,
            },
            max_size,
        ) == (ReadRun {
            state: ReadState { flags, position: FrameDecoder::DecodingHeader, buffered: rest },
            data: joined(parts),
            outcome: ProgressView::Item(
                if code is Text {
                    ItemView::Text
                } else {
                    ItemView::Binary
                },
            ),
        }),
{
    lemma_fragments_run(flags, code, masks, parts, rest, max_size);
}

/// A control frame may come between the fragments of a message: it is read at once, and the message
/// can be read on afterwards.
pub proof fn lemma_control_between_fragments(
    flags: CodecFlags,
    code: ControlCode,
    mask: Option<u32>,
    payload: Seq<u8>,
    rest: Seq<u8>,
    max_size: usize,
)
    requires
        mask is Some <==> flags.role,
        payload.len() <= max_size,
    ensures
        read_run(
            ReadState {
                flags,
                position: FrameDecoder::DecodingHeader,
                buffered: frame_bytes(control_header(code, mask), payload) + rest,
            },
            max_size,
        ) == (ReadRun {
            state: ReadState { flags, position: FrameDecoder::DecodingHeader, buffered: rest },
            data: Seq::empty(),
            outcome: match accept_control(code, payload) {
                Ok(item) => ProgressView::Item(item),
                Err(e) => ProgressView::Fail(e),
            },
        }),
{
    let header = control_header(code, mask);
    let state = ReadState {
        flags,
        position: FrameDecoder::DecodingHeader,
        buffered: frame_bytes(header, payload) + rest,
    };
    lemma_run_of_frame(state, header, payload, rest, max_size);
}

/// Fragments of a message that is not complete: each part in a frame of its own, none of them final.
pub open spec fn unfinished(code: DataCode, masks: Seq<Option<u32>>, parts: Seq<Seq<u8>>) -> Seq<u8>
    decreases parts.len(),
{
    if parts.len() == 0 {
        Seq::empty()
    } else {
        frame_bytes(fragment_header(code, masks[0], false), parts[0]) + unfinished(
            DataCode::Continuation,
            masks.skip(1),
            parts.skip(1),
        )
    }
}

/// The flags after `count` fragments of a message that is not complete.
pub open spec fn flags_amid(flags: CodecFlags, code: DataCode, count: nat) -> CodecFlags {
    if count == 0 {
        flags
    } else {
        CodecFlags { r_cont: true, cont_type: flags.cont_type || code is Text, ..flags }
    }
}

/// A fragment that does not complete a message is followed by what the frames after it come to.
proof fn lemma_unfinished_first(
    flags: CodecFlags,
    code: DataCode,
    mask: Option<u32>,
    part: Seq<u8>,
    later: Seq<u8>,
    max_size: usize,
)
    requires
        mask is Some <==> flags.role,
        part.len() <= max_size,
        flags.r_cont <==> code is Continuation,
    ensures
        read_run(
            ReadState {
                flags,
                position: FrameDecoder::DecodingHeader,
                buffered: frame_bytes(fragment_header(code, mask, false), part) + later,
            },
            max_size,
        ) == after_data(
            part,
            read_run(
                ReadState {
                    flags: flags_amid(flags, code, 1),
                    position: FrameDecoder::DecodingHeader,
                    buffered: later,
                },
                max_size,
            ),
        ),
{
    let header = fragment_header(code, mask, false);
    let state = ReadState {
        flags,
        position: FrameDecoder::DecodingHeader,
        buffered: frame_bytes(header, part) + later,
    };
    lemma_run_of_frame(state, header, part, later, max_size);
    assert(accept_data(flags, code, false) == (flags_amid(flags, code, 1), AcceptedView::More));
}

/// The fragments of a message that is not complete: the first one, and the others before what follows.
proof fn lemma_unfinished_bytes(
    code: DataCode,
    masks: Seq<Option<u32>>,
    parts: Seq<Seq<u8>>,
    rest: Seq<u8>,
)
    requires
        parts.len() > 0,
    ensures
        unfinished(code, masks, parts) + rest == frame_bytes(
            fragment_header(code, masks[0], false),
            parts[0],
        ) + (unfinished(DataCode::Continuation, masks.skip(1), parts.skip(1)) + rest),
{
    assert(unfinished(code, masks, parts) + rest =~= frame_bytes(
        fragment_header(code, masks[0], false),
        parts[0],
    ) + (unfinished(DataCode::Continuation, masks.skip(1), parts.skip(1)) + rest));
}

/// Fragments of a message that is not complete are read, and what follows them after them.
pub proof fn lemma_unfinished_run(
    flags: CodecFlags,
    code: DataCode,
    masks: Seq<Option<u32>>,
    parts: Seq<Seq<u8>>,
    rest: Seq<u8>,
    max_size: usize,
)
    requires
        masks.len() == parts.len(),
        forall|i: int| 0 <= i < masks.len() ==> (#[trigger] masks[i] is Some <==> flags.role),
        forall|i: int| 0 <= i < parts.len() ==> (#[trigger] parts[i]).len() <= max_size,
        flags.r_cont <==> code is Continuation,
    ensures
        read_run(
            ReadState {
                flags,
                position: FrameDecoder::DecodingHeader,
                buffered: unfinished(code, masks, parts) + rest,
            },
            max_size,
        ) == after_data(
            joined(parts),
            read_run(
                ReadState {
                    flags: flags_amid(flags, code, parts.len()),
                    position: FrameDecoder::DecodingHeader,
                    buffered: rest,
                },
                max_size,
            ),
        ),
    decreases parts.len(),
{
    let last = read_run(
        ReadState {
            flags: flags_amid(flags, code, parts.len()),
            position: FrameDecoder::DecodingHeader,
            buffered: rest,
        },
        max_size,
    );
    if parts.len() == 0 {
        assert(unfinished(code, masks, parts) + rest =~= rest);
        lemma_after_data(Seq::empty(), Seq::empty(), last);
    } else {
        let later = unfinished(DataCode::Continuation, masks.skip(1), parts.skip(1));
        lemma_unfinished_bytes(code, masks, parts, rest);
        lemma_unfinished_first(flags, code, masks[0], parts[0], later + rest, max_size);
        lemma_unfinished_run(
            flags_amid(flags, code, 1),
            DataCode::Continuation,
            masks.skip(1),
            parts.skip(1),
            rest,
            max_size,
        );
        lemma_after_data(parts[0], joined(parts.skip(1)), last);
    }
}

/// A ping that comes behind fragments of a message that is not complete is read at once, with the data
/// of those fragments.
pub proof fn lemma_ping_amid_fragments(
    flags: CodecFlags,
    code: DataCode,
    masks: Seq<Option<u32>>,
    parts: Seq<Seq<u8>>,
    mask: Option<u32>,
    payload: Seq<u8>,
    rest: Seq<u8>,
    max_size: usize,
)
    requires
        masks.len() == parts.len(),
        forall|i: int| 0 <= i < masks.len() ==> (#[trigger] masks[i] is Some <==> flags.role),
        forall|i: int| 0 <= i < parts.len() ==> (#[trigger] parts[i]).len() <= max_size,
        flags.r_cont <==> code is Continuation,
        mask is Some <==> flags.role,
        payload.len() <= CONTROL_MAX_SIZE,
        payload.len() <= max_size,
    ensures
        read_run(
            ReadState {
                flags,
                position: FrameDecoder::DecodingHeader,
                buffered: unfinished(code, masks, parts) + (frame_bytes(
                    control_header(ControlCode::Ping, mask),
                    payload,
                ) + rest),
            },
            max_size,
        ) == (ReadRun {
            state: ReadState {
                flags: flags_amid(flags, code, parts.len()),
                position: FrameDecoder::DecodingHeader,
                buffered: rest,
            },
            data: joined(parts),
            outcome: ProgressView::Item(ItemView::Ping(payload)),
        }),
{
    let ping = frame_bytes(control_header(ControlCode::Ping, mask), payload);
    lemma_unfinished_run(flags, code, masks, parts, ping + rest, max_size);
    lemma_control_between_fragments(
        flags_amid(flags, code, parts.len()),
        ControlCode::Ping,
        mask,
        payload,
        rest,
        max_size,
    );
    assert(joined(parts) + Seq::<u8>::empty() =~= joined(parts));
}

/// The header of a control frame.
pub open spec fn control_header(code: ControlCode, mask: Option<u32>) -> FrameHeader {
    FrameHeader {
        opcode: OpCode::ControlCode(code),
        flags: HeaderFlags { fin: true, rsv_1: false, rsv_2: false, rsv_3: false },
        mask,
    }
}

/// A reason for closing that was sent is read back, if its code may be sent and its description, if
/// there is one, says anything.
pub proof fn lemma_reason_round_trip(reason: CloseReasonView)
    requires
        reason.code.in_range(),
        !reason.code.illegal(),
        reason.description matches Some(description) ==> description.len() > 0,
    ensures
        closing(close_payload(reason)) == Ok::<ItemView, ReadErrorView>(
            ItemView::Close(Some(reason), close_payload(reason)),
        ),
{
    let payload = close_payload(reason);
    lemma_close_code_round_trip(reason.code);
    assert(payload[0] * 256 + payload[1] == reason.code.number());
    match reason.description {
        Some(description) => {
            assert(payload.skip(2) =~= encode_utf8(description));
            encode_utf8_valid_utf8(description);
            encode_utf8_decode_utf8(description);
        },
        None => {
            assert(payload.skip(2) =~= Seq::<u8>::empty());
        },
    }
}

/// Data frames keep a message's type only while the message is incomplete.
pub proof fn lemma_type_only_of_started_message(flags: CodecFlags, code: DataCode, fin: bool)
    requires
        flags.cont_type ==> flags.r_cont,
    ensures
        ({
            let after = accept_data(flags, code, fin).0;
            &&& after.cont_type ==> after.r_cont
            &&& after.role == flags.role
            &&& after.unknown_bits() == flags.unknown_bits()
        }),
{
}

/// Waiting for bytes changes nothing: a decoder that goes on with more bytes comes to what it would
/// have come to with all of them at once.
pub proof fn lemma_decode_resumes(
    decoder: FrameDecoder,
    buffer: Seq<u8>,
    more: Seq<u8>,
    is_server: bool,
    rsv_bits: u8,
    max_size: usize,
)
    ensures
        ({
            let step = decode_step(decoder, buffer, is_server, rsv_bits, max_size);
            step.outcome is Wait ==> decode_step(
                step.decoder,
                step.buffer + more,
                is_server,
                rsv_bits,
                max_size,
            ) == decode_step(decoder, buffer + more, is_server, rsv_bits, max_size)
        }),
{
    lemma_header_extended(buffer, more, is_server, rsv_bits, max_size);
}

/// A frame that has been received whole is decoded whatever follows it.
proof fn lemma_decode_extended(
    decoder: FrameDecoder,
    buffer: Seq<u8>,
    more: Seq<u8>,
    is_server: bool,
    rsv_bits: u8,
    max_size: usize,
)
    requires
        decoder.ready(buffer),
    ensures
        ({
            let step = decode_step(decoder, buffer, is_server, rsv_bits, max_size);
            step.outcome is Frame ==> decode_step(
                decoder,
                buffer + more,
                is_server,
                rsv_bits,
                max_size,
            ) == (DecodeStep { buffer: step.buffer + more, ..step })
        }),
{
    lemma_header_extended(buffer, more, is_server, rsv_bits, max_size);
    let step = decode_step(decoder, buffer, is_server, rsv_bits, max_size);
    if step.outcome is Frame {
        let (header, header_len, payload_len) = match decoder {
            FrameDecoder::DecodingPayload(header, header_len, payload_len) => (
                header,
                header_len,
                payload_len,
            ),
            FrameDecoder::DecodingHeader => match header_of(
                buffer,
                is_server,
                rsv_bits,
                max_size,
            ) {
                Ok(HeaderRead::Complete(header, header_len, payload_len)) => (
                    header,
                    header_len,
                    payload_len,
                ),
                _ => arbitrary(),
            },
        };
        let end = header_len + payload_len;
        assert((buffer + more).skip(end) =~= buffer.skip(end) + more);
        assert((buffer + more).subrange(header_len as int, end) =~= buffer.subrange(
            header_len as int,
            end,
        ));
    }
}

/// Reading in pieces: a reader that goes on with more bytes reads what it would have read with all of
/// them at once.
pub proof fn lemma_read_resumes(state: ReadState, more: Seq<u8>, max_size: usize)
    requires
        state.position.ready(state.buffered),
    ensures
        ({
            let run = read_run(state, max_size);
            run.outcome is Need ==> read_run(
                ReadState { buffered: state.buffered + more, ..state },
                max_size,
            ) == after_data(
                run.data,
                read_run(
                    ReadState { buffered: run.state.buffered + more, ..run.state },
                    max_size,
                ),
            )
        }),
    decreases state.buffered.len(),
{
    let step = decode_step(
        state.position,
        state.buffered,
        state.flags.role,
        state.flags.unknown_bits(),
        max_size,
    );
    if step.outcome is Wait {
        lemma_wait_resumes(state, more, max_size);
    } else if read_run(state, max_size).outcome is Need {
        lemma_need_after_frame(state, max_size);
        let header = step.outcome->Frame_0;
        let payload = step.outcome->Frame_1;
        let flags = accept_data(state.flags, header.opcode->DataCode_0, header.flags.fin).0;
        let next = ReadState { flags, position: step.decoder, buffered: step.buffer };
        lemma_decode_shrinks(state, max_size);
        lemma_read_resumes(next, more, max_size);
        lemma_run_continues(state, max_size, header, payload);
        lemma_frame_then_more(state, more, max_size);
        let inner = read_run(next, max_size);
        lemma_after_data(
            payload,
            inner.data,
            read_run(
                ReadState { buffered: inner.state.buffered + more, ..inner.state },
                max_size,
            ),
        );
    }
}

/// A reader that waits for the first frame goes on as if it had all bytes at once.
proof fn lemma_wait_resumes(state: ReadState, more: Seq<u8>, max_size: usize)
    requires
        decode_step(
            state.position,
            state.buffered,
            state.flags.role,
            state.flags.unknown_bits(),
            max_size,
        ).outcome is Wait,
    ensures
        ({
            let run = read_run(state, max_size);
            read_run(
                ReadState { buffered: state.buffered + more, ..state },
                max_size,
            ) == after_data(
                run.data,
                read_run(
                    ReadState { buffered: run.state.buffered + more, ..run.state },
                    max_size,
                ),
            )
        }),
{
    let run = read_run(state, max_size);
    let whole = ReadState { buffered: state.buffered + more, ..state };
    let rest = ReadState { buffered: run.state.buffered + more, ..run.state };
    lemma_decode_resumes(
        state.position,
        state.buffered,
        more,
        state.flags.role,
        state.flags.unknown_bits(),
        max_size,
    );
    lemma_same_step(whole, rest, max_size);
    lemma_after_data(run.data, run.data, read_run(rest, max_size));
}

/// A reader that needs bytes after a frame has taken a data frame that leaves a message incomplete.
proof fn lemma_need_after_frame(state: ReadState, max_size: usize)
    requires
        read_run(state, max_size).outcome is Need,
        !(decode_step(
            state.position,
            state.buffered,
            state.flags.role,
            state.flags.unknown_bits(),
            max_size,
        ).outcome is Wait),
        state.position.ready(state.buffered),
    ensures
        ({
            let step = decode_step(
                state.position,
                state.buffered,
                state.flags.role,
                state.flags.unknown_bits(),
                max_size,
            );
            step.outcome matches Decoded::Frame(header, _) && header.opcode matches OpCode::DataCode(
                code,
            ) && accept_data(state.flags, code, header.flags.fin).1 is More
        }),
{
}

/// A frame that leaves a message incomplete is followed by what the frames after it come to, with
/// more bytes behind them.
proof fn lemma_frame_then_more(state: ReadState, more: Seq<u8>, max_size: usize)
    requires
        state.position.ready(state.buffered),
        ({
            let step = decode_step(
                state.position,
                state.buffered,
                state.flags.role,
                state.flags.unknown_bits(),
                max_size,
            );
            step.outcome matches Decoded::Frame(header, _) && header.opcode matches OpCode::DataCode(
                code,
            ) && accept_data(state.flags, code, header.flags.fin).1 is More
        }),
    ensures
        ({
            let step = decode_step(
                state.position,
                state.buffered,
                state.flags.role,
                state.flags.unknown_bits(),
                max_size,
            );
            let header = step.outcome->Frame_0;
            let flags = accept_data(state.flags, header.opcode->DataCode_0, header.flags.fin).0;
            read_run(
                ReadState { buffered: state.buffered + more, ..state },
                max_size,
            ) == after_data(
                step.outcome->Frame_1,
                read_run(
                    ReadState { flags, position: step.decoder, buffered: step.buffer + more },
                    max_size,
                ),
            )
        }),
{
    let step = decode_step(
        state.position,
        state.buffered,
        state.flags.role,
        state.flags.unknown_bits(),
        max_size,
    );
    let whole = ReadState { buffered: state.buffered + more, ..state };
    lemma_decode_shrinks(state, max_size);
    lemma_decode_extended(
        state.position,
        state.buffered,
        more,
        state.flags.role,
        state.flags.unknown_bits(),
        max_size,
    );
    lemma_run_continues(whole, max_size, step.outcome->Frame_0, step.outcome->Frame_1);
}

/// A frame that is taken leaves fewer bytes, and the decoder at the start of the next frame.
proof fn lemma_decode_shrinks(state: ReadState, max_size: usize)
    requires
        state.position.ready(state.buffered),
    ensures
        ({
            let step = decode_step(
                state.position,
                state.buffered,
                state.flags.role,
                state.flags.unknown_bits(),
                max_size,
            );
            step.outcome is Frame ==> step.buffer.len() < state.buffered.len() && step.decoder
                is DecodingHeader
        }),
{
}

/// States whose next frame is the same read the same.
proof fn lemma_same_step(a: ReadState, b: ReadState, max_size: usize)
    requires
        a.flags == b.flags,
        a.buffered.len() == b.buffered.len(),
        decode_step(
            a.position,
            a.buffered,
            a.flags.role,
            a.flags.unknown_bits(),
            max_size,
        ) == decode_step(
            b.position,
            b.buffered,
            b.flags.role,
            b.flags.unknown_bits(),
            max_size,
        ),
    ensures
        read_run(a, max_size) == read_run(b, max_size),
{
}

} // verus!
