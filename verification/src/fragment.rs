//! Messages that are sent in fragments.

use crate::errors::Failure;
use crate::framed::{
    fragment_header, fragments, frame_bytes, joined, lemma_message_round_trip, read_run, CodecFlags,
    FrameDecoder, ItemView, ProgressView, ReadRun, ReadState,
};
use crate::protocol::{DataCode, HeaderFlags, MessageType, OpCode};
use crate::ratchet_ext::ExtensionEncoder;
use crate::session::{adds_data, masked_header, WriteHalf};
use vstd::prelude::*;
use vstd::slice::slice_subrange;

verus! {

/// `bytes` in parts of `size` bytes. The last part may be shorter, and there is always one part.
pub open spec fn chunks(bytes: Seq<u8>, size: nat) -> Seq<Seq<u8>>
    decreases bytes.len(),
{
    if size == 0 || bytes.len() <= size {
        seq![bytes]
    } else {
        seq![bytes.take(size as int)] + chunks(bytes.skip(size as int), size)
    }
}

/// The parts of `bytes` are none too long, and put together they are `bytes`.
pub proof fn lemma_chunks(bytes: Seq<u8>, size: nat)
    requires
        size > 0,
    ensures
        chunks(bytes, size).len() > 0,
        joined(chunks(bytes, size)) == bytes,
        forall|i: int|
            0 <= i < chunks(bytes, size).len() ==> (#[trigger] chunks(bytes, size)[i]).len() <= size,
    decreases bytes.len(),
{
    let parts = chunks(bytes, size);
    if bytes.len() <= size {
        assert(joined(parts.skip(1)) =~= Seq::<u8>::empty());
        assert(joined(parts) =~= bytes);
    } else {
        let rest = bytes.skip(size as int);
        lemma_chunks(rest, size);
        assert(parts.skip(1) =~= chunks(rest, size));
        assert(bytes.take(size as int) + rest =~= bytes);
        assert forall|i: int| 0 <= i < parts.len() implies (#[trigger] parts[i]).len() <= size by {
            if i > 0 {
                assert(parts[i] == chunks(rest, size)[i - 1]);
            }
        }
    }
}

/// The code that starts a message.
pub open spec fn data_code(message_type: MessageType) -> DataCode {
    match message_type {
        MessageType::Text => DataCode::Text,
        MessageType::Binary => DataCode::Binary,
    }
}

/// Whether `after` is `before` and a message in fragments.
pub open spec fn adds_fragments(
    before: Seq<u8>,
    after: Seq<u8>,
    is_server: bool,
    code: DataCode,
    parts: Seq<Seq<u8>>,
) -> bool {
    exists|masks: Seq<Option<u32>>|
        masks.len() == parts.len() && (forall|i: int|
            0 <= i < masks.len() ==> (#[trigger] masks[i] is None <==> is_server)) && after
            == before + #[trigger] fragments(code, masks, parts)
}

/// The flags of a fragment.
pub open spec fn fragment_flags(fin: bool) -> HeaderFlags {
    HeaderFlags { fin, rsv_1: false, rsv_2: false, rsv_3: false }
}

/// Whether a message in fragments was added to the bytes that are to be sent as it should be: each
/// fragment as the extension, if there is one, encodes it. If it fails, the fragments before it have
/// been added.
pub open spec fn adds_message<E: ExtensionEncoder>(
    before: Seq<u8>,
    after: Seq<u8>,
    encoder: Option<E>,
    encoder_after: Option<E>,
    is_server: bool,
    code: DataCode,
    parts: Seq<Seq<u8>>,
    result: Result<(), Failure<E::Error>>,
) -> bool
    decreases parts.len(),
{
    if parts.len() <= 1 {
        adds_data(
            before,
            after,
            encoder,
            encoder_after,
            is_server,
            code,
            fragment_flags(true),
            parts[0],
            result,
        )
    } else {
        ||| result is Err && adds_data(
            before,
            after,
            encoder,
            encoder_after,
            is_server,
            code,
            fragment_flags(false),
            parts[0],
            result,
        )
        ||| exists|middle: Seq<u8>, encoder_then: Option<E>|
            #[trigger] adds_data(
                before,
                middle,
                encoder,
                encoder_then,
                is_server,
                code,
                fragment_flags(false),
                parts[0],
                Ok(()),
            ) && adds_message(
                middle,
                after,
                encoder_then,
                encoder_after,
                is_server,
                DataCode::Continuation,
                parts.skip(1),
                result,
            )
    }
}

/// A data frame that is added without an extension has the payload that was given.
proof fn lemma_plain_data<E: ExtensionEncoder>(
    before: Seq<u8>,
    after: Seq<u8>,
    encoder_after: Option<E>,
    is_server: bool,
    code: DataCode,
    fin: bool,
    payload: Seq<u8>,
    result: Result<(), Failure<E::Error>>,
) -> (mask: Option<u32>)
    requires
        adds_data(
            before,
            after,
            None,
            encoder_after,
            is_server,
            code,
            fragment_flags(fin),
            payload,
            result,
        ),
    ensures
        encoder_after is None,
        result is Ok,
        mask is None <==> is_server,
        after == before + frame_bytes(fragment_header(code, mask, fin), payload),
{
    let opcode = OpCode::DataCode(code);
    let flags = fragment_flags(fin);
    let mask = choose|mask: Option<u32>|
        (mask is None <==> is_server) && after == before + frame_bytes(
            #[trigger] masked_header(opcode, flags, mask),
            payload,
        );
    assert(masked_header(opcode, flags, mask) == fragment_header(code, mask, fin));
    mask
}

/// A message that is sent in fragments without an extension is sent as it is, and whole.
pub proof fn lemma_plain_message<E: ExtensionEncoder>(
    before: Seq<u8>,
    after: Seq<u8>,
    encoder_after: Option<E>,
    is_server: bool,
    code: DataCode,
    parts: Seq<Seq<u8>>,
    result: Result<(), Failure<E::Error>>,
)
    requires
        parts.len() > 0,
        adds_message(before, after, None, encoder_after, is_server, code, parts, result),
    ensures
        encoder_after is None,
        result is Ok,
        adds_fragments(before, after, is_server, code, parts),
    decreases parts.len(),
{
    if parts.len() == 1 {
        let mask = lemma_plain_data(
            before,
            after,
            encoder_after,
            is_server,
            code,
            true,
            parts[0],
            result,
        );
        let masks = seq![mask];
        let frame = frame_bytes(fragment_header(code, mask, true), parts[0]);
        assert(fragments(DataCode::Continuation, masks.skip(1), parts.skip(1)) =~= Seq::<
            u8,
        >::empty());
        assert(fragments(code, masks, parts) =~= frame);
    } else {
        if result is Err && adds_data::<E>(
            before,
            after,
            None,
            encoder_after,
            is_server,
            code,
            fragment_flags(false),
            parts[0],
            result,
        ) {
            lemma_plain_data(
                before,
                after,
                encoder_after,
                is_server,
                code,
                false,
                parts[0],
                result,
            );
        }
        let (middle, encoder_then) = choose|middle: Seq<u8>, encoder_then: Option<E>|
            #[trigger] adds_data(
                before,
                middle,
                None,
                encoder_then,
                is_server,
                code,
                fragment_flags(false),
                parts[0],
                Ok(()),
            ) && adds_message(
                middle,
                after,
                encoder_then,
                encoder_after,
                is_server,
                DataCode::Continuation,
                parts.skip(1),
                result,
            );
        let mask = lemma_plain_data(
            before,
            middle,
            encoder_then,
            is_server,
            code,
            false,
            parts[0],
            Ok(()),
        );
        lemma_plain_message(
            middle,
            after,
            encoder_after,
            is_server,
            DataCode::Continuation,
            parts.skip(1),
            result,
        );
        let rest = choose|masks: Seq<Option<u32>>|
            masks.len() == parts.skip(1).len() && (forall|i: int|
                0 <= i < masks.len() ==> (#[trigger] masks[i] is None <==> is_server)) && after
                == middle + #[trigger] fragments(DataCode::Continuation, masks, parts.skip(1));
        let masks = seq![mask] + rest;
        let first = frame_bytes(fragment_header(code, mask, false), parts[0]);
        let others = fragments(DataCode::Continuation, rest, parts.skip(1));
        assert(masks.skip(1) =~= rest);
        assert((before + first) + others =~= before + (first + others));
        assert(after == before + fragments(code, masks, parts));
    }
}

/// Adds a message in fragments of `fragment_size` bytes to the bytes that are to be sent. A message
/// that is not longer than a fragment is sent in one frame. The extension, if there is one, encodes
/// each fragment; if it fails, the fragments before it remain to be sent.
pub fn write_fragmented<E: ExtensionEncoder>(
    half: &mut WriteHalf,
    buf: &[u8],
    message_type: MessageType,
    fragment_size: usize,
    is_server: bool,
    extension: &mut Option<E>,
) -> (result: Result<(), Failure<E::Error>>)
    requires
        fragment_size > 0,
    ensures
        final(half)@.pinged == old(half)@.pinged,
        adds_message(
            old(half)@.pending,
            final(half)@.pending,
            *old(extension),
            *final(extension),
            is_server,
            data_code(message_type),
            chunks(buf@, fragment_size as nat),
            result,
        ),
{
    let ghost code = data_code(message_type);
    let ghost size = fragment_size as nat;
    let ghost all = chunks(buf@, size);
    let len: usize = buf.len();
    let mut start: usize = 0;
    let mut next = match message_type {
        MessageType::Text => DataCode::Text,
        MessageType::Binary => DataCode::Binary,
    };
    assert(buf@.skip(0) =~= buf@);
    while len - start > fragment_size
        invariant
            len == buf@.len(),
            start <= len,
            fragment_size > 0,
            size == fragment_size,
            code == data_code(message_type),
            all == chunks(buf@, size),
            half@.pinged == old(half)@.pinged,
            forall|after: Seq<u8>, encoder: Option<E>, result: Result<(), Failure<E::Error>>|
                #[trigger] adds_message(
                    half@.pending,
                    after,
                    *extension,
                    encoder,
                    is_server,
                    next,
                    chunks(buf@.skip(start as int), size),
                    result,
                ) ==> adds_message(
                    old(half)@.pending,
                    after,
                    *old(extension),
                    encoder,
                    is_server,
                    code,
                    all,
                    result,
                ),
        decreases len - start,
    {
        let ghost rest = buf@.skip(start as int);
        let ghost parts = chunks(rest, size);
        let ghost here = half@.pending;
        let ghost encoder_here = *extension;
        let code_here = next;
        let part = slice_subrange(buf, start, start + fragment_size);
        assert(part@ =~= rest.take(size as int));
        assert(parts[0] == part@ && parts.len() > 1) by {
            lemma_chunks(rest.skip(size as int), size);
        }
        match half.add_data(part, next, HeaderFlags::empty(), is_server, extension) {
            Ok(done) => assert(done == ()),
            Err(e) => {
                assert(adds_message(
                    here,
                    half@.pending,
                    encoder_here,
                    *extension,
                    is_server,
                    code_here,
                    parts,
                    Err(e),
                ));
                return Err(e);
            },
        }
        next = DataCode::Continuation;
        start = start + fragment_size;
        proof {
            let there = half@.pending;
            let encoder_there = *extension;
            assert(buf@.skip(start as int) =~= rest.skip(size as int));
            assert(parts.skip(1) =~= chunks(rest.skip(size as int), size));
            assert forall|after: Seq<u8>, encoder: Option<E>, result: Result<(), Failure<E::Error>>|
                #[trigger] adds_message(
                    there,
                    after,
                    encoder_there,
                    encoder,
                    is_server,
                    next,
                    chunks(buf@.skip(start as int), size),
                    result,
                ) implies adds_message(
                old(half)@.pending,
                after,
                *old(extension),
                encoder,
                is_server,
                code,
                all,
                result,
            ) by {
                assert(adds_data(
                    here,
                    there,
                    encoder_here,
                    encoder_there,
                    is_server,
                    code_here,
                    fragment_flags(false),
                    parts[0],
                    Ok(()),
                ));
                assert(adds_message(
                    here,
                    after,
                    encoder_here,
                    encoder,
                    is_server,
                    code_here,
                    parts,
                    result,
                ));
            }
        }
    }
    let ghost here = half@.pending;
    let ghost encoder_here = *extension;
    let part = slice_subrange(buf, start, len);
    assert(part@ =~= buf@.skip(start as int));
    let result = half.add_data(part, next, HeaderFlags::final_frame(), is_server, extension);
    assert(adds_message(
        here,
        half@.pending,
        encoder_here,
        *extension,
        is_server,
        next,
        chunks(buf@.skip(start as int), size),
        result,
    ));
    result
}

/// A message that one end sends in fragments is read back whole by the other end.
pub proof fn lemma_fragments_read_back(
    flags: CodecFlags,
    before: Seq<u8>,
    after: Seq<u8>,
    message_type: MessageType,
    bytes: Seq<u8>,
    size: nat,
    rest: Seq<u8>,
    max_size: usize,
)
    requires
        !flags.r_cont && !flags.cont_type,
        0 < size <= max_size,
        adds_fragments(before, after, !flags.role, data_code(message_type), chunks(bytes, size)),
    ensures
        read_run(
            ReadState {
                flags,
                position: FrameDecoder::DecodingHeader,
                buffered: after.skip(before.len() as int) + rest,
            },
            max_size,
        ) == (ReadRun {
            state: ReadState { flags, position: FrameDecoder::DecodingHeader, buffered: rest },
            data: bytes,
            outcome: ProgressView::Item(
                match message_type {
                    MessageType::Text => ItemView::Text,
                    MessageType::Binary => ItemView::Binary,
                },
            ),
        }),
{
    let code = data_code(message_type);
    let parts = chunks(bytes, size);
    lemma_chunks(bytes, size);
    let masks = choose|masks: Seq<Option<u32>>|
        masks.len() == parts.len() && (forall|i: int|
            0 <= i < masks.len() ==> (#[trigger] masks[i] is None <==> !flags.role)) && after
            == before + #[trigger] fragments(code, masks, parts);
    assert(after.skip(before.len() as int) =~= fragments(code, masks, parts));
    lemma_message_round_trip(flags, code, masks, parts, rest, max_size);
}

} // verus!
