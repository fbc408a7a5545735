//! Reading of messages.

use crate::buffer::{contents, put};
use crate::framed::{
    accept_control, accept_data, decode_step, failed_by, read_control, Accepted, AcceptedView,
    CodecFlags, DecodeResult, Decoded, FrameDecoder, Item, ItemView, ReadError, ReadErrorView,
};
use crate::protocol::{DataCode, FrameHeader, HeaderFlags, OpCode};
use crate::ratchet_ext;
use crate::ratchet_ext::ExtensionDecoder;
use bytes::BytesMut;
use vstd::prelude::*;

verus! {

/// The bytes that have been received and the frame that they have come to.
#[derive(Debug)]
pub struct FramedRead {
    read_buffer: BytesMut,
    decoder: FrameDecoder,
}

impl FramedRead {
    /// The bytes that have been received and not been taken.
    pub closed spec fn buffered(self) -> Seq<u8> {
        contents(self.read_buffer)
    }

    /// The frame that the bytes have come to.
    pub closed spec fn position(self) -> FrameDecoder {
        self.decoder
    }

    /// A header that has been read is still at the front of the bytes.
    pub open spec fn wf(self) -> bool {
        self.position().ready(self.buffered())
    }

    /// A reader that has received the bytes in `read_buffer`.
    pub fn new(read_buffer: BytesMut) -> (reader: FramedRead)
        ensures
            reader.wf(),
            reader.buffered() == contents(read_buffer),
            reader.position() is DecodingHeader,
    {
        FramedRead { read_buffer, decoder: FrameDecoder::default() }
    }

    /// Adds bytes that have been received.
    pub fn supply(&mut self, bytes: &[u8])
        requires
            old(self).wf(),
        ensures
            final(self).wf(),
            final(self).buffered() == old(self).buffered() + bytes@,
            final(self).position() == old(self).position(),
    {
        self.read_buffer.extend_from_slice(bytes);
    }

    /// Takes the next frame, or says how many bytes are to be supplied first.
    pub fn read_frame(&mut self, is_server: bool, rsv_bits: u8, max_size: usize) -> (result: Result<
        DecodeResult,
        ReadError,
    >)
        requires
            old(self).wf(),
        ensures
            final(self).wf(),
            ({
                let step = decode_step(
                    old(self).position(),
                    old(self).buffered(),
                    is_server,
                    rsv_bits,
                    max_size,
                );
                &&& final(self).position() == step.decoder
                &&& final(self).buffered() == step.buffer
                &&& match (step.outcome, result) {
                    (Decoded::Fail(e), Err(error)) => error@ == failed_by(e@.message()),
                    (Decoded::Wait(count), Ok(DecodeResult::Incomplete(n))) => n == count,
                    (Decoded::Frame(header, payload), Ok(DecodeResult::Finished(h, p))) => h
                        == header && contents(p) == payload,
                    _ => false,
                }
            }),
    {
        self.decoder.decode(&mut self.read_buffer, is_server, rsv_bits, max_size)
    }
}

/// What reading came to.
#[derive(Debug)]
pub enum Progress {
    /// The number of bytes to supply before reading on.
    Need(usize),
    /// Something for the caller.
    Item(Item),
}

/// Why reading with an extension failed.
#[derive(Debug)]
pub enum ReadFailure<X> {
    /// The frame could not be read.
    Read(ReadError),
    /// The extension failed.
    Extension(X),
}

/// What reading comes to.
pub enum ProgressView {
    Fail(ReadErrorView),
    Need(usize),
    Item(ItemView),
}

/// The state of a connection that reading changes.
pub struct ReadState {
    pub flags: CodecFlags,
    pub position: FrameDecoder,
    pub buffered: Seq<u8>,
}

/// The state that a connection's flags and reader hold.
pub open spec fn reading(flags: CodecFlags, reader: FramedRead) -> ReadState {
    ReadState { flags, position: reader.position(), buffered: reader.buffered() }
}

/// The state after reading, the payload of the data frames that were read, and what reading came
/// to.
pub struct ReadRun {
    pub state: ReadState,
    pub data: Seq<u8>,
    pub outcome: ProgressView,
}

/// `run` after the payload of an earlier frame.
pub open spec fn after_data(data: Seq<u8>, run: ReadRun) -> ReadRun {
    ReadRun { state: run.state, data: data + run.data, outcome: run.outcome }
}

/// What reading comes to: frames are taken until one completes a message, controls the connection
/// or cannot be read, or until the bytes run out.
pub open spec fn read_run(state: ReadState, max_size: usize) -> ReadRun
    decreases state.buffered.len(),
{
    let step = decode_step(
        state.position,
        state.buffered,
        state.flags.role,
        state.flags.unknown_bits(),
        max_size,
    );
    let at = |flags: CodecFlags|
        ReadState { flags, position: step.decoder, buffered: step.buffer };
    match step.outcome {
        Decoded::Fail(e) => ReadRun {
            state: at(state.flags),
            data: Seq::empty(),
            outcome: ProgressView::Fail(failed_by(e@.message())),
        },
        Decoded::Wait(count) => ReadRun {
            state: at(state.flags),
            data: Seq::empty(),
            outcome: ProgressView::Need(count),
        },
        Decoded::Frame(header, payload) => match header.opcode {
            OpCode::ControlCode(code) => ReadRun {
                state: at(state.flags),
                data: Seq::empty(),
                outcome: match accept_control(code, payload) {
                    Ok(item) => ProgressView::Item(item),
                    Err(e) => ProgressView::Fail(e),
                },
            },
            OpCode::DataCode(code) => {
                let (flags, accepted) = accept_data(state.flags, code, header.flags.fin);
                match accepted {
                    AcceptedView::Item(item) => ReadRun {
                        state: at(flags),
                        data: payload,
                        outcome: ProgressView::Item(item),
                    },
                    AcceptedView::Fail(e) => ReadRun {
                        state: at(flags),
                        data: payload,
                        outcome: ProgressView::Fail(e),
                    },
                    AcceptedView::More => if step.buffer.len() < state.buffered.len() {
                        after_data(payload, read_run(at(flags), max_size))
                    } else {
                        arbitrary()
                    },
                }
            },
        },
    }
}

/// The payload of two frames, one after the other, before what follows.
pub(crate) proof fn lemma_after_data(first: Seq<u8>, second: Seq<u8>, run: ReadRun)
    ensures
        after_data(first, after_data(second, run)) == after_data(first + second, run),
        after_data(Seq::empty(), run) == run,
{
    assert(first + (second + run.data) =~= (first + second) + run.data);
    assert(Seq::<u8>::empty() + run.data =~= run.data);
}

/// A frame that leaves a message incomplete is followed by what the frames after it come to.
pub(crate) proof fn lemma_run_continues(state: ReadState, max_size: usize, header: FrameHeader, payload: Seq<u8>)
    requires
        ({
            let step = decode_step(
                state.position,
                state.buffered,
                state.flags.role,
                state.flags.unknown_bits(),
                max_size,
            );
            &&& step.outcome == Decoded::Frame(header, payload)
            &&& step.buffer.len() < state.buffered.len()
            &&& header.opcode matches OpCode::DataCode(code) && accept_data(
                state.flags,
                code,
                header.flags.fin,
            ).1 is More
        }),
    ensures
        ({
            let step = decode_step(
                state.position,
                state.buffered,
                state.flags.role,
                state.flags.unknown_bits(),
                max_size,
            );
            let flags = accept_data(
                state.flags,
                header.opcode->DataCode_0,
                header.flags.fin,
            ).0;
            read_run(state, max_size) == after_data(
                payload,
                read_run(
                    ReadState { flags, position: step.decoder, buffered: step.buffer },
                    max_size,
                ),
            )
        }),
{
}

/// The header of a data frame as extensions see it.
pub open spec fn extension_header(flags: HeaderFlags, code: DataCode) -> ratchet_ext::FrameHeader {
    ratchet_ext::FrameHeader {
        fin: flags.fin,
        rsv1: flags.rsv_1,
        rsv2: flags.rsv_2,
        rsv3: flags.rsv_3,
        opcode: match code {
            DataCode::Continuation => ratchet_ext::OpCode::Continuation,
            DataCode::Text => ratchet_ext::OpCode::Text,
            DataCode::Binary => ratchet_ext::OpCode::Binary,
        },
    }
}

/// Gives the header of a data frame the form in which extensions see it.
pub fn header_for_extension(flags: HeaderFlags, code: DataCode) -> (seen: ratchet_ext::FrameHeader)
    ensures
        seen == extension_header(flags, code),
{
    ratchet_ext::FrameHeader {
        fin: flags.fin,
        rsv1: flags.rsv_1,
        rsv2: flags.rsv_2,
        rsv3: flags.rsv_3,
        opcode: ratchet_ext::OpCode::from(code),
    }
}

/// Whether a result of reading says what a view of it says.
pub open spec fn progressed_as<X>(
    result: Result<Progress, ReadFailure<X>>,
    view: ProgressView,
) -> bool {
    match result {
        Ok(Progress::Need(count)) => view == ProgressView::Need(count),
        Ok(Progress::Item(item)) => view == ProgressView::Item(item@),
        Err(ReadFailure::Read(e)) => view == ProgressView::Fail(e@),
        Err(ReadFailure::Extension(_)) => false,
    }
}

/// Whether an extension may make `decoded` of data. What it makes of the header has no effect.
pub open spec fn may_decode<D: ExtensionDecoder>(
    before: D,
    after: D,
    header: ratchet_ext::FrameHeader,
    data: Seq<u8>,
    decoded: Seq<u8>,
    result: Result<(), D::Error>,
) -> bool {
    exists|marked: ratchet_ext::FrameHeader| #[trigger]
        before.decodes(&after, data, decoded, header, marked, result)
}

/// Whether an extension, if there is one, may make `decoded` of the data up to and with a frame.
pub open spec fn decoded_as<D: ExtensionDecoder>(
    before: Option<D>,
    after: Option<D>,
    flags: HeaderFlags,
    code: DataCode,
    data: Seq<u8>,
    decoded: Seq<u8>,
    result: Result<(), D::Error>,
) -> bool {
    match (before, after) {
        (Some(decoder), Some(after)) => may_decode(
            decoder,
            after,
            extension_header(flags, code),
            data,
            decoded,
            result,
        ),
        (None, None) => result is Ok && decoded == data,
        _ => false,
    }
}

/// Lets an extension, if there is one, decode the data up to and with a frame.
pub fn extension_decode<D: ExtensionDecoder>(
    extension: &mut Option<D>,
    data: &mut BytesMut,
    flags: HeaderFlags,
    code: DataCode,
) -> (result: Result<(), D::Error>)
    ensures
        decoded_as(
            *old(extension),
            *final(extension),
            flags,
            code,
            contents(*old(data)),
            contents(*final(data)),
            result,
        ),
{
    match extension {
        Some(decoder) => {
            let ghost before = *decoder;
            let ghost received = contents(*data);
            let mut seen = header_for_extension(flags, code);
            let result = decoder.decode(data, &mut seen);
            assert(before.decodes(
                decoder,
                received,
                contents(*data),
                extension_header(flags, code),
                seen,
                result,
            ));
            result
        },
        None => Ok(()),
    }
}

/// What reading changes: the state of the connection, the data that has been received and the
/// extension, if there is one.
pub struct Reception<D> {
    pub state: ReadState,
    pub data: Seq<u8>,
    pub extension: Option<D>,
}

/// Whether a step of reading says what a view of it says.
pub open spec fn stepped_as<X>(
    result: Result<Option<Progress>, ReadFailure<X>>,
    view: ProgressView,
) -> bool {
    match result {
        Ok(Some(progress)) => progressed_as::<X>(Ok(progress), view),
        Ok(None) => false,
        Err(e) => progressed_as(Err(e), view),
    }
}

/// Whether taking one frame may lead from `before` to `after` and come to `result`: to nothing if the
/// frame leaves a message incomplete. The extension, if there is one, decodes all of the data that has
/// been received with a data frame.
#[verifier::opaque]
pub open spec fn takes_frame<D: ExtensionDecoder>(
    before: Reception<D>,
    max_size: usize,
    after: Reception<D>,
    result: Result<Option<Progress>, ReadFailure<D::Error>>,
) -> bool {
    let state = before.state;
    let step = decode_step(
        state.position,
        state.buffered,
        state.flags.role,
        state.flags.unknown_bits(),
        max_size,
    );
    &&& after.state.position == step.decoder
    &&& after.state.buffered == step.buffer
    &&& match step.outcome {
        Decoded::Frame(header, payload) => match header.opcode {
            OpCode::ControlCode(code) => {
                &&& after.state.flags == state.flags
                &&& after.data == before.data
                &&& after.extension == before.extension
                &&& stepped_as(
                    result,
                    match accept_control(code, payload) {
                        Ok(item) => ProgressView::Item(item),
                        Err(e) => ProgressView::Fail(e),
                    },
                )
            },
            OpCode::DataCode(code) => {
                let (flags, accepted) = accept_data(state.flags, code, header.flags.fin);
                let data = before.data + payload;
                let decoded = |outcome: Result<(), D::Error>|
                    decoded_as(
                        before.extension,
                        after.extension,
                        header.flags,
                        code,
                        data,
                        after.data,
                        outcome,
                    );
                &&& after.state.flags == flags
                &&& match accepted {
                    AcceptedView::Fail(e) => {
                        &&& after.data == data
                        &&& after.extension == before.extension
                        &&& stepped_as(result, ProgressView::Fail(e))
                    },
                    _ => match result {
                        Err(ReadFailure::Extension(e)) => decoded(Err(e)),
                        _ => decoded(Ok(())) && match accepted {
                            AcceptedView::Item(item) => stepped_as(result, ProgressView::Item(item)),
                            _ => result matches Ok(None),
                        },
                    },
                }
            },
        },
        outcome => {
            &&& after.state.flags == state.flags
            &&& after.data == before.data
            &&& after.extension == before.extension
            &&& stepped_as(
                result,
                match outcome {
                    Decoded::Wait(count) => ProgressView::Need(count),
                    _ => ProgressView::Fail(failed_by(outcome->Fail_0@.message())),
                },
            )
        },
    }
}

/// Whether reading may lead from `before` to `after` and come to `result`: frames are taken for as
/// long as they leave a message incomplete.
pub open spec fn reads_on<D: ExtensionDecoder>(
    before: Reception<D>,
    max_size: usize,
    after: Reception<D>,
    result: Result<Progress, ReadFailure<D::Error>>,
) -> bool
    decreases before.state.buffered.len(),
{
    ||| takes_frame(
        before,
        max_size,
        after,
        match result {
            Ok(progress) => Ok(Some(progress)),
            Err(e) => Err(e),
        },
    )
    ||| exists|next: Reception<D>|
        #[trigger] takes_frame(before, max_size, next, Ok(None)) && next.state.buffered.len()
            < before.state.buffered.len() && reads_on(next, max_size, after, result)
}

/// What taking a frame comes to is what `read_run` says.
proof fn lemma_frame_taken<D: ExtensionDecoder>(
    before: Reception<D>,
    max_size: usize,
    after: Reception<D>,
    result: Result<Option<Progress>, ReadFailure<D::Error>>,
)
    requires
        takes_frame(before, max_size, after, result),
        after.state.buffered.len() < before.state.buffered.len() || !(result matches Ok(None)),
    ensures
        ({
            let run = read_run(before.state, max_size);
            let next = read_run(after.state, max_size);
            match result {
                Ok(None) => exists|part: Seq<u8>|
                    run == #[trigger] after_data(part, next) && (before.extension is None
                        ==> after.data == before.data + part),
                Err(ReadFailure::Extension(_)) => before.extension is Some,
                _ => stepped_as(result, run.outcome) && after.state == run.state && (
                before.extension is None ==> after.data == before.data + run.data),
            }
        }),
        after.extension is None <==> before.extension is None,
{
    reveal(takes_frame);
    let run = read_run(before.state, max_size);
    let step = decode_step(
        before.state.position,
        before.state.buffered,
        before.state.flags.role,
        before.state.flags.unknown_bits(),
        max_size,
    );
    assert(before.data + Seq::<u8>::empty() =~= before.data);
    if let Decoded::Frame(header, payload) = step.outcome {
        if let OpCode::DataCode(code) = header.opcode {
            let (flags, accepted) = accept_data(before.state.flags, code, header.flags.fin);
            let state = ReadState { flags, position: step.decoder, buffered: step.buffer };
            assert(after.state == state);
            if result matches Ok(None) {
                assert(run == after_data(payload, read_run(after.state, max_size)));
            }
        }
    }
}

/// What reading comes to is what `read_run` says unless the extension fails, which it does only if
/// there is one. Without an extension the data is received as it is.
pub proof fn lemma_reads_as_run<D: ExtensionDecoder>(
    before: Reception<D>,
    max_size: usize,
    after: Reception<D>,
    result: Result<Progress, ReadFailure<D::Error>>,
)
    requires
        reads_on(before, max_size, after, result),
    ensures
        ({
            let run = read_run(before.state, max_size);
            match result {
                Err(ReadFailure::Extension(_)) => before.extension is Some,
                _ => progressed_as(result, run.outcome) && after.state == run.state && (
                before.extension is None ==> after.data == before.data + run.data),
            }
        }),
        after.extension is None <==> before.extension is None,
    decreases before.state.buffered.len(),
{
    let last = match result {
        Ok(progress) => Ok(Some(progress)),
        Err(e) => Err(e),
    };
    if takes_frame(before, max_size, after, last) {
        lemma_frame_taken(before, max_size, after, last);
    } else {
        let next = choose|next: Reception<D>|
            #[trigger] takes_frame(before, max_size, next, Ok(None)) && next.state.buffered.len()
                < before.state.buffered.len() && reads_on(next, max_size, after, result);
        lemma_frame_taken(before, max_size, next, Ok(None));
        lemma_reads_as_run(next, max_size, after, result);
        let rest = read_run(next.state, max_size);
        let part = choose|part: Seq<u8>|
            read_run(before.state, max_size) == #[trigger] after_data(part, rest) && (
            before.extension is None ==> next.data == before.data + part);
        assert((before.data + part) + rest.data =~= before.data + (part + rest.data));
    }
}

/// What the parts of a connection that reading changes hold.
pub open spec fn reception<D>(
    flags: CodecFlags,
    reader: FramedRead,
    read_into: BytesMut,
    extension: Option<D>,
) -> Reception<D> {
    Reception { state: reading(flags, reader), data: contents(read_into), extension }
}

/// Takes the next frame. The payload of a data frame is added to `read_into`, and the extension, if
/// there is one, decodes it. Comes to nothing if the frame leaves a message incomplete.
fn take_frame<D: ExtensionDecoder>(
    reader: &mut FramedRead,
    flags: &mut CodecFlags,
    max_size: usize,
    read_into: &mut BytesMut,
    extension: &mut Option<D>,
) -> (result: Result<Option<Progress>, ReadFailure<D::Error>>)
    requires
        old(reader).wf(),
    ensures
        final(reader).wf(),
        final(flags).role == old(flags).role,
        takes_frame(
            reception(*old(flags), *old(reader), *old(read_into), *old(extension)),
            max_size,
            reception(*final(flags), *final(reader), *final(read_into), *final(extension)),
            result,
        ),
        result matches Ok(None) ==> final(reader).buffered().len() < old(reader).buffered().len(),
{
    proof {
        reveal(takes_frame);
    }
    let (header, payload) = match reader.read_frame(flags.role, flags.reserved(), max_size) {
        Ok(DecodeResult::Incomplete(count)) => return Ok(Some(Progress::Need(count))),
        Ok(DecodeResult::Finished(header, payload)) => (header, payload),
        Err(e) => return Err(ReadFailure::Read(e)),
    };
    let code = match header.opcode {
        OpCode::ControlCode(code) => {
            return match read_control(code, payload) {
                Ok(item) => Ok(Some(Progress::Item(item))),
                Err(e) => Err(ReadFailure::Read(e)),
            };
        },
        OpCode::DataCode(code) => code,
    };
    put(read_into, payload);
    let accepted = match flags.accept_data(code, header.flags.is_fin()) {
        Ok(accepted) => accepted,
        Err(e) => return Err(ReadFailure::Read(e)),
    };
    match extension_decode(extension, read_into, header.flags, code) {
        Ok(done) => assert(done == ()),
        Err(e) => return Err(ReadFailure::Extension(e)),
    }
    match accepted {
        Accepted::Item(item) => Ok(Some(Progress::Item(item))),
        Accepted::More => Ok(None),
    }
}

/// Reads until there is something for the caller or until bytes are missing. The payload of data
/// frames is added to `read_into`, and the extension, if there is one, decodes it after each of
/// them.
///
/// Unless the extension fails, what reading comes to does not depend on it. Without an extension,
/// `read_into` receives the payload as it is.
pub fn read_next<D: ExtensionDecoder>(
    reader: &mut FramedRead,
    flags: &mut CodecFlags,
    max_size: usize,
    read_into: &mut BytesMut,
    extension: &mut Option<D>,
) -> (result: Result<Progress, ReadFailure<D::Error>>)
    requires
        old(reader).wf(),
    ensures
        final(reader).wf(),
        final(flags).role == old(flags).role,
        reads_on(
            reception(*old(flags), *old(reader), *old(read_into), *old(extension)),
            max_size,
            reception(*final(flags), *final(reader), *final(read_into), *final(extension)),
            result,
        ),
        *final(extension) is None <==> *old(extension) is None,
        !(result matches Err(ReadFailure::Extension(_))) ==> {
            let run = read_run(reading(*old(flags), *old(reader)), max_size);
            progressed_as(result, run.outcome) && reading(*final(flags), *final(reader))
                == run.state
        },
        *old(extension) is None ==> {
            let run = read_run(reading(*old(flags), *old(reader)), max_size);
            &&& !(result matches Err(ReadFailure::Extension(_)))
            &&& contents(*final(read_into)) == contents(*old(read_into)) + run.data
        },
{
    let ghost start = reception(*flags, *reader, *read_into, *extension);
    loop
        invariant
            reader.wf(),
            flags.role == old(flags).role,
            start == reception(*old(flags), *old(reader), *old(read_into), *old(extension)),
            forall|after: Reception<D>, result: Result<Progress, ReadFailure<D::Error>>| #[trigger]
                reads_on(
                    reception(*flags, *reader, *read_into, *extension),
                    max_size,
                    after,
                    result,
                ) ==> reads_on(start, max_size, after, result),
        decreases reader.buffered().len(),
    {
        let ghost here = reception(*flags, *reader, *read_into, *extension);
        let taken = take_frame(reader, flags, max_size, read_into, extension);
        let ghost there = reception(*flags, *reader, *read_into, *extension);
        let result = match taken {
            Ok(Some(progress)) => Ok(progress),
            Ok(None) => {
                assert forall|after: Reception<D>, result: Result<Progress, ReadFailure<D::Error>>|
                    #[trigger] reads_on(there, max_size, after, result) implies reads_on(
                    start,
                    max_size,
                    after,
                    result,
                ) by {
                    assert(takes_frame(here, max_size, there, Ok(None)));
                    assert(reads_on(here, max_size, after, result));
                }
                continue ;
            },
            Err(e) => Err(e),
        };
        proof {
            assert(reads_on(here, max_size, there, result));
            lemma_reads_as_run(start, max_size, there, result);
        }
        return result;
    }
}

} // verus!
