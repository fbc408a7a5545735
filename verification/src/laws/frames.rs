//! The bytes of frames.

use crate::buffer::{be16, be32, be64, contents};
use crate::framed::{
    close_payload, control_header, frame_bytes, lemma_control_between_fragments,
    lemma_frame_round_trip, negotiated, unmasked, DecodeResult, FrameDecoder, FramedIo, FramedWrite,
    Item, Progress, ReadError,
};
use crate::protocol::{
    header_bytes, masked, CloseReason, ControlCode, DataCode, FrameHeader, HeaderFlags, OpCode,
    Role,
};
use crate::ratchet_ext::RsvBits;
use crate::session::{adds_frame, masked_header, only_fin};
use bytes::BytesMut;
use vstd::prelude::*;
use vstd::utf8::encode_utf8;

verus! {

/// The header of a frame that is whole and that no extension has marked.
pub open spec fn plain_header(opcode: OpCode, mask: Option<u32>) -> FrameHeader {
    FrameHeader {
        opcode,
        flags: HeaderFlags { fin: true, rsv_1: false, rsv_2: false, rsv_3: false },
        mask,
    }
}

/// Whether `after` is `before` and one frame, which is whole and not marked by an extension. What a
/// client sends is masked, and what a server sends is not.
pub open spec fn sends(
    before: Seq<u8>,
    after: Seq<u8>,
    is_server: bool,
    opcode: OpCode,
    payload: Seq<u8>,
) -> bool {
    exists|mask: Option<u32>|
        (mask is None <==> is_server) && after == before + frame_bytes(
            #[trigger] plain_header(opcode, mask),
            payload,
        )
}

/// A frame that has been added to the bytes that are to be sent.
pub(crate) proof fn lemma_sends(
    before: Seq<u8>,
    after: Seq<u8>,
    is_server: bool,
    opcode: OpCode,
    payload: Seq<u8>,
)
    requires
        adds_frame(before, after, is_server, opcode, only_fin(), payload),
    ensures
        sends(before, after, is_server, opcode, payload),
{
    let mask = choose|mask: Option<u32>|
        (mask is None <==> is_server) && after == before + frame_bytes(
            #[trigger] masked_header(opcode, only_fin(), mask),
            payload,
        );
    assert(masked_header(opcode, only_fin(), mask) == plain_header(opcode, mask));
}

/// The number that bytes hold in big-endian order.
pub open spec fn big_endian(bytes: Seq<u8>) -> int
    decreases bytes.len(),
{
    if bytes.len() == 0 {
        0
    } else {
        big_endian(bytes.drop_last()) * 256 + bytes.last()
    }
}

/// The number that two parts hold, one behind the other.
proof fn lemma_big_endian_joined(high: Seq<u8>, low: Seq<u8>)
    requires
        low.len() == 2 || low.len() == 4,
    ensures
        big_endian(high + low) == big_endian(high) * (if low.len() == 2 {
            65536int
        } else {
            4294967296
        }) + big_endian(low),
{
    let all = high + low;
    reveal_with_fuel(big_endian, 5);
    assert(all.drop_last() =~= high + low.drop_last());
    assert(all.drop_last().drop_last() =~= high + low.drop_last().drop_last());
    if low.len() == 2 {
        assert(high + low.drop_last().drop_last() =~= high);
    } else {
        let fewer = low.drop_last().drop_last();
        assert((high + fewer).drop_last() =~= high + fewer.drop_last());
        assert((high + fewer).drop_last().drop_last() =~= high);
    }
}

/// The bytes of a number hold that number.
proof fn lemma_big_endian_of(small: u16, middle: u32, large: u64)
    ensures
        big_endian(be16(small)) == small,
        big_endian(be32(middle)) == middle,
        big_endian(be64(large)) == large,
{
    lemma_be16(small);
    lemma_be32(middle);
    lemma_be32((large / 4294967296) as u32);
    lemma_be32((large % 4294967296) as u32);
    lemma_big_endian_joined(
        be32((large / 4294967296) as u32),
        be32((large % 4294967296) as u32),
    );
}

/// The bytes of a 16-bit number hold it.
proof fn lemma_be16(n: u16)
    ensures
        big_endian(be16(n)) == n,
{
    reveal_with_fuel(big_endian, 3);
    assert(be16(n).drop_last() =~= seq![(n / 256) as u8]);
    assert(seq![(n / 256) as u8].drop_last() =~= Seq::<u8>::empty());
}

/// The bytes of a 32-bit number hold it.
pub(crate) proof fn lemma_be32(n: u32)
    ensures
        big_endian(be32(n)) == n,
        be32(n).len() == 4,
{
    lemma_be16((n / 65536) as u16);
    lemma_be16((n % 65536) as u16);
    lemma_big_endian_joined(be16((n / 65536) as u16), be16((n % 65536) as u16));
}

/// The number of bytes that the length of a payload takes beyond the second byte of a frame.
pub open spec fn length_width(length: nat) -> int {
    if length <= 125 {
        0
    } else if length <= 65535 {
        2
    } else {
        8
    }
}

/// The two bytes that every header starts with, and the length of the header.
proof fn lemma_header_start(header: FrameHeader, length: nat)
    ensures
        ({
            let head = header_bytes(header, length);
            let width = length_width(length);
            &&& head.len() == if header.mask is Some {
                6 + width
            } else {
                2 + width
            }
            &&& head[0] == header.opcode.number() + header.flags.spec_bits()
            &&& head[1] == (if header.mask is Some { 128int } else { 0 }) + (if width == 0 {
                length as int
            } else if width == 2 {
                126
            } else {
                127
            })
        }),
{
}

/// The bytes of a header that hold the length of the payload, and those that hold the mask.
proof fn lemma_header_numbers(header: FrameHeader, length: nat)
    requires
        length <= u64::MAX,
    ensures
        ({
            let head = header_bytes(header, length);
            let width = length_width(length);
            &&& width == 2 ==> head.subrange(2, 4) == be16(length as u16)
            &&& width == 8 ==> head.subrange(2, 10) == be64(length as u64)
            &&& header.mask matches Some(mask) ==> head.subrange(2 + width, 6 + width) == be32(mask)
        }),
{
    let head = header_bytes(header, length);
    let width = length_width(length);
    if width == 2 {
        assert(head.subrange(2, 4) =~= be16(length as u16));
    } else if width == 8 {
        assert(head.subrange(2, 10) =~= be64(length as u64));
    }
    if let Some(mask) = header.mask {
        assert(head.subrange(2 + width, 6 + width) =~= be32(mask));
    }
}

/// A frame starts with its flags and its operation code. The length of its payload follows: in seven
/// bits, in two more bytes or in eight, whichever is the shortest, and the mask, if there is one. The
/// payload comes last, each byte of it combined with the byte of the mask that falls to it.
pub proof fn law_frame_layout(header: FrameHeader, payload: Seq<u8>)
    requires
        payload.len() <= u64::MAX,
    ensures
        ({
            let bytes = frame_bytes(header, payload);
            let length = payload.len();
            let width = length_width(length);
            let start: int = if header.mask is Some {
                6 + width
            } else {
                2 + width
            };
            let number: int = match header.opcode {
                OpCode::DataCode(DataCode::Continuation) => 0,
                OpCode::DataCode(DataCode::Text) => 1,
                OpCode::DataCode(DataCode::Binary) => 2,
                OpCode::ControlCode(ControlCode::Close) => 8,
                OpCode::ControlCode(ControlCode::Ping) => 9,
                OpCode::ControlCode(ControlCode::Pong) => 10,
            };
            &&& bytes.len() == start + length
            &&& bytes[0] == number + (if header.flags.fin { 128int } else { 0 }) + (
            if header.flags.rsv_1 { 64int } else { 0 }) + (if header.flags.rsv_2 {
                32int
            } else {
                0
            }) + (if header.flags.rsv_3 { 16int } else { 0 })
            &&& bytes[1] == (if header.mask is Some { 128int } else { 0 }) + (if width == 0 {
                length as int
            } else if width == 2 {
                126
            } else {
                127
            })
            &&& width > 0 ==> big_endian(bytes.subrange(2, 2 + width)) == length
            &&& match header.mask {
                Some(mask) => {
                    let key = bytes.subrange(2 + width, 6 + width);
                    &&& big_endian(key) == mask
                    &&& bytes.skip(start) == Seq::new(length, |i: int| payload[i] ^ key[i % 4])
                },
                None => bytes.skip(start) == payload,
            }
        }),
{
    let bytes = frame_bytes(header, payload);
    let length = payload.len();
    let width = length_width(length);
    let head = header_bytes(header, length);
    lemma_header_start(header, length);
    lemma_header_numbers(header, length);
    lemma_big_endian_of(
        length as u16,
        match header.mask {
            Some(mask) => mask,
            None => 0,
        },
        length as u64,
    );
    assert(bytes == head + unmasked(header.mask, payload));
    assert(bytes.subrange(2, 2 + width) =~= head.subrange(2, 2 + width));
    assert(bytes.skip(head.len() as int) =~= unmasked(header.mask, payload));
    if let Some(mask) = header.mask {
        let key = bytes.subrange(2 + width, 6 + width);
        assert(key =~= head.subrange(2 + width, 6 + width));
        assert(masked(mask, payload) =~= Seq::new(length, |i: int| payload[i] ^ key[i % 4]));
    }
}

/// A writer adds one frame with the payload, the code and the flags that it is given behind the bytes
/// that it holds.
pub proof fn law_frame_written(
    writer: &mut FramedWrite,
    is_server: bool,
    opcode: OpCode,
    flags: HeaderFlags,
    payload: BytesMut,
    mask: Option<u32>,
)
    requires
        call_ensures(FramedWrite::write, (writer, is_server, opcode, flags, payload), mask),
    ensures
        mask is None <==> is_server,
        final(writer).pending() == old(writer).pending() + frame_bytes(
            FrameHeader { opcode, flags, mask },
            contents(payload),
        ),
{
}

/// A decoder takes one frame off the front of a buffer, no longer masked, and leaves what follows
/// it. A server takes frames with a mask, and a client those without.
pub proof fn law_frame_decoded(
    decoder: &mut FrameDecoder,
    buffer: &mut BytesMut,
    rsv_bits: u8,
    max_size: usize,
    result: Result<DecodeResult, ReadError>,
    header: FrameHeader,
    payload: Seq<u8>,
    rest: Seq<u8>,
)
    requires
        *old(decoder) is DecodingHeader,
        header.opcode is ControlCode ==> header.flags.fin,
        negotiated(header, rsv_bits),
        payload.len() <= max_size,
        contents(*old(buffer)) == frame_bytes(header, payload) + rest,
        call_ensures(
            FrameDecoder::decode,
            (decoder, buffer, header.mask is Some, rsv_bits, max_size),
            result,
        ),
    ensures
        result matches Ok(DecodeResult::Finished(read, data)) && read == header && contents(data)
            == payload,
        contents(*final(buffer)) == rest,
        *final(decoder) is DecodingHeader,
{
    lemma_frame_round_trip(header, payload, rest, rsv_bits, max_size);
}

/// Both directions of a connection: a frame that one end writes, the other end reads.
pub proof fn law_frame_passed(
    writer: &mut FramedIo,
    code: ControlCode,
    payload: BytesMut,
    mask: Option<u32>,
    reader: &mut FramedIo,
    read_into: &mut BytesMut,
    result: Result<Progress, ReadError>,
)
    requires
        code is Ping || code is Pong,
        contents(payload).len() <= 125,
        contents(payload).len() <= old(reader).parts().max_message_size,
        call_ensures(
            FramedIo::write,
            (
                writer,
                OpCode::ControlCode(code),
                HeaderFlags { fin: true, rsv_1: false, rsv_2: false, rsv_3: false },
                payload,
            ),
            mask,
        ),
        old(reader).parts().flags.role != old(writer).parts().flags.role,
        old(reader).state().position is DecodingHeader,
        old(reader).state().buffered == final(writer).pending().skip(
            old(writer).pending().len() as int,
        ),
        call_ensures(FramedIo::read_next, (reader, read_into), result),
    ensures
        result matches Ok(Progress::Item(item)) && match item {
            Item::Ping(data) => code is Ping && contents(data) == contents(payload),
            Item::Pong(data) => code is Pong && contents(data) == contents(payload),
            _ => false,
        },
        contents(*final(read_into)) == contents(*old(read_into)),
        final(reader).state().buffered.len() == 0,
{
    let header = control_header(code, mask);
    let sent = final(writer).pending().skip(old(writer).pending().len() as int);
    assert(sent =~= frame_bytes(header, contents(payload)) + Seq::<u8>::empty());
    lemma_control_between_fragments(
        old(reader).parts().flags,
        code,
        mask,
        contents(payload),
        Seq::empty(),
        old(reader).parts().max_message_size,
    );
    assert(contents(*old(read_into)) + Seq::<u8>::empty() =~= contents(*old(read_into)));
}

/// A close frame with a reason holds the number of its code and its description.
pub proof fn law_close_frame_written(
    io: &mut FramedIo,
    reason: CloseReason,
    mask: Option<u32>,
)
    requires
        call_ensures(FramedIo::write_close, (io, reason), mask),
    ensures
        mask is None <==> old(io).parts().flags.role,
        final(io).pending() == old(io).pending() + frame_bytes(
            plain_header(OpCode::ControlCode(ControlCode::Close), mask),
            seq![(reason@.code.number() / 256) as u8, (reason@.code.number() % 256) as u8]
                + match reason@.description {
                Some(description) => encode_utf8(description),
                None => Seq::empty(),
            },
        ),
{
    assert(close_payload(reason@) =~= seq![
        (reason@.code.number() / 256) as u8,
        (reason@.code.number() % 256) as u8,
    ] + match reason@.description {
        Some(description) => encode_utf8(description),
        None => Seq::empty(),
    });
}

/// One end of a connection that is opened has received the bytes that it is given, and nothing is
/// to be sent.
pub proof fn law_io_opened(
    read_buffer: BytesMut,
    role: Role,
    max_size: usize,
    bits: RsvBits,
    io: FramedIo,
)
    requires
        call_ensures(FramedIo::new, (read_buffer, role, max_size, bits), io),
    ensures
        io.state().buffered == contents(read_buffer),
        io.state().position is DecodingHeader,
        io.state().flags.role <==> role is Server,
        io.state().flags.rsv1 == bits.rsv1,
        io.state().flags.rsv2 == bits.rsv2,
        io.state().flags.rsv3 == bits.rsv3,
        !io.state().flags.r_cont,
        io.parts().max_message_size == max_size,
        io.pending().len() == 0,
{
}

} // verus!
