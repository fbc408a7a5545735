//! Frame headers.

use crate::buffer::{be16, be32, be64};
use crate::errors::ProtocolError;
use crate::protocol::flags::{bit_high, lemma_flags_of_first_byte, HeaderFlags};
use crate::protocol::opcode::{lemma_op_code_round_trip, OpCode, OpCodeParseErr};
use vstd::prelude::*;

verus! {

/// The header of a frame, without the length of its payload.
#[derive(Copy, Clone, Debug, PartialEq, Eq, Structural)]
pub struct FrameHeader {
    /// What the frame carries.
    pub opcode: OpCode,
    /// The flags of the frame.
    pub flags: HeaderFlags,
    /// The key that the payload is masked with.
    pub mask: Option<u32>,
}

/// What reading a header came to.
#[derive(Copy, Clone, Debug, PartialEq, Eq, Structural)]
pub enum HeaderRead {
    /// A header, its length and the length of the payload that follows it.
    Complete(FrameHeader, usize, usize),
    /// The number of bytes to wait for.
    Incomplete(usize),
}

/// The 16-bit big-endian number at `i`.
pub open spec fn u16_at(bytes: Seq<u8>, i: int) -> int {
    bytes[i] * 256 + bytes[i + 1]
}

/// The 32-bit big-endian number at `i`.
pub open spec fn u32_at(bytes: Seq<u8>, i: int) -> int {
    u16_at(bytes, i) * 65536 + u16_at(bytes, i + 2)
}

/// The 64-bit big-endian number at `i`.
pub open spec fn u64_at(bytes: Seq<u8>, i: int) -> int {
    u32_at(bytes, i) * 4294967296 + u32_at(bytes, i + 4)
}

/// The number of bytes that an extended payload length takes, given the short length.
pub open spec fn extended_width(short: int) -> int {
    if short == 126 {
        2
    } else if short == 127 {
        8
    } else {
        0
    }
}

/// The payload length of a header whose short length is given.
pub open spec fn payload_length(source: Seq<u8>, short: int) -> int {
    if short == 126 {
        u16_at(source, 2)
    } else if short == 127 {
        u64_at(source, 2)
    } else {
        short
    }
}

/// Whether one of the reserved bits named by `rsv_bits` is high in the first byte of a frame.
pub open spec fn reserved_high(first: u8, rsv_bits: u8) -> bool {
    ||| bit_high(first, 64) && bit_high(rsv_bits, 64)
    ||| bit_high(first, 32) && bit_high(rsv_bits, 32)
    ||| bit_high(first, 16) && bit_high(rsv_bits, 16)
}

/// What the two bytes that start every header are rejected for, if anything.
pub open spec fn start_fault(first: u8, second: u8, is_server: bool, rsv_bits: u8) -> Option<
    ProtocolError,
> {
    match OpCode::of_number(first % 16) {
        Err(e) => Some(ProtocolError::OpCode(e)),
        Ok(opcode) => if opcode is ControlCode && !bit_high(first, 128) {
            Some(ProtocolError::FragmentedControl)
        } else if reserved_high(first, rsv_bits) {
            Some(ProtocolError::UnknownExtension)
        } else if is_server && second < 128 {
            Some(ProtocolError::UnmaskedFrame)
        } else if !is_server && second >= 128 {
            Some(ProtocolError::MaskedFrame)
        } else {
            None
        },
    }
}

/// What the header at the start of `source` is.
pub open spec fn header_of(source: Seq<u8>, is_server: bool, rsv_bits: u8, max_size: usize) -> Result<
    HeaderRead,
    ProtocolError,
> {
    let first = source[0];
    let short = (source[1] % 128) as int;
    let width = extended_width(short);
    let length = payload_length(source, short);
    let header_len: int = if is_server {
        2 + width + 4
    } else {
        2 + width
    };
    if source.len() < 2 {
        Ok(HeaderRead::Incomplete((2 - source.len()) as usize))
    } else if start_fault(first, source[1], is_server, rsv_bits) is Some {
        Err(start_fault(first, source[1], is_server, rsv_bits)->0)
    } else if source.len() < 2 + width {
        Ok(HeaderRead::Incomplete((2 + width - source.len()) as usize))
    } else if length > max_size {
        Err(ProtocolError::FrameOverflow)
    } else if source.len() < header_len {
        Ok(HeaderRead::Incomplete((header_len - source.len()) as usize))
    } else {
        Ok(
            HeaderRead::Complete(
                FrameHeader {
                    opcode: OpCode::of_number(first % 16)->Ok_0,
                    flags: HeaderFlags::spec_from_bits(first),
                    mask: if is_server {
                        Some(u32_at(source, 2 + width) as u32)
                    } else {
                        None
                    },
                },
                header_len as usize,
                length as usize,
            ),
        )
    }
}

/// The header of a frame with a payload of `length` bytes.
pub open spec fn header_bytes(header: FrameHeader, length: nat) -> Seq<u8> {
    let first = (header.flags.spec_bits() + header.opcode.number()) as u8;
    let masked: int = if header.mask is Some {
        128
    } else {
        0
    };
    let start = if length < 126 {
        seq![first, (masked + length) as u8]
    } else if length <= 65535 {
        seq![first, (masked + 126) as u8] + be16(length as u16)
    } else {
        seq![first, (masked + 127) as u8] + be64(length as u64)
    };
    match header.mask {
        Some(mask) => start + be32(mask),
        None => start,
    }
}

impl FrameHeader {
    /// Reads the header at the start of `source`. Masks are required of clients and refused from
    /// servers, the reserved bits in `rsv_bits` must be low, control frames must be final and the
    /// payload may have at most `max_size` bytes.
    pub fn read_from(
        source: &[u8],
        is_server: bool,
        rsv_bits: u8,
        max_size: usize,
    ) -> (read: Result<HeaderRead, ProtocolError>)
        ensures
            read == header_of(source@, is_server, rsv_bits, max_size),
    {
        let available: usize = source.len();
        if available < 2 {
            return Ok(HeaderRead::Incomplete(2 - available));
        }
        let first: u8 = source[0];
        let second: u8 = source[1];
        let flags = HeaderFlags::from_bits_truncate(first);
        let opcode = match OpCode::try_from(first % 16) {
            Ok(opcode) => opcode,
            Err(e) => return Err(ProtocolError::OpCode(e)),
        };
        if opcode.is_control() && !flags.is_fin() {
            return Err(ProtocolError::FragmentedControl);
        }
        let unknown = HeaderFlags::from_bits_truncate(rsv_bits);
        if flags.rsv_1 && unknown.rsv_1 || flags.rsv_2 && unknown.rsv_2 || flags.rsv_3
            && unknown.rsv_3 {
            return Err(ProtocolError::UnknownExtension);
        }
        let masked = second >= 128;
        if is_server && !masked {
            return Err(ProtocolError::UnmaskedFrame);
        }
        if !is_server && masked {
            return Err(ProtocolError::MaskedFrame);
        }
        let short: u8 = second % 128;
        let width: usize = if short == 126 {
            2
        } else if short == 127 {
            8
        } else {
            0
        };
        if available < 2 + width {
            return Ok(HeaderRead::Incomplete(2 + width - available));
        }
        let length: u64 = if short == 126 {
            read_u16(source, 2) as u64
        } else if short == 127 {
            read_u64(source, 2)
        } else {
            short as u64
        };
        if length > max_size as u64 {
            return Err(ProtocolError::FrameOverflow);
        }
        let header_len: usize = if masked {
            2 + width + 4
        } else {
            2 + width
        };
        if available < header_len {
            return Ok(HeaderRead::Incomplete(header_len - available));
        }
        let mask = if masked {
            Some(read_u32(source, 2 + width))
        } else {
            None
        };
        Ok(HeaderRead::Complete(FrameHeader { opcode, flags, mask }, header_len, length as usize))
    }
}

/// Reads the 16-bit big-endian number at `i`.
fn read_u16(source: &[u8], i: usize) -> (n: u16)
    requires
        i + 2 <= source@.len(),
    ensures
        n == u16_at(source@, i as int),
{
    source[i] as u16 * 256 + source[i + 1] as u16
}

/// Reads the 32-bit big-endian number at `i`.
fn read_u32(source: &[u8], i: usize) -> (n: u32)
    requires
        i + 4 <= source@.len(),
    ensures
        n == u32_at(source@, i as int),
{
    assert(source.len() <= usize::MAX);
    read_u16(source, i) as u32 * 65536 + read_u16(source, i + 2) as u32
}

/// Reads the 64-bit big-endian number at `i`.
fn read_u64(source: &[u8], i: usize) -> (n: u64)
    requires
        i + 8 <= source@.len(),
    ensures
        n == u64_at(source@, i as int),
{
    assert(source.len() <= usize::MAX);
    read_u32(source, i) as u64 * 4294967296 + read_u32(source, i + 4) as u64
}

/// The number that was written as four big-endian bytes is read back.
proof fn lemma_u32_at(n: u32, bytes: Seq<u8>, i: int)
    requires
        0 <= i,
        i + 4 <= bytes.len(),
        bytes.subrange(i, i + 4) == be32(n),
    ensures
        u32_at(bytes, i) == n,
{
    let s = bytes.subrange(i, i + 4);
    assert(s[0] == bytes[i] && s[1] == bytes[i + 1] && s[2] == bytes[i + 2] && s[3] == bytes[i
        + 3]);
}

/// The number that was written as eight big-endian bytes is read back.
proof fn lemma_u64_at(n: u64, bytes: Seq<u8>, i: int)
    requires
        0 <= i,
        i + 8 <= bytes.len(),
        bytes.subrange(i, i + 8) == be64(n),
    ensures
        u64_at(bytes, i) == n,
{
    let s = bytes.subrange(i, i + 8);
    assert(bytes.subrange(i, i + 4) =~= s.subrange(0, 4));
    assert(s.subrange(0, 4) =~= be32((n / 4294967296) as u32));
    lemma_u32_at((n / 4294967296) as u32, bytes, i);
    assert(bytes.subrange(i + 4, i + 8) =~= s.subrange(4, 8));
    assert(s.subrange(4, 8) =~= be32((n % 4294967296) as u32));
    lemma_u32_at((n % 4294967296) as u32, bytes, i + 4);
}

/// The two bytes that start a written header are not rejected.
proof fn lemma_start_accepted(header: FrameHeader, first: u8, second: u8, rsv_bits: u8)
    requires
        first == header.flags.spec_bits() + header.opcode.number(),
        second >= 128 <==> header.mask is Some,
        header.opcode is ControlCode ==> header.flags.fin,
        !(header.flags.rsv_1 && bit_high(rsv_bits, 64)),
        !(header.flags.rsv_2 && bit_high(rsv_bits, 32)),
        !(header.flags.rsv_3 && bit_high(rsv_bits, 16)),
    ensures
        start_fault(first, second, header.mask is Some, rsv_bits) is None,
        OpCode::of_number(first % 16) == Ok::<OpCode, OpCodeParseErr>(header.opcode),
        HeaderFlags::spec_from_bits(first) == header.flags,
{
    lemma_op_code_round_trip(header.opcode);
    lemma_flags_of_first_byte(header.flags, header.opcode.number(), first);
}

/// The short length in the second byte of a frame with a payload of `length` bytes.
pub open spec fn short_length(length: nat) -> int {
    if length < 126 {
        length as int
    } else if length <= 65535 {
        126
    } else {
        127
    }
}

/// What the parts of a written header hold.
proof fn lemma_header_parts(header: FrameHeader, length: nat, rest: Seq<u8>)
    requires
        length <= u64::MAX,
    ensures
        ({
            let bytes = header_bytes(header, length);
            let source = bytes + rest;
            let width = extended_width(short_length(length));
            let masked: int = if header.mask is Some {
                128
            } else {
                0
            };
            &&& bytes.len() == if header.mask is Some {
                6 + width
            } else {
                2 + width
            }
            &&& source[0] == header.flags.spec_bits() + header.opcode.number()
            &&& source[1] == masked + short_length(length)
            &&& payload_length(source, short_length(length)) == length
            &&& header.mask is Some ==> u32_at(source, 2 + width) == header.mask->0
        }),
{
    let bytes = header_bytes(header, length);
    let source = bytes + rest;
    let width = extended_width(short_length(length));
    lemma_op_code_round_trip(header.opcode);
    assert(source[0] == bytes[0] && source[1] == bytes[1]);
    if width == 2 {
        assert(source[2] == be16(length as u16)[0]);
        assert(source[3] == be16(length as u16)[1]);
    } else if width == 8 {
        assert(source.subrange(2, 10) =~= be64(length as u64));
        lemma_u64_at(length as u64, source, 2);
    }
    if header.mask is Some {
        assert(source.subrange(2 + width, 6 + width) =~= be32(header.mask->0));
        lemma_u32_at(header.mask->0, source, 2 + width);
    }
}

/// A header that was written is read back, whatever follows it: by a server if the frame is
/// masked and by a client if it is not, provided that the header's reserved bits are allowed and
/// the payload is not longer than permitted.
pub proof fn lemma_header_round_trip(
    header: FrameHeader,
    length: nat,
    rest: Seq<u8>,
    rsv_bits: u8,
    max_size: usize,
)
    requires
        header.opcode is ControlCode ==> header.flags.fin,
        !(header.flags.rsv_1 && bit_high(rsv_bits, 64)),
        !(header.flags.rsv_2 && bit_high(rsv_bits, 32)),
        !(header.flags.rsv_3 && bit_high(rsv_bits, 16)),
        length <= max_size,
    ensures
        header_of(header_bytes(header, length) + rest, header.mask is Some, rsv_bits, max_size)
            == Ok::<HeaderRead, ProtocolError>(
            HeaderRead::Complete(
                header,
                header_bytes(header, length).len() as usize,
                length as usize,
            ),
        ),
{
    lemma_header_parts(header, length, rest);
    let source = header_bytes(header, length) + rest;
    lemma_start_accepted(header, source[0], source[1], rsv_bits);
    assert(source[1] % 128 == short_length(length));
}

/// A reader that has a part of a header is told to wait for some of the missing bytes, and never
/// for more than the header takes. What follows the header does not matter.
pub proof fn lemma_header_prefix(
    whole: Seq<u8>,
    count: int,
    is_server: bool,
    rsv_bits: u8,
    max_size: usize,
)
    requires
        0 <= count <= whole.len(),
    ensures
        header_of(whole, is_server, rsv_bits, max_size) matches Ok(
            HeaderRead::Complete(header, header_len, payload_len),
        ) ==> match header_of(whole.take(count), is_server, rsv_bits, max_size) {
            Ok(HeaderRead::Complete(h, hl, pl)) => header_len <= count && h == header && hl
                == header_len && pl == payload_len,
            Ok(HeaderRead::Incomplete(missing)) => count < header_len && 0 < missing <= header_len
                - count,
            Err(_) => false,
        },
{
    let part = whole.take(count);
    if count >= 2 {
        assert(part[0] == whole[0] && part[1] == whole[1]);
    }
}

/// A header that is complete is not changed by what follows it, and neither is its rejection.
pub proof fn lemma_header_extended(
    source: Seq<u8>,
    more: Seq<u8>,
    is_server: bool,
    rsv_bits: u8,
    max_size: usize,
)
    ensures
        !(header_of(source, is_server, rsv_bits, max_size) matches Ok(HeaderRead::Incomplete(_)))
            ==> header_of(source + more, is_server, rsv_bits, max_size) == header_of(
            source,
            is_server,
            rsv_bits,
            max_size,
        ),
{
    let whole = source + more;
    if source.len() >= 2 {
        assert(whole[0] == source[0] && whole[1] == source[1]);
    }
}

/// A frame with a reserved bit that has not been negotiated is rejected, unless it is rejected for
/// its operation code or for being a fragment of a control frame.
pub proof fn lemma_unknown_bits_rejected(
    source: Seq<u8>,
    is_server: bool,
    rsv_bits: u8,
    max_size: usize,
)
    requires
        source.len() >= 2,
        reserved_high(source[0], rsv_bits),
    ensures
        header_of(source, is_server, rsv_bits, max_size) matches Err(e) && (e
            == ProtocolError::UnknownExtension || e == ProtocolError::FragmentedControl || e
            is OpCode),
{
}

/// A server rejects every frame without a mask, and a client every frame with one.
pub proof fn lemma_mask_decides(source: Seq<u8>, is_server: bool, rsv_bits: u8, max_size: usize)
    requires
        source.len() >= 2,
        is_server != (source[1] >= 128),
    ensures
        header_of(source, is_server, rsv_bits, max_size) is Err,
{
}

} // verus!
