//! Both directions of a connection.

use crate::buffer::contents;
use crate::ext::NoExtDecoder;
use crate::framed::{
    close_payload, frame_bytes, read_next, read_run, reading, CodecFlags, FramedRead, FramedWrite,
    Progress, ProgressView, ReadError, ReadFailure, ReadState,
};
use crate::protocol::{CloseReason, ControlCode, FrameHeader, HeaderFlags, OpCode, Role};
use crate::ratchet_ext::RsvBits;
use bytes::BytesMut;
use vstd::pervasive::unreached;
use vstd::prelude::*;

verus! {

/// Reads and writes frames on behalf of one end of a connection.
pub struct FramedIo {
    reader: FramedRead,
    writer: FramedWrite,
    flags: CodecFlags,
    max_size: usize,
}

/// The parts of a `FramedIo`.
pub struct FramedIoParts {
    /// The reading side.
    pub reader: FramedRead,
    /// The writing side.
    pub writer: FramedWrite,
    /// The state that both sides depend on.
    pub flags: CodecFlags,
    /// The longest payload that is accepted.
    pub max_message_size: usize,
}

impl FramedIo {
    /// The parts.
    pub closed spec fn parts(self) -> FramedIoParts {
        FramedIoParts {
            reader: self.reader,
            writer: self.writer,
            flags: self.flags,
            max_message_size: self.max_size,
        }
    }

    /// The reader keeps its headers.
    pub open spec fn wf(self) -> bool {
        self.parts().reader.wf()
    }

    /// The state that reading depends on.
    pub open spec fn state(self) -> ReadState {
        reading(self.parts().flags, self.parts().reader)
    }

    /// The bytes that are to be sent, in order.
    pub open spec fn pending(self) -> Seq<u8> {
        self.parts().writer.pending()
    }

    /// One end of a connection that has just been opened. The bytes in `read_buffer` have already
    /// been received, and the reserved bits in `bits` have been negotiated.
    pub fn new(read_buffer: BytesMut, role: Role, max_size: usize, bits: RsvBits) -> (io: FramedIo)
        ensures
            io.wf(),
            io.parts().flags == CodecFlags::opened(role, bits),
            io.parts().max_message_size == max_size,
            io.state().position is DecodingHeader,
            io.state().buffered == contents(read_buffer),
            io.pending() == Seq::<u8>::empty(),
    {
        FramedIo {
            reader: FramedRead::new(read_buffer),
            writer: FramedWrite::default(),
            flags: CodecFlags::new(role, bits),
            max_size,
        }
    }

    /// Puts the parts together.
    pub fn from_parts(parts: FramedIoParts) -> (io: FramedIo)
        ensures
            io.parts() == parts,
    {
        FramedIo {
            reader: parts.reader,
            writer: parts.writer,
            flags: parts.flags,
            max_size: parts.max_message_size,
        }
    }

    /// Takes the parts apart.
    pub fn into_parts(self) -> (parts: FramedIoParts)
        ensures
            parts == self.parts(),
    {
        FramedIoParts {
            reader: self.reader,
            writer: self.writer,
            flags: self.flags,
            max_message_size: self.max_size,
        }
    }

    /// Adds bytes that have been received.
    pub fn supply(&mut self, bytes: &[u8])
        requires
            old(self).wf(),
        ensures
            final(self).wf(),
            final(self).state() == (ReadState {
                buffered: old(self).state().buffered + bytes@,
                ..old(self).state()
            }),
            final(self).parts().writer == old(self).parts().writer,
            final(self).parts().max_message_size == old(self).parts().max_message_size,
    {
        self.reader.supply(bytes);
    }

    /// The bytes that are to be sent, in order.
    pub fn unsent(&self) -> (bytes: &[u8])
        ensures
            bytes@ == self.pending(),
    {
        self.writer.unsent()
    }

    /// Notes that the bytes have been sent.
    pub fn sent(&mut self)
        ensures
            final(self).pending() == Seq::<u8>::empty(),
            final(self).parts().reader == old(self).parts().reader,
            final(self).parts().flags == old(self).parts().flags,
            final(self).parts().max_message_size == old(self).parts().max_message_size,
    {
        self.writer.sent();
    }

    /// Adds a frame to the bytes that are to be sent. A server does not mask. Returns the mask.
    pub fn write(&mut self, opcode: OpCode, header_flags: HeaderFlags, payload: BytesMut) -> (mask:
        Option<u32>)
        ensures
            mask is None <==> old(self).parts().flags.role,
            final(self).pending() == old(self).pending() + frame_bytes(
                FrameHeader { opcode, flags: header_flags, mask },
                contents(payload),
            ),
            final(self).parts().reader == old(self).parts().reader,
            final(self).parts().flags == old(self).parts().flags,
            final(self).parts().max_message_size == old(self).parts().max_message_size,
    {
        self.writer.write(self.flags.role, opcode, header_flags, payload)
    }

    /// Reads until there is something for the caller or until bytes are missing. The payload of
    /// data frames is added to `read_into`.
    pub fn read_next(&mut self, read_into: &mut BytesMut) -> (result: Result<Progress, ReadError>)
        requires
            old(self).wf(),
        ensures
            final(self).wf(),
            ({
                let run = read_run(old(self).state(), old(self).parts().max_message_size);
                &&& match result {
                    Ok(Progress::Need(count)) => run.outcome == ProgressView::Need(count),
                    Ok(Progress::Item(item)) => run.outcome == ProgressView::Item(item@),
                    Err(e) => run.outcome == ProgressView::Fail(e@),
                }
                &&& final(self).state() == run.state
                &&& contents(*final(read_into)) == contents(*old(read_into)) + run.data
            }),
            final(self).parts().writer == old(self).parts().writer,
            final(self).parts().max_message_size == old(self).parts().max_message_size,
    {
        let mut extension: Option<NoExtDecoder> = None;
        match read_next(
            &mut self.reader,
            &mut self.flags,
            self.max_size,
            read_into,
            &mut extension,
        ) {
            Ok(progress) => Ok(progress),
            Err(ReadFailure::Read(e)) => Err(e),
            Err(ReadFailure::Extension(_)) => unreached(),
        }
    }

    /// Adds a close frame with a reason to the bytes that are to be sent. Returns the mask.
    pub fn write_close(&mut self, reason: CloseReason) -> (mask: Option<u32>)
        ensures
            mask is None <==> old(self).parts().flags.role,
            final(self).pending() == old(self).pending() + frame_bytes(
                FrameHeader {
                    opcode: OpCode::ControlCode(ControlCode::Close),
                    flags: HeaderFlags { fin: true, rsv_1: false, rsv_2: false, rsv_3: false },
                    mask,
                },
                close_payload(reason@),
            ),
            final(self).parts().reader == old(self).parts().reader,
            final(self).parts().flags == old(self).parts().flags,
            final(self).parts().max_message_size == old(self).parts().max_message_size,
    {
        self.writer.write_close(self.flags.role, reason)
    }
}

} // verus!
