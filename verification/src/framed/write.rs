//! Writing of frames.

use crate::buffer::{as_mut_slice, as_slice, be16, contents, put, put_u16, put_u32, put_u64};
use crate::framed::unmasked;
use crate::protocol::{
    apply_mask, header_bytes, lemma_op_code_round_trip, CloseReason, CloseReasonView, ControlCode,
    FrameHeader, HeaderFlags, OpCode,
};
use bytes::BytesMut;
use nanorand::{WyRand, RNG};
use vstd::prelude::*;
use vstd::utf8::encode_utf8;

verus! {

/// `nanorand::WyRand`, of which nothing is known.
#[verifier::external_type_specification]
#[verifier::external_body]
pub struct ExWyRand(WyRand);

/// `WyRand::default` gives a generator that is seeded by the system. Nothing is claimed of it.
#[verifier::external_body]
fn seeded() -> (rand: WyRand) {
    WyRand::default()
}

/// `RNG::generate` on a `WyRand` gives the generator's next number. Nothing is claimed of it.
#[verifier::external_body]
fn next_mask(rand: &mut WyRand) -> (mask: u32) {
    rand.generate()
}

/// A frame: its header, then its payload, masked as the header says.
pub open spec fn frame_bytes(header: FrameHeader, payload: Seq<u8>) -> Seq<u8> {
    header_bytes(header, payload.len()) + unmasked(header.mask, payload)
}

/// Writes the header of a frame whose payload has `length` bytes.
pub fn encode_header(write_buffer: &mut BytesMut, header: FrameHeader, length: usize)
    ensures
        contents(*final(write_buffer)) == contents(*old(write_buffer)) + header_bytes(
            header,
            length as nat,
        ),
{
    let ghost before = contents(*write_buffer);
    proof {
        lemma_op_code_round_trip(header.opcode);
    }
    let first: u8 = header.flags.bits() + u8::from(header.opcode);
    let masked: u8 = if header.mask.is_some() {
        128
    } else {
        0
    };
    if length < 126 {
        let start: [u8; 2] = [first, masked + length as u8];
        write_buffer.extend_from_slice(&start);
    } else if length <= 65535 {
        let start: [u8; 2] = [first, masked + 126];
        write_buffer.extend_from_slice(&start);
        put_u16(write_buffer, length as u16);
    } else {
        let start: [u8; 2] = [first, masked + 127];
        write_buffer.extend_from_slice(&start);
        put_u64(write_buffer, length as u64);
    }
    if let Some(mask) = header.mask {
        put_u32(write_buffer, mask);
    }
    assert(contents(*write_buffer) =~= before + header_bytes(header, length as nat));
}

/// Writes frames, with a new mask for each where the peer expects one.
pub struct FrameEncoder {
    rand: WyRand,
}

impl Default for FrameEncoder {
    fn default() -> FrameEncoder {
        FrameEncoder { rand: seeded() }
    }
}

impl FrameEncoder {
    /// Writes a frame's header to `write_buffer` and masks its payload in place. A server does not
    /// mask. Returns the mask, which is a number that nothing is claimed of.
    pub fn encode_frame(
        &mut self,
        write_buffer: &mut BytesMut,
        is_server: bool,
        opcode: OpCode,
        flags: HeaderFlags,
        payload: &mut [u8],
    ) -> (mask: Option<u32>)
        ensures
            mask is None <==> is_server,
            final(payload)@ == unmasked(mask, old(payload)@),
            contents(*final(write_buffer)) == contents(*old(write_buffer)) + header_bytes(
                FrameHeader { opcode, flags, mask },
                old(payload)@.len(),
            ),
    {
        let mask = if is_server {
            None
        } else {
            let mask: u32 = next_mask(&mut self.rand);
            apply_mask(mask, payload);
            Some(mask)
        };
        encode_header(write_buffer, FrameHeader { opcode, flags, mask }, payload.len());
        mask
    }
}

/// What the payload of a close frame with a reason is.
pub open spec fn close_payload(reason: CloseReasonView) -> Seq<u8> {
    match reason.description {
        Some(description) => be16(reason.code.number()) + encode_utf8(description),
        None => be16(reason.code.number()),
    }
}

/// The payload of a close frame with a reason.
pub fn encode_reason(reason: CloseReason) -> (payload: BytesMut)
    ensures
        contents(payload) == close_payload(reason@),
{
    let mut payload = BytesMut::new();
    put_u16(&mut payload, u16::from(reason.code));
    assert(contents(payload) =~= be16(reason.code.number()));
    if let Some(description) = reason.description {
        payload.extend_from_slice(description.as_str().as_bytes());
    }
    payload
}

/// The bytes that are to be sent.
pub struct FramedWrite {
    write_buffer: BytesMut,
    encoder: FrameEncoder,
}

impl Default for FramedWrite {
    fn default() -> (writer: FramedWrite)
        ensures
            writer.pending() == Seq::<u8>::empty(),
    {
        FramedWrite { write_buffer: BytesMut::new(), encoder: FrameEncoder::default() }
    }
}

impl FramedWrite {
    /// The bytes that are to be sent, in order.
    pub closed spec fn pending(self) -> Seq<u8> {
        contents(self.write_buffer)
    }

    /// The bytes that are to be sent, in order.
    pub fn unsent(&self) -> (bytes: &[u8])
        ensures
            bytes@ == self.pending(),
    {
        as_slice(&self.write_buffer)
    }

    /// Notes that the bytes have been sent.
    pub fn sent(&mut self)
        ensures
            final(self).pending() == Seq::<u8>::empty(),
    {
        self.write_buffer.clear();
    }

    /// Adds a frame to the bytes that are to be sent. A server does not mask. Returns the mask.
    pub fn write(
        &mut self,
        is_server: bool,
        opcode: OpCode,
        flags: HeaderFlags,
        payload: BytesMut,
    ) -> (mask: Option<u32>)
        ensures
            mask is None <==> is_server,
            final(self).pending() == old(self).pending() + frame_bytes(
                FrameHeader { opcode, flags, mask },
                contents(payload),
            ),
    {
        let ghost before = self.pending();
        let ghost data = contents(payload);
        let mut payload = payload;
        let mask = self.encoder.encode_frame(
            &mut self.write_buffer,
            is_server,
            opcode,
            flags,
            as_mut_slice(&mut payload),
        );
        put(&mut self.write_buffer, payload);
        assert(self.pending() =~= before + frame_bytes(FrameHeader { opcode, flags, mask }, data));
        mask
    }

    /// Adds a close frame with a reason to the bytes that are to be sent. Returns the mask.
    pub fn write_close(&mut self, is_server: bool, reason: CloseReason) -> (mask: Option<u32>)
        ensures
            mask is None <==> is_server,
            final(self).pending() == old(self).pending() + frame_bytes(
                FrameHeader {
                    opcode: OpCode::ControlCode(ControlCode::Close),
                    flags: HeaderFlags { fin: true, rsv_1: false, rsv_2: false, rsv_3: false },
                    mask,
                },
                close_payload(reason@),
            ),
    {
        let payload = encode_reason(reason);
        self.write(
            is_server,
            OpCode::ControlCode(ControlCode::Close),
            HeaderFlags::final_frame(),
            payload,
        )
    }
}

} // verus!
