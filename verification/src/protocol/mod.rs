//! The vocabulary of the WebSocket protocol.

mod close;
mod flags;
mod frame;
mod mask;
mod message;
mod opcode;

pub use close::{
    lemma_close_code_of_number, lemma_close_code_round_trip, number_of, CloseCode,
    CloseCodeParseErr, CloseReason, CloseReasonView,
};
pub use flags::{bit_high, lemma_flags_of_first_byte, weight, HeaderFlags};
pub use frame::{
    extended_width, header_bytes, header_of, lemma_header_extended, lemma_header_prefix,
    lemma_header_round_trip, lemma_mask_decides, lemma_unknown_bits_rejected, payload_length,
    reserved_high, short_length, start_fault, u16_at, u32_at, u64_at, FrameHeader, HeaderRead,
};
pub use mask::{apply_mask, lemma_masking_twice, masked};
pub use message::{Message, MessageType, MessageView, PayloadType, Role, WebSocketConfig};
pub use opcode::{
    lemma_op_code_of_number, lemma_op_code_round_trip, ControlCode, DataCode, OpCode,
    OpCodeParseErr,
};
