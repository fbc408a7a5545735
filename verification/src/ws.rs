//! WebSockets.

use crate::buffer::contents;
use crate::errors::{close_fault, worded, Cause, CloseCause, Error, ErrorKind, Failure};
use crate::framed::{
    close_payload, CodecFlags, FramedIo, FramedIoParts, FramedRead, ReadState, Reception,
};
use crate::protocol::{
    CloseReason, ControlCode, HeaderFlags, OpCode, PayloadType, Role, WebSocketConfig,
};
use crate::ratchet_ext::{Extension, RsvBits, SplittableExtension};
use crate::session::{
    adds_frame, close_sent, closes_for, fail, only_fin, receive, receives, written, CloseState,
    ReadStep, WriteHalf, WriteHalfView,
};
use crate::identity::Connections;
use crate::split::{split, splits_off, Receiver, Sender, Shared};
use bytes::BytesMut;
use vstd::prelude::*;

verus! {

/// One end of a WebSocket connection.
pub struct WebSocket<E> {
    flags: CodecFlags,
    max_message_size: usize,
    reader: FramedRead,
    write_half: WriteHalf,
    extension: Option<E>,
    close_state: CloseState,
}

impl<E> WebSocket<E> {
    /// The parts that read and write frames.
    pub closed spec fn framed_parts(self) -> FramedIoParts {
        FramedIoParts {
            reader: self.reader,
            writer: self.write_half.parts().0,
            flags: self.flags,
            max_message_size: self.max_message_size,
        }
    }

    /// The payload of the last ping.
    pub closed spec fn pinged(self) -> BytesMut {
        self.write_half.parts().1
    }

    /// What is to be sent, and the payload of the last ping.
    pub open spec fn half(self) -> WriteHalfView {
        WriteHalfView {
            pending: self.framed_parts().writer.pending(),
            pinged: contents(self.pinged()),
        }
    }

    /// The negotiated extension.
    pub closed spec fn extended(self) -> Option<E> {
        self.extension
    }

    /// How far the closing handshake has come.
    pub closed spec fn state(self) -> CloseState {
        self.close_state
    }

    /// The reader keeps its headers.
    pub open spec fn wf(self) -> bool {
        self.framed_parts().reader.wf()
    }

    /// The state that reading depends on.
    pub open spec fn reading(self) -> ReadState {
        crate::framed::reading(self.framed_parts().flags, self.framed_parts().reader)
    }

    /// What reading changes, with what has been read.
    pub open spec fn reception(self, read_buffer: BytesMut) -> Reception<E> {
        crate::framed::reception(
            self.framed_parts().flags,
            self.framed_parts().reader,
            read_buffer,
            self.extended(),
        )
    }

    /// Puts a WebSocket together.
    pub fn from_parts(
        framed: FramedIo,
        control_buffer: BytesMut,
        extension: Option<E>,
        close_state: CloseState,
    ) -> (socket: WebSocket<E>)
        ensures
            socket.framed_parts() == framed.parts(),
            socket.pinged() == control_buffer,
            socket.half() == (WriteHalfView {
                pending: framed.pending(),
                pinged: contents(control_buffer),
            }),
            socket.extended() == extension,
            socket.state() == close_state,
    {
        let FramedIoParts { reader, writer, flags, max_message_size } = framed.into_parts();
        WebSocket {
            flags,
            max_message_size,
            reader,
            write_half: WriteHalf::new(writer, control_buffer),
            extension,
            close_state,
        }
    }

    /// The role of this WebSocket.
    pub fn role(&self) -> (role: Role)
        ensures
            role is Server <==> self.framed_parts().flags.role,
    {
        self.flags.endpoint()
    }

    /// Whether this WebSocket is closed.
    pub fn is_closed(&self) -> (closed: bool)
        ensures
            closed == (self.state() is Closed),
    {
        matches!(self.close_state, CloseState::Closed)
    }

    /// Whether this WebSocket is neither closing nor closed.
    pub fn is_open(&self) -> (open: bool)
        ensures
            open == (self.state() is NotClosed),
    {
        matches!(self.close_state, CloseState::NotClosed)
    }

    /// The bytes that are to be sent, in order.
    pub fn unsent(&self) -> (bytes: &[u8])
        ensures
            bytes@ == self.half().pending,
    {
        self.write_half.unsent()
    }

    /// Notes that the bytes have been sent.
    pub fn sent(&mut self)
        ensures
            final(self).half() == (WriteHalfView { pending: Seq::empty(), ..old(self).half() }),
            final(self).reading() == old(self).reading(),
            final(self).framed_parts().reader == old(self).framed_parts().reader,
            final(self).framed_parts().max_message_size == old(
                self,
            ).framed_parts().max_message_size,
            final(self).extended() == old(self).extended(),
            final(self).state() == old(self).state(),
    {
        self.write_half.sent();
    }

    /// Adds bytes that have been received.
    pub fn supply(&mut self, bytes: &[u8])
        requires
            old(self).wf(),
        ensures
            final(self).wf(),
            final(self).reading() == (ReadState {
                buffered: old(self).reading().buffered + bytes@,
                ..old(self).reading()
            }),
            final(self).half() == old(self).half(),
            final(self).framed_parts().max_message_size == old(
                self,
            ).framed_parts().max_message_size,
            final(self).extended() == old(self).extended(),
            final(self).state() == old(self).state(),
    {
        self.reader.supply(bytes);
    }

    /// Notes whether the close frame that answers the peer could be sent. Returns whether the stream
    /// is to be shut down.
    pub fn close_sent(&mut self, sent: bool) -> (shutdown: bool)
        ensures
            final(self).state() == if sent {
                CloseState::Closing
            } else {
                CloseState::Closed
            },
            shutdown == (old(self).framed_parts().flags.role && !sent),
            final(self).half() == old(self).half(),
            final(self).framed_parts() == old(self).framed_parts(),
            final(self).extended() == old(self).extended(),
    {
        close_sent(&mut self.close_state, self.flags.role, sent)
    }

    /// Closes this WebSocket with the reason provided. Fails if the closing handshake has been
    /// started.
    pub fn close(&mut self, reason: CloseReason) -> (result: Result<(), Error>)
        ensures
            old(self).state() is NotClosed ==> {
                &&& result is Ok
                &&& final(self).state() is Closing
                &&& final(self).half().pinged == old(self).half().pinged
                &&& adds_frame(
                    old(self).half().pending,
                    final(self).half().pending,
                    old(self).framed_parts().flags.role,
                    OpCode::ControlCode(ControlCode::Close),
                    only_fin(),
                    close_payload(reason@),
                )
            },
            !(old(self).state() is NotClosed) ==> {
                &&& result matches Err(e) && e@ == close_fault(CloseCause::Error)
                &&& *final(self) == *old(self)
            },
            final(self).reading() == old(self).reading(),
            final(self).framed_parts().reader == old(self).framed_parts().reader,
            final(self).framed_parts().max_message_size == old(
                self,
            ).framed_parts().max_message_size,
            final(self).extended() == old(self).extended(),
    {
        if !self.is_open() {
            return Err(Error::close(CloseCause::Error));
        }
        self.close_state = CloseState::Closing;
        self.write_half.add_close(self.flags.role, reason);
        Ok(())
    }
}

impl<E: Extension> WebSocket<E> {
    /// Whether this is the WebSocket of a stream that has just been upgraded, and on which `received`
    /// has been received.
    pub open spec fn fresh(
        self,
        config: WebSocketConfig,
        extension: Option<E>,
        received: Seq<u8>,
        role: Role,
    ) -> bool {
        &&& self.wf()
        &&& self.reading().position is DecodingHeader
        &&& self.reading().buffered == received
        &&& exists|bits: RsvBits|
            self.framed_parts().flags == #[trigger] CodecFlags::opened(role, bits)
                && extension.has_bits(bits)
        &&& self.framed_parts().max_message_size == config.max_message_size
        &&& self.half() == (WriteHalfView { pending: Seq::empty(), pinged: Seq::empty() })
        &&& self.extended() == extension
        &&& self.state() is NotClosed
    }

    /// The WebSocket of a stream that has been upgraded. The bytes in `read_buffer` have already
    /// been received on it.
    ///
    /// Without an extension the reserved bits of every frame that is received must be low. With one,
    /// those that it says it may set can be high.
    pub fn from_upgraded(
        config: WebSocketConfig,
        extension: Option<E>,
        read_buffer: BytesMut,
        role: Role,
    ) -> (socket: WebSocket<E>)
        ensures
            socket.fresh(config, extension, contents(read_buffer), role),
    {
        let bits = extension.bits();
        let framed = FramedIo::new(read_buffer, role, config.max_message_size, bits);
        WebSocket::from_parts(framed, BytesMut::new(), extension, CloseState::NotClosed)
    }

    /// Adds a message to the bytes that are to be sent. Fails if the closing handshake has been
    /// started.
    pub fn write(&mut self, buf: &[u8], message_type: PayloadType) -> (result: Result<
        (),
        Failure<<E as crate::ratchet_ext::ExtensionEncoder>::Error>,
    >)
        ensures
            old(self).state() is NotClosed ==> written::<E>(
                old(self).half(),
                final(self).half(),
                old(self).extended(),
                final(self).extended(),
                buf@,
                message_type,
                only_fin(),
                old(self).framed_parts().flags.role,
                result,
            ),
            !(old(self).state() is NotClosed) ==> {
                &&& result matches Err(e) && e.says(close_fault(CloseCause::Error))
                &&& *final(self) == *old(self)
            },
            final(self).reading() == old(self).reading(),
            final(self).framed_parts().reader == old(self).framed_parts().reader,
            final(self).framed_parts().max_message_size == old(
                self,
            ).framed_parts().max_message_size,
            final(self).state() == old(self).state(),
    {
        if !self.is_open() {
            return Err(Failure::Core(Error::close(CloseCause::Error)));
        }
        self.write_half.write(
            buf,
            message_type,
            HeaderFlags::final_frame(),
            self.flags.role,
            &mut self.extension,
        )
    }

    /// Attempt to read some data from the WebSocket: either what has been read or what is to be
    /// done before it can be read.
    pub fn read(&mut self, read_buffer: &mut BytesMut) -> (step: ReadStep<
        <E as crate::ratchet_ext::ExtensionDecoder>::Error,
    >)
        requires
            old(self).wf(),
        ensures
            final(self).wf(),
            final(self).framed_parts().max_message_size == old(
                self,
            ).framed_parts().max_message_size,
            old(self).state() is Closed ==> {
                &&& step matches ReadStep::Done { result: Err(e), shutdown: false } && e.says(
                    close_fault(CloseCause::Error),
                )
                &&& *final(self) == *old(self)
                &&& *final(read_buffer) == *old(read_buffer)
            },
            !(old(self).state() is Closed) ==> receives(
                old(self).reception(*old(read_buffer)),
                old(self).framed_parts().max_message_size,
                final(self).reception(*final(read_buffer)),
                old(self).state(),
                final(self).state(),
                old(self).half(),
                final(self).half(),
                step,
            ),
    {
        if self.is_closed() {
            let error = Failure::Core(Error::close(CloseCause::Error));
            return ReadStep::Done { result: Err(error), shutdown: false };
        }
        receive(
            &mut self.close_state,
            &mut self.write_half,
            &mut self.reader,
            &mut self.flags,
            self.max_message_size,
            &mut self.extension,
            read_buffer,
        )
    }

    /// Notes that the stream could not be read, and why.
    pub fn read_failed(&mut self, cause: String) -> (step: ReadStep<
        <E as crate::ratchet_ext::ExtensionDecoder>::Error,
    >)
        ensures
            closes_for(
                old(self).state(),
                final(self).state(),
                old(self).half(),
                final(self).half(),
                old(self).framed_parts().flags.role,
                worded(ErrorKind::IO, cause@),
                step,
            ),
            final(self).framed_parts().reader == old(self).framed_parts().reader,
            final(self).framed_parts().flags == old(self).framed_parts().flags,
            final(self).framed_parts().max_message_size == old(
                self,
            ).framed_parts().max_message_size,
            final(self).extended() == old(self).extended(),
    {
        let error = Error::with_cause(ErrorKind::IO, Cause::Message(cause));
        fail(&mut self.close_state, &mut self.write_half, self.flags.role, error)
    }
}

impl<E: SplittableExtension> WebSocket<E> {
    /// Splits this WebSocket into its sending and receiving halves, which get their
    /// identity from `connections`. Fails if it is closed.
    pub fn split(self, connections: &mut Connections) -> (result: Result<
        (Sender<E::SplitEncoder>, Receiver<E::SplitDecoder>, Shared),
        Error,
    >)
        requires
            self.wf(),
            old(connections).issued() < u64::MAX,
        ensures
            match result {
                Ok((sender, receiver, shared)) => !(self.state() is Closed) && splits_off(
                    *old(connections),
                    *final(connections),
                    self.framed_parts(),
                    self.pinged(),
                    self.extended(),
                    sender,
                    receiver,
                    shared,
                ),
                Err(e) => {
                    &&& self.state() is Closed
                    &&& e@ == close_fault(CloseCause::Error)
                    &&& *final(connections) == *old(connections)
                },
            },
    {
        if self.is_closed() {
            return Err(Error::close(CloseCause::Error));
        }
        let (writer, control_buffer) = self.write_half.into_parts();
        let framed = FramedIo::from_parts(
            FramedIoParts {
                reader: self.reader,
                writer,
                flags: self.flags,
                max_message_size: self.max_message_size,
            },
        );
        Ok(split(connections, framed, control_buffer, self.extension))
    }
}

} // verus!
