//! WebSockets that are split into a sender and a receiver.

use crate::buffer::contents;
use crate::errors::{close_fault, worded, Cause, CloseCause, Error, ErrorKind, Failure};
use crate::fragment::{adds_message, chunks, data_code, write_fragmented};
use crate::framed::{
    close_payload, reception, CodecFlags, FramedIo, FramedIoParts, FramedRead, Reception,
};
use crate::identity::{ConnectionId, Connections, Identity};
use crate::protocol::{
    CloseReason, ControlCode, HeaderFlags, MessageType, OpCode, PayloadType, Role,
};
use crate::ratchet_ext::{
    ExtensionDecoder, ExtensionEncoder, ReunitableExtension, SplittableExtension,
};
use crate::session::{
    adds_frame, close_sent, closes_for, fail, only_fin, receive, receives, written, CloseState,
    ReadStep, WriteHalf, WriteHalfView,
};
use crate::ws::WebSocket;
use bytes::BytesMut;
use vstd::prelude::*;
use vstd::utf8::encode_utf8;

verus! {

/// What a sender and a receiver share. Whoever drives them keeps it under a lock.
pub struct Shared {
    id: ConnectionId,
    close_state: CloseState,
    write_half: WriteHalf,
}

/// What a `Shared` holds.
pub struct SharedView {
    pub id: Identity,
    pub close_state: CloseState,
    pub half: WriteHalfView,
}

impl View for Shared {
    type V = SharedView;

    closed spec fn view(&self) -> SharedView {
        SharedView { id: self.id@, close_state: self.close_state, half: self.write_half@ }
    }
}

impl Shared {
    /// The writing side.
    pub closed spec fn half(self) -> WriteHalf {
        self.write_half
    }

    /// The bytes that are to be sent, in order.
    pub fn unsent(&self) -> (bytes: &[u8])
        ensures
            bytes@ == self@.half.pending,
    {
        self.write_half.unsent()
    }

    /// Notes that the bytes have been sent.
    pub fn sent(&mut self)
        ensures
            final(self)@ == (SharedView {
                half: WriteHalfView { pending: Seq::empty(), ..old(self)@.half },
                ..old(self)@
            }),
    {
        self.write_half.sent();
    }

    /// Whether the WebSocket is closed.
    pub fn is_closed(&self) -> (closed: bool)
        ensures
            closed == (self@.close_state is Closed),
    {
        matches!(self.close_state, CloseState::Closed)
    }

    /// Whether the WebSocket is neither closing nor closed.
    pub fn is_open(&self) -> (open: bool)
        ensures
            open == (self@.close_state is NotClosed),
    {
        matches!(self.close_state, CloseState::NotClosed)
    }

    /// Starts the closing handshake with a reason: a close frame is added to the bytes that are to
    /// be sent. Fails if the handshake has been started.
    fn start_close(&mut self, is_server: bool, reason: CloseReason) -> (result: Result<(), Error>)
        ensures
            closing_started(old(self)@, final(self)@, is_server, close_payload(reason@), result),
    {
        if !self.is_open() {
            return Err(Error::close(CloseCause::Error));
        }
        self.close_state = CloseState::Closing;
        self.write_half.add_close(is_server, reason);
        Ok(())
    }
}

/// What starting the closing handshake leads to.
pub open spec fn closing_started(
    before: SharedView,
    after: SharedView,
    is_server: bool,
    payload: Seq<u8>,
    result: Result<(), Error>,
) -> bool {
    if before.close_state is NotClosed {
        &&& result is Ok
        &&& after.id == before.id
        &&& after.close_state is Closing
        &&& after.half.pinged == before.half.pinged
        &&& adds_frame(
            before.half.pending,
            after.half.pending,
            is_server,
            OpCode::ControlCode(ControlCode::Close),
            only_fin(),
            payload,
        )
    } else {
        &&& result matches Err(e) && e@ == close_fault(CloseCause::Error)
        &&& after == before
    }
}

/// An owned write half of a WebSocket connection.
pub struct Sender<E> {
    id: ConnectionId,
    role: Role,
    ext_encoder: Option<E>,
}

/// What writing through a sender leads to.
pub open spec fn sent_as<E: ExtensionEncoder>(
    before: SharedView,
    after: SharedView,
    encoder: Option<E>,
    encoder_after: Option<E>,
    role: Role,
    payload: Seq<u8>,
    message_type: PayloadType,
    result: Result<(), Failure<E::Error>>,
) -> bool {
    if before.close_state is NotClosed {
        &&& after.id == before.id
        &&& after.close_state == before.close_state
        &&& written::<E>(
            before.half,
            after.half,
            encoder,
            encoder_after,
            payload,
            message_type,
            only_fin(),
            role is Server,
            result,
        )
    } else {
        &&& result matches Err(e) && e.says(close_fault(CloseCause::Error))
        &&& after == before
        &&& encoder_after == encoder
    }
}

impl<E: ExtensionEncoder> Sender<E> {
    /// The connection that this is a half of.
    pub closed spec fn connection(self) -> Identity {
        self.id@
    }

    /// The role of this end.
    pub closed spec fn end(self) -> Role {
        self.role
    }

    /// The encoder of the negotiated extension.
    pub closed spec fn encoder(self) -> Option<E> {
        self.ext_encoder
    }

    /// Returns the role of this Sender.
    pub fn role(&self) -> (role: Role)
        ensures
            role == self.end(),
    {
        self.role
    }

    /// Returns whether this WebSocket is closed.
    pub fn is_closed(&self, shared: &Shared) -> (closed: bool)
        requires
            shared@.id == self.connection(),
        ensures
            closed == (shared@.close_state is Closed),
    {
        shared.is_closed()
    }

    /// Returns whether this WebSocket is closing or closed.
    pub fn is_active(&self, shared: &Shared) -> (active: bool)
        requires
            shared@.id == self.connection(),
        ensures
            active == (shared@.close_state is Closing || shared@.close_state is Closed),
    {
        !shared.is_open()
    }

    /// Constructs a new text WebSocket message with a payload of `data`.
    pub fn write_text(&mut self, shared: &mut Shared, data: &str) -> (result: Result<
        (),
        Failure<E::Error>,
    >)
        requires
            old(shared)@.id == old(self).connection(),
        ensures
            sent_as::<E>(
                old(shared)@,
                final(shared)@,
                old(self).encoder(),
                final(self).encoder(),
                old(self).end(),
                encode_utf8(data@),
                PayloadType::Text,
                result,
            ),
            final(self).connection() == old(self).connection(),
            final(self).end() == old(self).end(),
    {
        self.write(shared, data.as_bytes(), PayloadType::Text)
    }

    /// Constructs a new binary WebSocket message with a payload of `data`.
    pub fn write_binary(&mut self, shared: &mut Shared, data: &[u8]) -> (result: Result<
        (),
        Failure<E::Error>,
    >)
        requires
            old(shared)@.id == old(self).connection(),
        ensures
            sent_as::<E>(
                old(shared)@,
                final(shared)@,
                old(self).encoder(),
                final(self).encoder(),
                old(self).end(),
                data@,
                PayloadType::Binary,
                result,
            ),
            final(self).connection() == old(self).connection(),
            final(self).end() == old(self).end(),
    {
        self.write(shared, data, PayloadType::Binary)
    }

    /// Constructs a new ping WebSocket message with a payload of `data`.
    pub fn write_ping(&mut self, shared: &mut Shared, data: &[u8]) -> (result: Result<
        (),
        Failure<E::Error>,
    >)
        requires
            old(shared)@.id == old(self).connection(),
        ensures
            sent_as::<E>(
                old(shared)@,
                final(shared)@,
                old(self).encoder(),
                final(self).encoder(),
                old(self).end(),
                data@,
                PayloadType::Ping,
                result,
            ),
            final(self).connection() == old(self).connection(),
            final(self).end() == old(self).end(),
    {
        self.write(shared, data, PayloadType::Ping)
    }

    /// Constructs a new pong WebSocket message with a payload of `data`.
    pub fn write_pong(&mut self, shared: &mut Shared, data: &[u8]) -> (result: Result<
        (),
        Failure<E::Error>,
    >)
        requires
            old(shared)@.id == old(self).connection(),
        ensures
            sent_as::<E>(
                old(shared)@,
                final(shared)@,
                old(self).encoder(),
                final(self).encoder(),
                old(self).end(),
                data@,
                PayloadType::Pong,
                result,
            ),
            final(self).connection() == old(self).connection(),
            final(self).end() == old(self).end(),
    {
        self.write(shared, data, PayloadType::Pong)
    }

    /// Constructs a new WebSocket message of `message_type` and with a payload of `buf`. Fails if
    /// the closing handshake has been started.
    pub fn write(&mut self, shared: &mut Shared, buf: &[u8], message_type: PayloadType) -> (result:
        Result<(), Failure<E::Error>>)
        requires
            old(shared)@.id == old(self).connection(),
        ensures
            sent_as::<E>(
                old(shared)@,
                final(shared)@,
                old(self).encoder(),
                final(self).encoder(),
                old(self).end(),
                buf@,
                message_type,
                result,
            ),
            final(self).connection() == old(self).connection(),
            final(self).end() == old(self).end(),
    {
        if !shared.is_open() {
            return Err(Failure::Core(Error::close(CloseCause::Error)));
        }
        let is_server = self.role.is_server();
        shared.write_half.write(
            buf,
            message_type,
            HeaderFlags::final_frame(),
            is_server,
            &mut self.ext_encoder,
        )
    }

    /// Sends a new WebSocket message of `message_type` and with a payload of `buf` and chunked by
    /// `fragment_size`. If the length of the buffer is less than the chunk size then only a single
    /// message is sent. Fails if the WebSocket is closed.
    pub fn write_fragmented(
        &mut self,
        shared: &mut Shared,
        buf: &[u8],
        message_type: MessageType,
        fragment_size: usize,
    ) -> (result: Result<(), Failure<E::Error>>)
        requires
            old(shared)@.id == old(self).connection(),
            fragment_size > 0,
        ensures
            old(shared)@.close_state is Closed ==> {
                &&& result matches Err(e) && e.says(close_fault(CloseCause::Error))
                &&& final(shared)@ == old(shared)@
                &&& final(self).encoder() == old(self).encoder()
            },
            !(old(shared)@.close_state is Closed) ==> {
                &&& final(shared)@.id == old(shared)@.id
                &&& final(shared)@.close_state == old(shared)@.close_state
                &&& final(shared)@.half.pinged == old(shared)@.half.pinged
                &&& adds_message(
                    old(shared)@.half.pending,
                    final(shared)@.half.pending,
                    old(self).encoder(),
                    final(self).encoder(),
                    old(self).end() is Server,
                    data_code(message_type),
                    chunks(buf@, fragment_size as nat),
                    result,
                )
            },
            final(self).connection() == old(self).connection(),
            final(self).end() == old(self).end(),
    {
        if shared.is_closed() {
            return Err(Failure::Core(Error::close(CloseCause::Error)));
        }
        let is_server = self.role.is_server();
        write_fragmented(
            &mut shared.write_half,
            buf,
            message_type,
            fragment_size,
            is_server,
            &mut self.ext_encoder,
        )
    }

    /// Close this Sender with the reason provided.
    pub fn close(&mut self, shared: &mut Shared, reason: CloseReason) -> (result: Result<(), Error>)
        requires
            old(shared)@.id == old(self).connection(),
        ensures
            closing_started(
                old(shared)@,
                final(shared)@,
                old(self).end() is Server,
                close_payload(reason@),
                result,
            ),
            *final(self) == *old(self),
    {
        shared.start_close(self.role.is_server(), reason)
    }
}

/// An owned read half of a WebSocket connection.
pub struct Receiver<D> {
    id: ConnectionId,
    role: Role,
    flags: CodecFlags,
    max_message_size: usize,
    reader: FramedRead,
    ext_decoder: Option<D>,
}

impl<D: ExtensionDecoder> Receiver<D> {
    /// The connection that this is a half of.
    pub closed spec fn connection(self) -> Identity {
        self.id@
    }

    /// The role of this end.
    pub closed spec fn end(self) -> Role {
        self.role
    }

    /// The flags that reading depends on.
    pub closed spec fn codec(self) -> CodecFlags {
        self.flags
    }

    /// The longest payload that is accepted.
    pub closed spec fn limit(self) -> usize {
        self.max_message_size
    }

    /// The reading side.
    pub closed spec fn reading_side(self) -> FramedRead {
        self.reader
    }

    /// The decoder of the negotiated extension.
    pub closed spec fn decoder(self) -> Option<D> {
        self.ext_decoder
    }

    /// The reader keeps its headers, and the flags know the role.
    pub open spec fn wf(self) -> bool {
        &&& self.reading_side().wf()
        &&& self.codec().role <==> self.end() is Server
    }

    /// Nothing but what reading changes has changed.
    pub open spec fn same_but_read(self, before: Receiver<D>) -> bool {
        &&& self.connection() == before.connection()
        &&& self.end() == before.end()
        &&& self.limit() == before.limit()
    }

    /// What reading changes, with what has been read.
    pub open spec fn reception(self, read_buffer: BytesMut) -> Reception<D> {
        reception(self.codec(), self.reading_side(), read_buffer, self.decoder())
    }

    /// Returns the role of this Receiver.
    pub fn role(&self) -> (role: Role)
        ensures
            role == self.end(),
    {
        self.role
    }

    /// Returns whether this WebSocket is closed.
    pub fn is_closed(&self, shared: &Shared) -> (closed: bool)
        requires
            shared@.id == self.connection(),
        ensures
            closed == (shared@.close_state is Closed),
    {
        shared.is_closed()
    }

    /// Returns whether this WebSocket is closing or closed.
    pub fn is_active(&self, shared: &Shared) -> (active: bool)
        requires
            shared@.id == self.connection(),
        ensures
            active == (shared@.close_state is Closing || shared@.close_state is Closed),
    {
        !shared.is_open()
    }

    /// Adds bytes that have been received.
    pub fn supply(&mut self, bytes: &[u8])
        requires
            old(self).wf(),
        ensures
            final(self).wf(),
            final(self).same_but_read(*old(self)),
            final(self).decoder() == old(self).decoder(),
            final(self).codec() == old(self).codec(),
            final(self).reading_side().buffered() == old(self).reading_side().buffered() + bytes@,
            final(self).reading_side().position() == old(self).reading_side().position(),
    {
        self.reader.supply(bytes);
    }

    /// Attempt to read some data from the WebSocket: either what has been read or what is to be
    /// done before it can be read.
    ///
    /// If a read fails the contents of `read_buffer` must be considered to be dirty.
    ///
    /// Pings from the peer are answered by a pong, and this returns `Message::Ping`. Control frames
    /// may be interleaved between data frames: `read_buffer` then holds the data received up to
    /// that point, and must not be modified before the next read.
    pub fn read(&mut self, shared: &mut Shared, read_buffer: &mut BytesMut) -> (step: ReadStep<
        D::Error,
    >)
        requires
            old(shared)@.id == old(self).connection(),
            old(self).wf(),
        ensures
            final(self).wf(),
            final(self).same_but_read(*old(self)),
            final(shared)@.id == old(shared)@.id,
            old(shared)@.close_state is Closed ==> {
                &&& step matches ReadStep::Done { result: Err(e), shutdown: false } && e.says(
                    close_fault(CloseCause::Error),
                )
                &&& final(shared)@ == old(shared)@
                &&& *final(self) == *old(self)
                &&& *final(read_buffer) == *old(read_buffer)
            },
            !(old(shared)@.close_state is Closed) ==> receives(
                old(self).reception(*old(read_buffer)),
                old(self).limit(),
                final(self).reception(*final(read_buffer)),
                old(shared)@.close_state,
                final(shared)@.close_state,
                old(shared)@.half,
                final(shared)@.half,
                step,
            ),
    {
        if shared.is_closed() {
            let error = Failure::Core(Error::close(CloseCause::Error));
            return ReadStep::Done { result: Err(error), shutdown: false };
        }
        receive(
            &mut shared.close_state,
            &mut shared.write_half,
            &mut self.reader,
            &mut self.flags,
            self.max_message_size,
            &mut self.ext_decoder,
            read_buffer,
        )
    }

    /// Notes that the stream could not be read, and why.
    pub fn read_failed(&mut self, shared: &mut Shared, cause: String) -> (step: ReadStep<D::Error>)
        requires
            old(shared)@.id == old(self).connection(),
        ensures
            *final(self) == *old(self),
            final(shared)@.id == old(shared)@.id,
            closes_for(
                old(shared)@.close_state,
                final(shared)@.close_state,
                old(shared)@.half,
                final(shared)@.half,
                old(self).codec().role,
                worded(ErrorKind::IO, cause@),
                step,
            ),
    {
        let error = Error::with_cause(ErrorKind::IO, Cause::Message(cause));
        fail(&mut shared.close_state, &mut shared.write_half, self.flags.role, error)
    }

    /// Notes whether the close frame that answers the peer could be sent. Returns whether the stream
    /// is to be shut down.
    pub fn close_sent(&self, shared: &mut Shared, sent: bool) -> (shutdown: bool)
        requires
            old(shared)@.id == self.connection(),
        ensures
            final(shared)@ == (SharedView {
                close_state: if sent {
                    CloseState::Closing
                } else {
                    CloseState::Closed
                },
                ..old(shared)@
            }),
            shutdown == (self.end() is Server && !sent),
    {
        close_sent(&mut shared.close_state, self.role.is_server(), sent)
    }

    /// Close this Receiver with the reason provided.
    pub fn close(&mut self, shared: &mut Shared, reason: CloseReason) -> (result: Result<(), Error>)
        requires
            old(shared)@.id == old(self).connection(),
        ensures
            closing_started(
                old(shared)@,
                final(shared)@,
                old(self).end() is Server,
                close_payload(reason@),
                result,
            ),
            *final(self) == *old(self),
    {
        shared.start_close(self.role.is_server(), reason)
    }
}

/// Whether a sender, a receiver and what they share are the halves of a connection.
pub open spec fn halves_of<E: SplittableExtension>(
    parts: FramedIoParts,
    control_buffer: BytesMut,
    extension: Option<E>,
    id: Identity,
    sender: Sender<E::SplitEncoder>,
    receiver: Receiver<E::SplitDecoder>,
    shared: Shared,
) -> bool {
    &&& receiver.wf()
    &&& sender.connection() == id
    &&& receiver.connection() == id
    &&& shared@.id == id
    &&& sender.end() == receiver.end()
    &&& receiver.end() is Server <==> parts.flags.role
    &&& extension.splits(sender.encoder(), receiver.decoder())
    &&& receiver.codec() == parts.flags
    &&& receiver.limit() == parts.max_message_size
    &&& receiver.reading_side() == parts.reader
    &&& shared@.close_state is NotClosed
    &&& shared.half().parts() == (parts.writer, control_buffer)
    &&& shared@.half == (WriteHalfView {
        pending: parts.writer.pending(),
        pinged: contents(control_buffer),
    })
}

/// Whether a connection was split: its halves have the next identity, and no other halves will get it.
pub open spec fn splits_off<E: SplittableExtension>(
    before: Connections,
    after: Connections,
    parts: FramedIoParts,
    control_buffer: BytesMut,
    extension: Option<E>,
    sender: Sender<E::SplitEncoder>,
    receiver: Receiver<E::SplitDecoder>,
    shared: Shared,
) -> bool {
    &&& after.origin() == before.origin()
    &&& after.issued() == before.issued() + 1
    &&& halves_of(
        parts,
        control_buffer,
        extension,
        before.upcoming(),
        sender,
        receiver,
        shared,
    )
}

/// What reuniting a sender and a receiver leads to.
pub open spec fn reunited<E: ReunitableExtension>(
    sender: Sender<E::SplitEncoder>,
    receiver: Receiver<E::SplitDecoder>,
    shared: Shared,
    result: Result<WebSocket<E>, ReuniteError<E::SplitEncoder, E::SplitDecoder>>,
) -> bool {
    let same = sender.connection() == receiver.connection() && shared@.id
        == receiver.connection();
    match result {
        Ok(socket) => {
            &&& same
            &&& socket.wf()
            &&& socket.framed_parts().reader == receiver.reading_side()
            &&& socket.framed_parts().flags == receiver.codec()
            &&& socket.framed_parts().max_message_size == receiver.limit()
            &&& (socket.framed_parts().writer, socket.pinged()) == shared.half().parts()
            &&& socket.half() == shared@.half
            &&& socket.state() == shared@.close_state
            &&& socket.extended().reunites(sender.encoder(), receiver.decoder())
        },
        Err(e) => !same && e.sender == sender && e.receiver == receiver && e.shared == shared,
    }
}

/// Splitting and reuniting a WebSocket gives it back as it was, with the extension that is reunited of
/// the halves that it was split into.
pub proof fn lemma_split_reunite<E: ReunitableExtension>(
    parts: FramedIoParts,
    control_buffer: BytesMut,
    extension: Option<E>,
    id: Identity,
    sender: Sender<E::SplitEncoder>,
    receiver: Receiver<E::SplitDecoder>,
    shared: Shared,
    result: Result<WebSocket<E>, ReuniteError<E::SplitEncoder, E::SplitDecoder>>,
)
    requires
        halves_of(parts, control_buffer, extension, id, sender, receiver, shared),
        reunited(sender, receiver, shared, result),
    ensures
        result matches Ok(socket) && {
            &&& socket.framed_parts() == parts
            &&& socket.pinged() == control_buffer
            &&& match (extension, socket.extended()) {
                (Some(before), Some(after)) => exists|
                    encoder: E::SplitEncoder,
                    decoder: E::SplitDecoder,
                | #[trigger]
                    before.splits(encoder, decoder) && after.reunites(encoder, decoder),
                (None, None) => true,
                _ => false,
            }
            &&& socket.state() is NotClosed
        },
{
}

/// The halves of a connection are reunited however they have been used: the WebSocket has the role and
/// the limit of the one that was split, and what has been read, what is to be sent and how far the
/// closing handshake has come are as the halves have left them.
pub proof fn lemma_halves_reunite<E: ReunitableExtension>(
    before: Connections,
    after: Connections,
    parts: FramedIoParts,
    control_buffer: BytesMut,
    extension: Option<E>,
    sender: Sender<E::SplitEncoder>,
    receiver: Receiver<E::SplitDecoder>,
    shared: Shared,
    used_sender: Sender<E::SplitEncoder>,
    used_receiver: Receiver<E::SplitDecoder>,
    used_shared: Shared,
    result: Result<WebSocket<E>, ReuniteError<E::SplitEncoder, E::SplitDecoder>>,
)
    requires
        splits_off(
            before,
            after,
            parts,
            control_buffer,
            extension,
            sender,
            receiver,
            shared,
        ),
        used_sender.connection() == sender.connection(),
        used_receiver.same_but_read(receiver),
        used_receiver.wf(),
        used_shared@.id == shared@.id,
        reunited(used_sender, used_receiver, used_shared, result),
    ensures
        result matches Ok(socket) && {
            &&& socket.framed_parts().flags.role == parts.flags.role
            &&& socket.framed_parts().max_message_size == parts.max_message_size
            &&& socket.framed_parts().flags == used_receiver.codec()
            &&& socket.framed_parts().reader == used_receiver.reading_side()
            &&& socket.half() == used_shared@.half
            &&& socket.state() == used_shared@.close_state
        },
{
}

/// The halves of two connections are given back, whichever is taken of which, and whatever they are said
/// to share: connections that one `Connections` has given their identities one after the other, and
/// connections that have theirs from different ones.
pub proof fn lemma_strangers_stay_apart<E: ReunitableExtension>(
    before: Connections,
    after: Connections,
    parts: FramedIoParts,
    control_buffer: BytesMut,
    extension: Option<E>,
    sender: Sender<E::SplitEncoder>,
    receiver: Receiver<E::SplitDecoder>,
    shared: Shared,
    later_before: Connections,
    later_after: Connections,
    later_parts: FramedIoParts,
    later_control_buffer: BytesMut,
    later_extension: Option<E>,
    later_sender: Sender<E::SplitEncoder>,
    later_receiver: Receiver<E::SplitDecoder>,
    later_shared: Shared,
    used_sender: Sender<E::SplitEncoder>,
    used_receiver: Receiver<E::SplitDecoder>,
    used_shared: Shared,
    result: Result<WebSocket<E>, ReuniteError<E::SplitEncoder, E::SplitDecoder>>,
)
    requires
        splits_off(
            before,
            after,
            parts,
            control_buffer,
            extension,
            sender,
            receiver,
            shared,
        ),
        before.origin() != later_before.origin() || after.issued() <= later_before.issued(),
        splits_off(
            later_before,
            later_after,
            later_parts,
            later_control_buffer,
            later_extension,
            later_sender,
            later_receiver,
            later_shared,
        ),
        ({
            ||| used_sender.connection() == sender.connection() && used_receiver.connection()
                == later_receiver.connection()
            ||| used_sender.connection() == later_sender.connection() && used_receiver.connection()
                == receiver.connection()
        }),
        reunited(used_sender, used_receiver, used_shared, result),
    ensures
        result matches Err(e) && e.sender == used_sender && e.receiver == used_receiver && e.shared
            == used_shared,
{
}

/// Splits a WebSocket's parts into send and receive halves, and what they share.
///
/// The halves can be reunited if the extension implements `ReunitableExtension`. They are told apart
/// from the halves of other connections by the identity that `connections` gives them.
pub fn split<E: SplittableExtension>(
    connections: &mut Connections,
    framed: FramedIo,
    control_buffer: BytesMut,
    extension: Option<E>,
) -> (halves: (Sender<E::SplitEncoder>, Receiver<E::SplitDecoder>, Shared))
    requires
        framed.wf(),
        old(connections).issued() < u64::MAX,
    ensures
        splits_off(
            *old(connections),
            *final(connections),
            framed.parts(),
            control_buffer,
            extension,
            halves.0,
            halves.1,
            halves.2,
        ),
{
    let id = connections.issue();
    let FramedIoParts { reader, writer, flags, max_message_size } = framed.into_parts();
    let role = flags.endpoint();
    let (ext_encoder, ext_decoder) = extension.split();
    let sender = Sender { id: id.copy(), role, ext_encoder };
    let receiver = Receiver { id: id.copy(), role, flags, max_message_size, reader, ext_decoder };
    let shared = Shared {
        id,
        close_state: CloseState::NotClosed,
        write_half: WriteHalf::new(writer, control_buffer),
    };
    (sender, receiver, shared)
}

/// An error produced by `reunite` if the halves do not match.
pub struct ReuniteError<E, D> {
    /// The send half.
    pub sender: Sender<E>,
    /// The receive half.
    pub receiver: Receiver<D>,
    /// What the halves were said to share.
    pub shared: Shared,
}

/// Attempts to reunite the send and receive halves that form a WebSocket or returns them in an error
/// if they do not represent the same connection.
pub fn reunite<E: ReunitableExtension>(
    sender: Sender<E::SplitEncoder>,
    receiver: Receiver<E::SplitDecoder>,
    shared: Shared,
) -> (result: Result<WebSocket<E>, ReuniteError<E::SplitEncoder, E::SplitDecoder>>)
    requires
        receiver.wf(),
    ensures
        reunited::<E>(sender, receiver, shared, result),
{
    if !sender.is_pair_of(&receiver) || !shared.id.is(&receiver.id) {
        return Err(ReuniteError { sender, receiver, shared });
    }
    let (writer, control_buffer) = shared.write_half.into_parts();
    let framed = FramedIo::from_parts(
        FramedIoParts {
            reader: receiver.reader,
            writer,
            flags: receiver.flags,
            max_message_size: receiver.max_message_size,
        },
    );
    let extension = Option::<E>::reunite(sender.ext_encoder, receiver.ext_decoder);
    Ok(WebSocket::from_parts(framed, control_buffer, extension, shared.close_state))
}

impl<E: ExtensionEncoder> Sender<E> {
    /// Whether this sender and a receiver are the halves of one connection.
    pub fn is_pair_of<D: ExtensionDecoder>(&self, receiver: &Receiver<D>) -> (pair: bool)
        ensures
            pair == (self.connection() == receiver.connection()),
    {
        self.id.is(&receiver.id)
    }

    /// Attempt to reunite this send half with its receiver.
    ///
    /// # Errors
    /// Errors if `receiver` is not paired with this sender.
    pub fn reunite<Ext: ReunitableExtension<SplitEncoder = E>>(
        self,
        receiver: Receiver<Ext::SplitDecoder>,
        shared: Shared,
    ) -> (result: Result<WebSocket<Ext>, ReuniteError<E, Ext::SplitDecoder>>)
        requires
            receiver.wf(),
        ensures
            reunited::<Ext>(self, receiver, shared, result),
    {
        reunite::<Ext>(self, receiver, shared)
    }
}

} // verus!
