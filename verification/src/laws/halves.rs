//! Splitting a WebSocket and reuniting its halves.

use crate::errors::{close_fault, CloseCause, Error};
use crate::framed::ReadState;
use crate::identity::{Connections, Identity};
use crate::protocol::Role;
use crate::ratchet_ext::{
    ExtensionDecoder, ExtensionEncoder, ReunitableExtension, SplittableExtension,
};
use crate::split::{reunite, Receiver, ReuniteError, Sender, Shared};
use crate::ws::WebSocket;
use vstd::prelude::*;

verus! {

/// What the receiver of a connection reads from.
pub open spec fn received_by<D: ExtensionDecoder>(receiver: Receiver<D>) -> ReadState {
    ReadState {
        flags: receiver.codec(),
        position: receiver.reading_side().position(),
        buffered: receiver.reading_side().buffered(),
    }
}

/// Whether a sender and a receiver are the halves of a WebSocket: they have its role, the receiver
/// goes on reading where it stood and with its limit, and what was to be sent is still to be sent.
/// Each half has its half of the extension, if there is one.
pub open spec fn halves<E: SplittableExtension>(
    socket: WebSocket<E>,
    sender: Sender<E::SplitEncoder>,
    receiver: Receiver<E::SplitDecoder>,
    shared: Shared,
) -> bool {
    &&& sender.end() is Server <==> socket.framed_parts().flags.role
    &&& receiver.end() is Server <==> socket.framed_parts().flags.role
    &&& received_by(receiver) == socket.reading()
    &&& receiver.limit() == socket.framed_parts().max_message_size
    &&& receiver.wf()
    &&& shared@.half == socket.half()
    &&& shared@.close_state is NotClosed
    &&& sender.connection() == receiver.connection()
    &&& shared@.id == receiver.connection()
    &&& match socket.extended() {
        Some(extension) => sender.encoder() matches Some(encoder) && receiver.decoder() matches Some(
            decoder,
        ) && extension.splits(encoder, decoder),
        None => sender.encoder() is None && receiver.decoder() is None,
    }
}

/// A WebSocket that is not closed is split into its halves. They get an identity that no halves had
/// before them and no others will get.
pub proof fn law_split<E: SplittableExtension>(
    socket: WebSocket<E>,
    connections: &mut Connections,
    result: Result<(Sender<E::SplitEncoder>, Receiver<E::SplitDecoder>, Shared), Error>,
)
    requires
        call_ensures(WebSocket::<E>::split, (socket, connections), result),
    ensures
        if socket.state() is Closed {
            &&& result matches Err(e) && e@ == close_fault(CloseCause::Error)
            &&& *final(connections) == *old(connections)
        } else {
            &&& result matches Ok((sender, receiver, shared)) && halves(
                socket,
                sender,
                receiver,
                shared,
            ) && sender.connection() == (Identity {
                origin: old(connections).origin(),
                number: old(connections).issued(),
            })
            &&& final(connections).origin() == old(connections).origin()
            &&& final(connections).issued() == old(connections).issued() + 1
        },
{
}

/// Splitting a WebSocket and reuniting its halves gives it back: with its role, its limit, what it has
/// received and what it is to send, and the extension that its halves are reunited into.
pub proof fn law_split_and_reunited<E: ReunitableExtension>(
    socket: WebSocket<E>,
    connections: &mut Connections,
    sender: Sender<E::SplitEncoder>,
    receiver: Receiver<E::SplitDecoder>,
    shared: Shared,
    result: Result<WebSocket<E>, ReuniteError<E::SplitEncoder, E::SplitDecoder>>,
)
    requires
        call_ensures(
            WebSocket::<E>::split,
            (socket, connections),
            Ok((sender, receiver, shared)),
        ),
        call_ensures(
            Sender::<E::SplitEncoder>::reunite::<E>,
            (sender, receiver, shared),
            result,
        ),
    ensures
        result matches Ok(again) && {
            &&& again.wf()
            &&& again.reading() == socket.reading()
            &&& again.framed_parts().max_message_size == socket.framed_parts().max_message_size
            &&& again.half() == socket.half()
            &&& again.state() is NotClosed
            &&& match (socket.extended(), again.extended()) {
                (Some(before), Some(after)) => {
                    &&& sender.encoder() is Some
                    &&& receiver.decoder() is Some
                    &&& before.splits(sender.encoder()->0, receiver.decoder()->0)
                    &&& after.reunites(sender.encoder()->0, receiver.decoder()->0)
                },
                (None, None) => true,
                _ => false,
            }
        },
{
}

/// A sender and a receiver are reunited if and only if they are the halves of one connection and
/// are given what that connection shares. Otherwise the caller gets all of them back.
pub proof fn law_reunited<E: ReunitableExtension>(
    sender: Sender<E::SplitEncoder>,
    receiver: Receiver<E::SplitDecoder>,
    shared: Shared,
    result: Result<WebSocket<E>, ReuniteError<E::SplitEncoder, E::SplitDecoder>>,
)
    requires
        call_ensures(
            Sender::<E::SplitEncoder>::reunite::<E>,
            (sender, receiver, shared),
            result,
        ),
    ensures
        match result {
            Ok(socket) => {
                &&& sender.connection() == receiver.connection()
                &&& shared@.id == receiver.connection()
                &&& socket.reading() == received_by(receiver)
                &&& socket.framed_parts().max_message_size == receiver.limit()
                &&& socket.half() == shared@.half
                &&& socket.state() == shared@.close_state
                &&& match (sender.encoder(), receiver.decoder()) {
                    (Some(encoder), Some(decoder)) => socket.extended() matches Some(extension)
                        && extension.reunites(encoder, decoder),
                    _ => socket.extended() is None,
                }
            },
            Err(e) => {
                &&& sender.connection() != receiver.connection() || shared@.id
                    != receiver.connection()
                &&& e.sender == sender
                &&& e.receiver == receiver
                &&& e.shared == shared
            },
        },
{
}

/// The function that reunites halves does what the method of the sender does.
pub proof fn law_reunite_function<E: ReunitableExtension>(
    sender: Sender<E::SplitEncoder>,
    receiver: Receiver<E::SplitDecoder>,
    shared: Shared,
    result: Result<WebSocket<E>, ReuniteError<E::SplitEncoder, E::SplitDecoder>>,
)
    requires
        call_ensures(reunite::<E>, (sender, receiver, shared), result),
    ensures
        result is Ok <==> sender.connection() == receiver.connection() && shared@.id
            == receiver.connection(),
        match result {
            Ok(socket) => {
                &&& socket.reading() == received_by(receiver)
                &&& socket.framed_parts().max_message_size == receiver.limit()
                &&& socket.half() == shared@.half
                &&& socket.state() == shared@.close_state
            },
            Err(e) => e.sender == sender && e.receiver == receiver && e.shared == shared,
        },
{
}

/// The halves of two WebSockets that were split one after the other are never reunited with each other,
/// though they may have been used since.
pub proof fn law_strangers_not_reunited<E: ReunitableExtension>(
    socket: WebSocket<E>,
    connections: &mut Connections,
    sender: Sender<E::SplitEncoder>,
    receiver: Receiver<E::SplitDecoder>,
    shared: Shared,
    other: WebSocket<E>,
    later: &mut Connections,
    other_sender: Sender<E::SplitEncoder>,
    other_receiver: Receiver<E::SplitDecoder>,
    other_shared: Shared,
    used_sender: Sender<E::SplitEncoder>,
    used_receiver: Receiver<E::SplitDecoder>,
    any_shared: Shared,
    result: Result<WebSocket<E>, ReuniteError<E::SplitEncoder, E::SplitDecoder>>,
)
    requires
        call_ensures(
            WebSocket::<E>::split,
            (socket, connections),
            Ok((sender, receiver, shared)),
        ),
        old(later).origin() == final(connections).origin(),
        old(later).issued() >= final(connections).issued(),
        call_ensures(
            WebSocket::<E>::split,
            (other, later),
            Ok((other_sender, other_receiver, other_shared)),
        ),
        ({
            ||| used_sender.connection() == sender.connection() && used_receiver.connection()
                == other_receiver.connection()
            ||| used_sender.connection() == other_sender.connection() && used_receiver.connection()
                == receiver.connection()
        }),
        call_ensures(
            Sender::<E::SplitEncoder>::reunite::<E>,
            (used_sender, used_receiver, any_shared),
            result,
        ),
    ensures
        result matches Err(e) && e.sender == used_sender && e.receiver == used_receiver && e.shared
            == any_shared,
{
}

/// Halves tell whether their connection is closing or closed, and whether it is closed, and their role.
pub proof fn law_halves_tell<E: ExtensionEncoder, D: ExtensionDecoder>(
    sender: &Sender<E>,
    receiver: &Receiver<D>,
    shared: &Shared,
    sender_active: bool,
    receiver_active: bool,
    sender_closed: bool,
    receiver_closed: bool,
    pair: bool,
    sender_role: Role,
    receiver_role: Role,
)
    requires
        call_ensures(Sender::<E>::is_active, (sender, shared), sender_active),
        call_ensures(Receiver::<D>::is_active, (receiver, shared), receiver_active),
        call_ensures(Sender::<E>::is_closed, (sender, shared), sender_closed),
        call_ensures(Receiver::<D>::is_closed, (receiver, shared), receiver_closed),
        call_ensures(Sender::<E>::is_pair_of::<D>, (sender, receiver), pair),
        call_ensures(Sender::<E>::role, (sender,), sender_role),
        call_ensures(Receiver::<D>::role, (receiver,), receiver_role),
    ensures
        sender_active <==> !(shared@.close_state is NotClosed),
        receiver_active == sender_active,
        sender_closed <==> shared@.close_state is Closed,
        receiver_closed == sender_closed,
        pair <==> sender.connection() == receiver.connection(),
        sender_role == sender.end(),
        receiver_role == receiver.end(),
{
}

} // verus!
