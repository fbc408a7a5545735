//! Messages, roles and configuration.

use crate::buffer::frozen;
use crate::protocol::{CloseReason, CloseReasonView};
use bytes::Bytes;
use vstd::prelude::*;

verus! {

/// A received WebSocket message.
#[derive(Debug, PartialEq, Eq)]
pub enum Message {
    /// A text message.
    ///
    /// RFC 6455 is not strict as to when UTF-8 validation takes place. The payload is not
    /// validated here: whoever receives the message does so.
    Text,
    /// A binary message.
    Binary,
    /// A ping message.
    Ping(Bytes),
    /// A pong message.
    Pong(Bytes),
    /// A close message.
    Close(Option<CloseReason>),
}

/// What a message says.
pub enum MessageView {
    Text,
    Binary,
    Ping(Seq<u8>),
    Pong(Seq<u8>),
    Close(Option<CloseReasonView>),
}

impl View for Message {
    type V = MessageView;

    open spec fn view(&self) -> MessageView {
        match *self {
            Message::Text => MessageView::Text,
            Message::Binary => MessageView::Binary,
            Message::Ping(payload) => MessageView::Ping(frozen(payload)),
            Message::Pong(payload) => MessageView::Pong(frozen(payload)),
            Message::Close(Some(reason)) => MessageView::Close(Some(reason@)),
            Message::Close(None) => MessageView::Close(None),
        }
    }
}

impl Clone for Message {
    fn clone(&self) -> (copy: Message)
        ensures
            copy@ == self@,
    {
        match self {
            Message::Text => Message::Text,
            Message::Binary => Message::Binary,
            Message::Ping(payload) => Message::Ping(payload.clone()),
            Message::Pong(payload) => Message::Pong(payload.clone()),
            Message::Close(Some(reason)) => Message::Close(Some(reason.clone())),
            Message::Close(None) => Message::Close(None),
        }
    }
}

impl Message {
    /// Whether this is a text message.
    pub fn is_text(&self) -> (text: bool)
        ensures
            text == (*self is Text),
    {
        matches!(self, Message::Text)
    }

    /// Whether this is a binary message.
    pub fn is_binary(&self) -> (binary: bool)
        ensures
            binary == (*self is Binary),
    {
        matches!(self, Message::Binary)
    }

    /// Whether this is a ping message.
    pub fn is_ping(&self) -> (ping: bool)
        ensures
            ping == (*self is Ping),
    {
        matches!(self, Message::Ping(_))
    }

    /// Whether this is a pong message.
    pub fn is_pong(&self) -> (pong: bool)
        ensures
            pong == (*self is Pong),
    {
        matches!(self, Message::Pong(_))
    }

    /// Whether this is a close message.
    pub fn is_close(&self) -> (close: bool)
        ensures
            close == (*self is Close),
    {
        matches!(self, Message::Close(_))
    }
}

/// The type of a payload to send to a peer.
#[derive(Copy, Clone, Debug, PartialEq, Eq, Structural)]
pub enum PayloadType {
    /// A text message.
    Text,
    /// A binary message.
    Binary,
    /// A ping message.
    Ping,
    /// A pong message.
    Pong,
}

/// A message type to send.
#[derive(Copy, Clone, Debug, PartialEq, Eq, Structural)]
pub enum MessageType {
    /// A text message.
    Text,
    /// A binary message.
    Binary,
}

/// A configuration for building a WebSocket.
#[derive(PartialEq, Eq, Debug, Copy, Clone, Structural)]
pub struct WebSocketConfig {
    /// The maximum payload size that is permitted to be received.
    pub max_message_size: usize,
}

impl Default for WebSocketConfig {
    fn default() -> (config: WebSocketConfig)
        ensures
            config.max_message_size == 64 * 1024 * 1024,
    {
        WebSocketConfig { max_message_size: 67108864 }
    }
}

/// The role of a WebSocket.
#[derive(Debug, Copy, Clone, PartialEq, Eq, Structural)]
pub enum Role {
    /// The WebSocket is a client.
    Client,
    /// The WebSocket is a server.
    Server,
}

impl Role {
    /// Returns whether this WebSocket is a client.
    pub fn is_client(&self) -> (client: bool)
        ensures
            client == (*self is Client),
    {
        matches!(self, Role::Client)
    }

    /// Returns whether this WebSocket is a server.
    pub fn is_server(&self) -> (server: bool)
        ensures
            server == (*self is Server),
    {
        matches!(self, Role::Server)
    }
}

} // verus!
