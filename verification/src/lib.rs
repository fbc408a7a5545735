//! WebSocket protocol machines: framing, splitting and the opening handshake of RFC 6455.
//!
//! The library performs no input or output. Readers say how many bytes they are waiting for and
//! writers say which bytes are to be sent, so that any stream can be driven by them.

pub mod ascii;
pub mod autobahn;
pub mod axum;
pub mod buffer;
pub mod crypto;
pub mod errors;
pub mod ext;
pub mod fragment;
pub mod framed;
pub mod handshake;
pub mod http_types;
pub mod identity;
pub mod laws;
pub mod protocol;
pub mod ratchet_ext;
pub mod session;
pub mod split;
pub mod text;
pub mod ws;

pub use errors::{
    Cause, CloseCause, Error, ErrorKind, Failure, HttpError, InvalidHeader, ProtocolError,
};
pub use ext::{NoExt, NoExtDecoder, NoExtEncoder, NoExtProvider};
pub use handshake::client::{subscribe, subscribe_with, UpgradedClient};
pub use handshake::server::{
    accept, accept_with, UpgradedServer, WebSocketResponse, WebSocketUpgrader,
};
pub use handshake::subprotocols::SubprotocolRegistry;
pub use handshake::TryIntoRequest;
pub use http_types::{Request, Response};
pub use protocol::{
    CloseCode, CloseReason, Message, MessageType, PayloadType, Role, WebSocketConfig,
};
pub use session::{CloseState, ReadStep};
pub use identity::Connections;
pub use split::{Receiver, ReuniteError, Sender, Shared};
pub use ws::WebSocket;
