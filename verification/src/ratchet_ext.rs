//! Interfaces for writing extensions.
//!
//! An extension takes two traits: `ExtensionProvider` negotiates it during the handshake, and
//! `Extension`, with its bounds, uses it during the session. If a WebSocket is to be split into its
//! sending and receiving halves then the extension implements `SplittableExtension`, and if the
//! halves are to be reunited, `ReunitableExtension`.
//!
//! What an extension does is up to it. The specification functions of the traits say what an
//! implementation may do: those that are not given allow everything.

use crate::buffer::contents;
use crate::http_types::{fields, Field};
use crate::protocol::weight;
use bytes::BytesMut;
use http::{HeaderMap, HeaderValue};
use vstd::prelude::*;

verus! {

/// A trait for negotiating an extension during a WebSocket handshake.
///
/// Extension providers allow for a single configuration to be used to negotiate multiple peers.
pub trait ExtensionProvider {
    /// The extension produced by this provider if the negotiation was successful.
    type Extension: Extension;

    /// The error produced by this extension if the handshake failed.
    type Error;

    /// Whether the fields of a request may be `before` and then, with those of this extension,
    /// `after`.
    open spec fn applies(&self, before: Seq<Field>, after: Seq<Field>) -> bool {
        true
    }

    /// Whether the negotiation of what the server has responded with may come to `result`.
    open spec fn negotiates_client(
        &self,
        received: Seq<Field>,
        result: Result<Option<Self::Extension>, Self::Error>,
    ) -> bool {
        true
    }

    /// Whether the negotiation of what a client has sent may come to `result`.
    open spec fn negotiates_server(
        &self,
        received: Seq<Field>,
        result: Result<Option<(Self::Extension, HeaderValue)>, Self::Error>,
    ) -> bool {
        true
    }

    /// Apply this extension's headers to a request.
    fn apply_headers(&self, headers: &mut HeaderMap)
        ensures
            self.applies(fields(*old(headers)), fields(*final(headers))),
    ;

    /// Negotiate the headers that the server responded with.
    ///
    /// If it is possible to negotiate this extension, then this should return an initialised
    /// extension. If it is not, then this should return `None`, not `Err`: an error should only be
    /// returned if the server responded with a malformatted header or a value that was not
    /// expected, and it fails the connection.
    fn negotiate_client(&self, headers: &HeaderMap) -> (result: Result<
        Option<Self::Extension>,
        Self::Error,
    >)
        ensures
            self.negotiates_client(fields(*headers), result),
    ;

    /// Negotiate the headers that a client has sent.
    ///
    /// If it is possible to negotiate this extension, then this should return an initialised
    /// extension and a value to return to the client. If it is not, then this should return `None`,
    /// not `Err`: an error should only be returned if the client sent a malformatted header or a
    /// value that was not expected, and it fails the connection.
    fn negotiate_server(&self, headers: &HeaderMap) -> (result: Result<
        Option<(Self::Extension, HeaderValue)>,
        Self::Error,
    >)
        ensures
            self.negotiates_server(fields(*headers), result),
    ;
}

impl<'r, E: ExtensionProvider> ExtensionProvider for &'r E {
    type Extension = E::Extension;

    type Error = E::Error;

    open spec fn applies(&self, before: Seq<Field>, after: Seq<Field>) -> bool {
        (**self).applies(before, after)
    }

    open spec fn negotiates_client(
        &self,
        received: Seq<Field>,
        result: Result<Option<Self::Extension>, Self::Error>,
    ) -> bool {
        (**self).negotiates_client(received, result)
    }

    open spec fn negotiates_server(
        &self,
        received: Seq<Field>,
        result: Result<Option<(Self::Extension, HeaderValue)>, Self::Error>,
    ) -> bool {
        (**self).negotiates_server(received, result)
    }

    fn apply_headers(&self, headers: &mut HeaderMap) {
        E::apply_headers(*self, headers)
    }

    fn negotiate_client(&self, headers: &HeaderMap) -> Result<
        Option<Self::Extension>,
        Self::Error,
    > {
        E::negotiate_client(*self, headers)
    }

    fn negotiate_server(&self, headers: &HeaderMap) -> Result<
        Option<(Self::Extension, HeaderValue)>,
        Self::Error,
    > {
        E::negotiate_server(*self, headers)
    }
}

impl<'r, E: ExtensionProvider> ExtensionProvider for &'r mut E {
    type Extension = E::Extension;

    type Error = E::Error;

    open spec fn applies(&self, before: Seq<Field>, after: Seq<Field>) -> bool {
        (**self).applies(before, after)
    }

    open spec fn negotiates_client(
        &self,
        received: Seq<Field>,
        result: Result<Option<Self::Extension>, Self::Error>,
    ) -> bool {
        (**self).negotiates_client(received, result)
    }

    open spec fn negotiates_server(
        &self,
        received: Seq<Field>,
        result: Result<Option<(Self::Extension, HeaderValue)>, Self::Error>,
    ) -> bool {
        (**self).negotiates_server(received, result)
    }

    fn apply_headers(&self, headers: &mut HeaderMap) {
        E::apply_headers(*self, headers)
    }

    fn negotiate_client(&self, headers: &HeaderMap) -> Result<
        Option<Self::Extension>,
        Self::Error,
    > {
        E::negotiate_client(*self, headers)
    }

    fn negotiate_server(&self, headers: &HeaderMap) -> Result<
        Option<(Self::Extension, HeaderValue)>,
        Self::Error,
    > {
        E::negotiate_server(*self, headers)
    }
}

impl<E: ExtensionProvider> ExtensionProvider for Option<E> {
    type Extension = E::Extension;

    type Error = E::Error;

    open spec fn applies(&self, before: Seq<Field>, after: Seq<Field>) -> bool {
        match *self {
            Some(provider) => provider.applies(before, after),
            None => after == before,
        }
    }

    open spec fn negotiates_client(
        &self,
        received: Seq<Field>,
        result: Result<Option<Self::Extension>, Self::Error>,
    ) -> bool {
        match *self {
            Some(provider) => provider.negotiates_client(received, result),
            None => result matches Ok(None),
        }
    }

    open spec fn negotiates_server(
        &self,
        received: Seq<Field>,
        result: Result<Option<(Self::Extension, HeaderValue)>, Self::Error>,
    ) -> bool {
        match *self {
            Some(provider) => provider.negotiates_server(received, result),
            None => result matches Ok(None),
        }
    }

    fn apply_headers(&self, headers: &mut HeaderMap) {
        if let Some(provider) = self {
            provider.apply_headers(headers);
        }
    }

    fn negotiate_client(&self, headers: &HeaderMap) -> Result<
        Option<Self::Extension>,
        Self::Error,
    > {
        match self {
            Some(provider) => provider.negotiate_client(headers),
            None => Ok(None),
        }
    }

    fn negotiate_server(&self, headers: &HeaderMap) -> Result<
        Option<(Self::Extension, HeaderValue)>,
        Self::Error,
    > {
        match self {
            Some(provider) => provider.negotiate_server(headers),
            None => Ok(None),
        }
    }
}

/// A data code for a frame.
#[derive(Debug, Copy, Clone, PartialEq, Eq, Structural)]
pub enum OpCode {
    /// The message is a continuation.
    Continuation,
    /// The message is text.
    Text,
    /// The message is binary.
    Binary,
}

impl OpCode {
    /// Returns whether this `OpCode` is a continuation.
    pub fn is_continuation(&self) -> (continuation: bool)
        ensures
            continuation == (*self is Continuation),
    {
        matches!(self, OpCode::Continuation)
    }

    /// Returns whether this `OpCode` is text.
    pub fn is_text(&self) -> (text: bool)
        ensures
            text == (*self is Text),
    {
        matches!(self, OpCode::Text)
    }

    /// Returns whether this `OpCode` is binary.
    pub fn is_binary(&self) -> (binary: bool)
        ensures
            binary == (*self is Binary),
    {
        matches!(self, OpCode::Binary)
    }
}

/// A frame's header.
///
/// This is passed to `ExtensionEncoder::encode` and `ExtensionDecoder::decode`. Changes to the
/// reserved bits on an encode call are sent to the peer. Any other changes have no effect.
#[derive(Debug, Copy, Clone, PartialEq, Eq, Structural)]
pub struct FrameHeader {
    /// Whether this is the final frame.
    ///
    /// Changing this field has no effect.
    pub fin: bool,
    /// Whether `rsv1` was high.
    pub rsv1: bool,
    /// Whether `rsv2` was high.
    pub rsv2: bool,
    /// Whether `rsv3` was high.
    pub rsv3: bool,
    /// The frame's data code.
    ///
    /// Changing this field has no effect.
    pub opcode: OpCode,
}

/// The bits that an extension may set high during a session.
///
/// If any other reserved bits are received from a peer during a session then the session fails.
#[derive(Debug, Copy, Clone, PartialEq, Eq, Structural)]
pub struct RsvBits {
    /// Whether `rsv1` is allowed to be high.
    pub rsv1: bool,
    /// Whether `rsv2` is allowed to be high.
    pub rsv2: bool,
    /// Whether `rsv3` is allowed to be high.
    pub rsv3: bool,
}

impl From<RsvBits> for u8 {
    fn from(bits: RsvBits) -> (byte: u8) {
        let rsv1: u8 = if bits.rsv1 { 64 } else { 0 };
        let rsv2: u8 = if bits.rsv2 { 32 } else { 0 };
        let rsv3: u8 = if bits.rsv3 { 16 } else { 0 };
        rsv1 + rsv2 + rsv3
    }
}

impl vstd::std_specs::convert::FromSpecImpl<RsvBits> for u8 {
    open spec fn obeys_from_spec() -> bool {
        true
    }

    open spec fn from_spec(bits: RsvBits) -> u8 {
        (weight(bits.rsv1, 64) + weight(bits.rsv2, 32) + weight(bits.rsv3, 16)) as u8
    }
}

/// A negotiated WebSocket extension.
pub trait Extension: ExtensionEncoder + ExtensionDecoder {
    /// Whether these may be the reserved bits of this extension.
    open spec fn has_bits(&self, bits: RsvBits) -> bool {
        true
    }

    /// Returns the reserved bits that this extension may set high during a session.
    fn bits(&self) -> (bits: RsvBits)
        ensures
            self.has_bits(bits),
    ;
}

/// A per-message frame encoder.
pub trait ExtensionEncoder {
    /// The error type produced by this extension if encoding fails.
    type Error;

    /// Whether this may make `encoded` of a payload and `marked` of its header, come to `result` and
    /// then be `after`.
    open spec fn encodes(
        &self,
        after: &Self,
        payload: Seq<u8>,
        encoded: Seq<u8>,
        header: FrameHeader,
        marked: FrameHeader,
        result: Result<(), Self::Error>,
    ) -> bool {
        true
    }

    /// Invoked when a data frame is to be sent.
    ///
    /// An implementation may opt to not encode a frame, such as one whose payload is not large
    /// enough to require encoding.
    fn encode(&mut self, payload: &mut BytesMut, header: &mut FrameHeader) -> (result: Result<
        (),
        Self::Error,
    >)
        ensures
            old(self).encodes(
                final(self),
                contents(*old(payload)),
                contents(*final(payload)),
                *old(header),
                *final(header),
                result,
            ),
    ;
}

/// A per-message frame decoder.
pub trait ExtensionDecoder {
    /// The error type produced by this extension if decoding fails.
    type Error;

    /// Whether this may make `decoded` of a payload and `marked` of its header, come to `result` and
    /// then be `after`.
    open spec fn decodes(
        &self,
        after: &Self,
        payload: Seq<u8>,
        decoded: Seq<u8>,
        header: FrameHeader,
        marked: FrameHeader,
        result: Result<(), Self::Error>,
    ) -> bool {
        true
    }

    /// Invoked when a data frame has been received.
    ///
    /// If the frame is not final or a continuation then `payload` holds all of the data received up
    /// to and with this frame. An implementation may opt to not decode a frame, such as one whose
    /// payload is not large enough to require decoding.
    fn decode(&mut self, payload: &mut BytesMut, header: &mut FrameHeader) -> (result: Result<
        (),
        Self::Error,
    >)
        ensures
            old(self).decodes(
                final(self),
                contents(*old(payload)),
                contents(*final(payload)),
                *old(header),
                *final(header),
                result,
            ),
    ;
}

/// An extension that can be split into its encoder and decoder halves, so that a WebSocket can be
/// split into its sender and receiver halves.
pub trait SplittableExtension: Extension + Sized {
    /// The type of the encoder.
    type SplitEncoder: ExtensionEncoder;

    /// The type of the decoder.
    type SplitDecoder: ExtensionDecoder;

    /// Whether these may be the halves of this extension.
    open spec fn splits(&self, encoder: Self::SplitEncoder, decoder: Self::SplitDecoder) -> bool {
        true
    }

    /// Split this extension into its encoder and decoder halves.
    fn split(self) -> (halves: (Self::SplitEncoder, Self::SplitDecoder))
        ensures
            self.splits(halves.0, halves.1),
    ;
}

/// An extension whose encoder and decoder can be reunited.
pub trait ReunitableExtension: SplittableExtension {
    /// Whether this may be the extension that an encoder and a decoder are reunited into.
    open spec fn reunites(&self, encoder: Self::SplitEncoder, decoder: Self::SplitDecoder) -> bool {
        true
    }

    /// Reunite this encoder and decoder back into a single extension.
    fn reunite(encoder: Self::SplitEncoder, decoder: Self::SplitDecoder) -> (ext: Self)
        ensures
            ext.reunites(encoder, decoder),
    ;
}

impl<E: Extension> Extension for Option<E> {
    open spec fn has_bits(&self, bits: RsvBits) -> bool {
        match *self {
            Some(ext) => ext.has_bits(bits),
            None => bits == (RsvBits { rsv1: false, rsv2: false, rsv3: false }),
        }
    }

    fn bits(&self) -> RsvBits {
        match self {
            Some(ext) => ext.bits(),
            None => RsvBits { rsv1: false, rsv2: false, rsv3: false },
        }
    }
}

impl<E: ExtensionEncoder> ExtensionEncoder for Option<E> {
    type Error = E::Error;

    open spec fn encodes(
        &self,
        after: &Self,
        payload: Seq<u8>,
        encoded: Seq<u8>,
        header: FrameHeader,
        marked: FrameHeader,
        result: Result<(), Self::Error>,
    ) -> bool {
        match (*self, *after) {
            (Some(ext), Some(after)) => ext.encodes(&after, payload, encoded, header, marked, result),
            (None, None) => result is Ok && encoded == payload && marked == header,
            _ => false,
        }
    }

    fn encode(&mut self, payload: &mut BytesMut, header: &mut FrameHeader) -> Result<
        (),
        Self::Error,
    > {
        match self {
            Some(ext) => ext.encode(payload, header),
            None => Ok(()),
        }
    }
}

impl<E: ExtensionDecoder> ExtensionDecoder for Option<E> {
    type Error = E::Error;

    open spec fn decodes(
        &self,
        after: &Self,
        payload: Seq<u8>,
        decoded: Seq<u8>,
        header: FrameHeader,
        marked: FrameHeader,
        result: Result<(), Self::Error>,
    ) -> bool {
        match (*self, *after) {
            (Some(ext), Some(after)) => ext.decodes(&after, payload, decoded, header, marked, result),
            (None, None) => result is Ok && decoded == payload && marked == header,
            _ => false,
        }
    }

    fn decode(&mut self, payload: &mut BytesMut, header: &mut FrameHeader) -> Result<
        (),
        Self::Error,
    > {
        match self {
            Some(ext) => ext.decode(payload, header),
            None => Ok(()),
        }
    }
}

impl<E: SplittableExtension> SplittableExtension for Option<E> {
    type SplitEncoder = Option<E::SplitEncoder>;

    type SplitDecoder = Option<E::SplitDecoder>;

    open spec fn splits(&self, encoder: Self::SplitEncoder, decoder: Self::SplitDecoder) -> bool {
        match (*self, encoder, decoder) {
            (Some(ext), Some(encoder), Some(decoder)) => ext.splits(encoder, decoder),
            (None, None, None) => true,
            _ => false,
        }
    }

    fn split(self) -> (Self::SplitEncoder, Self::SplitDecoder) {
        match self {
            Some(ext) => {
                let (encoder, decoder) = ext.split();
                (Some(encoder), Some(decoder))
            },
            None => (None, None),
        }
    }
}

impl<E: ReunitableExtension> ReunitableExtension for Option<E> {
    open spec fn reunites(&self, encoder: Self::SplitEncoder, decoder: Self::SplitDecoder) -> bool {
        match (*self, encoder, decoder) {
            (Some(ext), Some(encoder), Some(decoder)) => ext.reunites(encoder, decoder),
            (Some(_), _, _) => false,
            (None, _, _) => encoder is None || decoder is None,
        }
    }

    fn reunite(encoder: Self::SplitEncoder, decoder: Self::SplitDecoder) -> Self {
        match (encoder, decoder) {
            (Some(encoder), Some(decoder)) => Some(E::reunite(encoder, decoder)),
            _ => None,
        }
    }
}

} // verus!
