//! Extensions that do nothing.

use crate::ratchet_ext::{
    Extension, ExtensionDecoder, ExtensionEncoder, ExtensionProvider, FrameHeader,
    ReunitableExtension, RsvBits, SplittableExtension,
};
use crate::http_types::Field;
use bytes::BytesMut;
use http::{HeaderMap, HeaderValue};
use std::convert::Infallible;
use vstd::prelude::*;

verus! {

/// An extension stub that does nothing.
#[derive(Debug, Copy, Clone, PartialEq, Eq, Structural)]
pub struct NoExt;

impl Default for NoExt {
    fn default() -> (ext: NoExt)
        ensures
            ext == NoExt,
    {
        NoExt
    }
}

impl ExtensionEncoder for NoExt {
    type Error = Infallible;

    open spec fn encodes(
        &self,
        after: &Self,
        payload: Seq<u8>,
        encoded: Seq<u8>,
        header: FrameHeader,
        marked: FrameHeader,
        result: Result<(), Infallible>,
    ) -> bool {
        result is Ok && encoded == payload && marked == header
    }

    fn encode(&mut self, _payload: &mut BytesMut, _header: &mut FrameHeader) -> Result<(), Infallible> {
        Ok(())
    }
}

impl ExtensionDecoder for NoExt {
    type Error = Infallible;

    open spec fn decodes(
        &self,
        after: &Self,
        payload: Seq<u8>,
        decoded: Seq<u8>,
        header: FrameHeader,
        marked: FrameHeader,
        result: Result<(), Infallible>,
    ) -> bool {
        result is Ok && decoded == payload && marked == header
    }

    fn decode(&mut self, _payload: &mut BytesMut, _header: &mut FrameHeader) -> Result<(), Infallible> {
        Ok(())
    }
}

/// An extension provider stub that never negotiates an extension.
#[derive(Debug, Copy, Clone, PartialEq, Eq, Structural)]
pub struct NoExtProvider;

impl ExtensionProvider for NoExtProvider {
    type Extension = NoExt;

    type Error = Infallible;

    open spec fn applies(&self, before: Seq<Field>, after: Seq<Field>) -> bool {
        after == before
    }

    open spec fn negotiates_client(
        &self,
        received: Seq<Field>,
        result: Result<Option<NoExt>, Infallible>,
    ) -> bool {
        result matches Ok(None)
    }

    open spec fn negotiates_server(
        &self,
        received: Seq<Field>,
        result: Result<Option<(NoExt, HeaderValue)>, Infallible>,
    ) -> bool {
        result matches Ok(None)
    }

    fn apply_headers(&self, _headers: &mut HeaderMap) {
    }

    fn negotiate_client(&self, _headers: &HeaderMap) -> Result<Option<NoExt>, Infallible> {
        Ok(None)
    }

    fn negotiate_server(&self, _headers: &HeaderMap) -> Result<
        Option<(NoExt, HeaderValue)>,
        Infallible,
    > {
        Ok(None)
    }
}

impl Extension for NoExt {
    open spec fn has_bits(&self, bits: RsvBits) -> bool {
        bits == (RsvBits { rsv1: false, rsv2: false, rsv3: false })
    }

    fn bits(&self) -> RsvBits {
        RsvBits { rsv1: false, rsv2: false, rsv3: false }
    }
}

impl SplittableExtension for NoExt {
    type SplitEncoder = NoExtEncoder;

    type SplitDecoder = NoExtDecoder;

    open spec fn splits(&self, encoder: NoExtEncoder, decoder: NoExtDecoder) -> bool {
        encoder == NoExtEncoder && decoder == NoExtDecoder
    }

    fn split(self) -> (NoExtEncoder, NoExtDecoder) {
        (NoExtEncoder, NoExtDecoder)
    }
}

impl ReunitableExtension for NoExt {
    open spec fn reunites(&self, encoder: NoExtEncoder, decoder: NoExtDecoder) -> bool {
        *self == NoExt
    }

    fn reunite(_encoder: NoExtEncoder, _decoder: NoExtDecoder) -> NoExt {
        NoExt
    }
}

/// The encoder of an extension that does nothing.
#[derive(Debug, Copy, Clone, PartialEq, Eq, Structural)]
pub struct NoExtEncoder;

impl ExtensionEncoder for NoExtEncoder {
    type Error = Infallible;

    open spec fn encodes(
        &self,
        after: &Self,
        payload: Seq<u8>,
        encoded: Seq<u8>,
        header: FrameHeader,
        marked: FrameHeader,
        result: Result<(), Infallible>,
    ) -> bool {
        result is Ok && encoded == payload && marked == header
    }

    fn encode(&mut self, _payload: &mut BytesMut, _header: &mut FrameHeader) -> Result<(), Infallible> {
        Ok(())
    }
}

/// The decoder of an extension that does nothing.
#[derive(Debug, Copy, Clone, PartialEq, Eq, Structural)]
pub struct NoExtDecoder;

impl ExtensionDecoder for NoExtDecoder {
    type Error = Infallible;

    open spec fn decodes(
        &self,
        after: &Self,
        payload: Seq<u8>,
        decoded: Seq<u8>,
        header: FrameHeader,
        marked: FrameHeader,
        result: Result<(), Infallible>,
    ) -> bool {
        result is Ok && decoded == payload && marked == header
    }

    fn decode(&mut self, _payload: &mut BytesMut, _header: &mut FrameHeader) -> Result<(), Infallible> {
        Ok(())
    }
}

} // verus!
