//! Extensions that may be there or not, and providers that are borrowed.

use crate::buffer::contents;
use crate::ext::{NoExt, NoExtProvider};
use crate::http_types::fields;
use crate::ratchet_ext::{
    Extension, ExtensionDecoder, ExtensionEncoder, ExtensionProvider, FrameHeader,
    ReunitableExtension, RsvBits, SplittableExtension,
};
use bytes::BytesMut;
use http::{HeaderMap, HeaderValue};
use std::convert::Infallible;
use vstd::prelude::*;

verus! {

/// A provider that may be there or not negotiates what the provider negotiates, if there is one,
/// and nothing if there is none.
pub proof fn law_optional_provider<E: ExtensionProvider>(
    provider: &Option<E>,
    headers: &HeaderMap,
    server: Result<Option<(E::Extension, HeaderValue)>, E::Error>,
    client: Result<Option<E::Extension>, E::Error>,
    target: &mut HeaderMap,
    done: (),
)
    requires
        call_ensures(
            <Option<E> as ExtensionProvider>::negotiate_server,
            (provider, headers),
            server,
        ),
        call_ensures(
            <Option<E> as ExtensionProvider>::negotiate_client,
            (provider, headers),
            client,
        ),
        call_ensures(<Option<E> as ExtensionProvider>::apply_headers, (provider, target), done),
    ensures
        match *provider {
            Some(provider) => {
                &&& provider.negotiates_server(fields(*headers), server)
                &&& provider.negotiates_client(fields(*headers), client)
                &&& provider.applies(fields(*old(target)), fields(*final(target)))
            },
            None => {
                &&& server matches Ok(None)
                &&& client matches Ok(None)
                &&& fields(*final(target)) == fields(*old(target))
            },
        },
{
}

/// A provider that is borrowed negotiates what the provider negotiates.
pub proof fn law_borrowed_provider<'r, E: ExtensionProvider>(
    provider: &&'r E,
    headers: &HeaderMap,
    server: Result<Option<(E::Extension, HeaderValue)>, E::Error>,
    client: Result<Option<E::Extension>, E::Error>,
    target: &mut HeaderMap,
    done: (),
)
    requires
        call_ensures(
            <&'r E as ExtensionProvider>::negotiate_server,
            (provider, headers),
            server,
        ),
        call_ensures(
            <&'r E as ExtensionProvider>::negotiate_client,
            (provider, headers),
            client,
        ),
        call_ensures(<&'r E as ExtensionProvider>::apply_headers, (provider, target), done),
    ensures
        (**provider).negotiates_server(fields(*headers), server),
        (**provider).negotiates_client(fields(*headers), client),
        (**provider).applies(fields(*old(target)), fields(*final(target))),
{
}

/// The provider of no extension adds no fields and negotiates nothing.
pub proof fn law_no_provider(
    provider: &NoExtProvider,
    headers: &HeaderMap,
    server: Result<Option<(NoExt, HeaderValue)>, Infallible>,
    client: Result<Option<NoExt>, Infallible>,
    target: &mut HeaderMap,
    done: (),
)
    requires
        call_ensures(
            <NoExtProvider as ExtensionProvider>::negotiate_server,
            (provider, headers),
            server,
        ),
        call_ensures(
            <NoExtProvider as ExtensionProvider>::negotiate_client,
            (provider, headers),
            client,
        ),
        call_ensures(<NoExtProvider as ExtensionProvider>::apply_headers, (provider, target), done),
    ensures
        server matches Ok(None),
        client matches Ok(None),
        fields(*final(target)) == fields(*old(target)),
{
}

/// An extension that may be there or not encodes what the extension encodes, if there is one, and
/// leaves payloads and headers as they are if there is none. It decodes in the same way.
pub proof fn law_optional_extension<E: Extension>(
    extension: &mut Option<E>,
    payload: &mut BytesMut,
    header: &mut FrameHeader,
    encoded: Result<(), <E as ExtensionEncoder>::Error>,
    decoding: &mut Option<E>,
    data: &mut BytesMut,
    data_header: &mut FrameHeader,
    decoded: Result<(), <E as ExtensionDecoder>::Error>,
    bits: RsvBits,
)
    requires
        call_ensures(
            <Option<E> as ExtensionEncoder>::encode,
            (extension, payload, header),
            encoded,
        ),
        call_ensures(
            <Option<E> as ExtensionDecoder>::decode,
            (decoding, data, data_header),
            decoded,
        ),
        call_ensures(<Option<E> as Extension>::bits, (&*old(extension),), bits),
    ensures
        match (*old(extension), *final(extension)) {
            (Some(before), Some(after)) => {
                &&& before.encodes(
                    &after,
                    contents(*old(payload)),
                    contents(*final(payload)),
                    *old(header),
                    *final(header),
                    encoded,
                )
                &&& before.has_bits(bits)
            },
            (None, None) => {
                &&& encoded is Ok
                &&& contents(*final(payload)) == contents(*old(payload))
                &&& *final(header) == *old(header)
                &&& !bits.rsv1 && !bits.rsv2 && !bits.rsv3
            },
            _ => false,
        },
        match (*old(decoding), *final(decoding)) {
            (Some(before), Some(after)) => before.decodes(
                &after,
                contents(*old(data)),
                contents(*final(data)),
                *old(data_header),
                *final(data_header),
                decoded,
            ),
            (None, None) => {
                &&& decoded is Ok
                &&& contents(*final(data)) == contents(*old(data))
                &&& *final(data_header) == *old(data_header)
            },
            _ => false,
        },
{
}

/// An extension that may be there or not is split if it is there.
pub proof fn law_optional_split<E: SplittableExtension>(
    extension: Option<E>,
    encoder: Option<E::SplitEncoder>,
    decoder: Option<E::SplitDecoder>,
)
    requires
        call_ensures(
            <Option<E> as SplittableExtension>::split,
            (extension,),
            (encoder, decoder),
        ),
    ensures
        match extension {
            Some(before) => {
                &&& encoder is Some && decoder is Some
                &&& before.splits(encoder->0, decoder->0)
            },
            None => encoder is None && decoder is None,
        },
{
}

/// The halves of an extension are reunited if both are there.
pub proof fn law_optional_reunited<E: ReunitableExtension>(
    encoder: Option<E::SplitEncoder>,
    decoder: Option<E::SplitDecoder>,
    again: Option<E>,
)
    requires
        again.reunites(encoder, decoder),
    ensures
        encoder is None || decoder is None ==> again is None,
        encoder is Some && decoder is Some ==> again is Some && (again->0).reunites(
            encoder->0,
            decoder->0,
        ),
{
}

} // verus!
