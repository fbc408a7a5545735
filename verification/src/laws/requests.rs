//! The request that a client opens a connection with.

use crate::ascii::same_but_case;
use crate::buffer::contents;
use crate::crypto::base64_of;
use crate::errors::{http_fault, worded, Error, ErrorKind, ErrorView, HttpErrorView};
use crate::handshake::client::encoding::{
    build_request, complete_request, completed, completed_as, encode_request, encode_with_key,
    field_lines, key_of, request_bytes, settled, ValidatedRequest, ValidatedRequestView,
};
use crate::handshake::client::{opened, rejected, subscribe_with, ClientHandshake};
use crate::handshake::laws::{lemma_name_lengths, lemma_settled};
use crate::handshake::subprotocols::{with_listing, SubprotocolRegistry};
use crate::handshake::{Nonce, TryIntoRequest};
use crate::http_types::{
    field_value, fields, lemma_with_field, pairs_of, value_of, values_of, visible, Field, Request,
    RequestView, Uri, UriView, Version,
};
use crate::laws::client::field_is;
use crate::ratchet_ext::ExtensionProvider;
use bytes::BytesMut;
use http::HeaderMap;
use vstd::prelude::*;
use vstd::utf8::encode_utf8;

verus! {

/// Whether a field can be given a value: it has none, or one that differs at most in the case of
/// letters.
pub open spec fn agrees(fields: Seq<Field>, name: Seq<char>, text: Seq<char>) -> bool {
    value_of(fields, name) matches Some(value) ==> visible(value) && same_but_case(
        value,
        encode_utf8(text),
    )
}

/// Whether a request asks for an upgrade of a connection to a host: with the fields that every such
/// request has and the subprotocols that are offered. The other fields are left.
pub open spec fn asks_host(
    before: Seq<Field>,
    after: Seq<Field>,
    host: Seq<char>,
    listing: Option<Seq<u8>>,
) -> bool {
    &&& field_is(after, "host"@, host)
    &&& field_is(after, "connection"@, "upgrade"@)
    &&& field_is(after, "upgrade"@, "websocket"@)
    &&& field_is(after, "sec-websocket-version"@, "13"@)
    &&& values_of(after, "sec-websocket-protocol"@) == match listing {
        Some(value) => seq![value],
        None => values_of(before, "sec-websocket-protocol"@),
    }
    &&& forall|name: Seq<char>|
        name != "host"@ && name != "connection"@ && name != "upgrade"@ && name
            != "sec-websocket-version"@ && name != "sec-websocket-protocol"@ ==> #[trigger] values_of(
            after,
            name,
        ) == values_of(before, name)
}

/// What a request for a target, with fields, comes to.
///
/// The target needs a host. The fields that the user and the extension have added must agree with
/// those that every request has, and may hold neither subprotocols nor a key.
pub open spec fn completes(
    uri: UriView,
    extended: Seq<Field>,
    listing: Option<Seq<u8>>,
    result: Result<ValidatedRequestView, ErrorView>,
) -> bool {
    let refused = |error: ErrorView|
        result matches Err(e) && (e == error || extended.len() > 6549 && e == http_fault(
            HttpErrorView::TooManyHeaders,
        ));
    let invalid = |name: Seq<char>| http_fault(HttpErrorView::InvalidHeader(name));
    match uri.authority {
        None => refused(http_fault(HttpErrorView::MissingAuthority)),
        Some(host) => if !field_value(encode_utf8(host)) {
            refused(worded(ErrorKind::Http, "failed to parse header value"@))
        } else if !agrees(extended, "host"@, host) {
            refused(invalid("host"@))
        } else if !agrees(extended, "connection"@, "upgrade"@) {
            refused(invalid("connection"@))
        } else if !agrees(extended, "upgrade"@, "websocket"@) {
            refused(invalid("upgrade"@))
        } else if !agrees(extended, "sec-websocket-version"@, "13"@) {
            refused(invalid("sec-websocket-version"@))
        } else if value_of(extended, "sec-websocket-protocol"@) is Some {
            refused(invalid("sec-websocket-protocol"@))
        } else if value_of(extended, "sec-websocket-key"@) is Some {
            refused(invalid("sec-websocket-key"@))
        } else {
            match result {
                Ok(request) => {
                    &&& request.host == host
                    &&& request.path_and_query == match uri.path_and_query {
                        Some(path) => path,
                        None => "/"@,
                    }
                    &&& asks_host(extended, request.fields, host, listing)
                },
                Err(e) => extended.len() > 6549 && e == http_fault(HttpErrorView::TooManyHeaders),
            }
        },
    }
}

/// What building a request says.
pub open spec fn built(result: Result<ValidatedRequest, Error>) -> Result<
    ValidatedRequestView,
    ErrorView,
> {
    match result {
        Ok(request) => Ok(request@),
        Err(e) => Err(e@),
    }
}

/// What a field that has been settled is.
proof fn lemma_settles(
    before: Seq<Field>,
    name: Seq<char>,
    text: Seq<char>,
)
    ensures
        match settled(before, name, encode_utf8(text)) {
            Ok(after) => {
                &&& agrees(before, name, text)
                &&& field_is(after, name, text)
                &&& forall|other: Seq<char>|
                    other != name ==> #[trigger] values_of(after, other) == values_of(before, other)
            },
            Err(e) => !agrees(before, name, text) && e == HttpErrorView::InvalidHeader(name),
        },
{
    if let Ok(after) = settled(before, name, encode_utf8(text)) {
        lemma_settled(before, name, encode_utf8(text), name);
        assert forall|other: Seq<char>| other != name implies #[trigger] values_of(after, other)
            == values_of(before, other) by {
            lemma_settled(before, name, encode_utf8(text), other);
        }
    }
}

/// What completing a request comes to.
proof fn lemma_completes(
    uri: UriView,
    version: Version,
    extended: Seq<Field>,
    listing: Option<Seq<u8>>,
    result: Result<ValidatedRequestView, ErrorView>,
)
    requires
        completed(uri, version, extended, listing) == result || extended.len() > 6549 && result
            == Err::<ValidatedRequestView, ErrorView>(http_fault(HttpErrorView::TooManyHeaders)),
    ensures
        completes(uri, extended, listing, result),
        result matches Ok(request) ==> request.version == version,
{
    lemma_name_lengths();
    if let Some(host) = uri.authority {
        lemma_settles(extended, "host"@, host);
        if let Ok(f1) = settled(extended, "host"@, encode_utf8(host)) {
            lemma_settles(f1, "connection"@, "upgrade"@);
            assert(values_of(f1, "connection"@) == values_of(extended, "connection"@));
            if let Ok(f2) = settled(f1, "connection"@, encode_utf8("upgrade"@)) {
                lemma_settles(f2, "upgrade"@, "websocket"@);
                assert(values_of(f2, "upgrade"@) == values_of(f1, "upgrade"@));
                assert(values_of(f1, "upgrade"@) == values_of(extended, "upgrade"@));
                if let Ok(f3) = settled(f2, "upgrade"@, encode_utf8("websocket"@)) {
                    let number = "sec-websocket-version"@;
                    lemma_settles(f3, number, "13"@);
                    assert(values_of(f3, number) == values_of(f2, number));
                    assert(values_of(f2, number) == values_of(f1, number));
                    assert(values_of(f1, number) == values_of(extended, number));
                    if let Ok(f4) = settled(f3, number, encode_utf8("13"@)) {
                        lemma_listing_added(extended, f1, f2, f3, f4, listing);
                    }
                }
            }
        }
    }
}

/// What the fields of a request are once the subprotocols have been added.
proof fn lemma_listing_added(
    extended: Seq<Field>,
    f1: Seq<Field>,
    f2: Seq<Field>,
    f3: Seq<Field>,
    f4: Seq<Field>,
    listing: Option<Seq<u8>>,
)
    requires
        forall|other: Seq<char>|
            other != "host"@ ==> #[trigger] values_of(f1, other) == values_of(extended, other),
        forall|other: Seq<char>|
            other != "connection"@ ==> #[trigger] values_of(f2, other) == values_of(f1, other),
        forall|other: Seq<char>|
            other != "upgrade"@ ==> #[trigger] values_of(f3, other) == values_of(f2, other),
        forall|other: Seq<char>|
            other != "sec-websocket-version"@ ==> #[trigger] values_of(f4, other) == values_of(
                f3,
                other,
            ),
    ensures
        values_of(f4, "sec-websocket-protocol"@) == values_of(extended, "sec-websocket-protocol"@),
        ({
            let all = with_listing(f4, listing);
            &&& values_of(all, "host"@) == values_of(f1, "host"@)
            &&& values_of(all, "connection"@) == values_of(f2, "connection"@)
            &&& values_of(all, "upgrade"@) == values_of(f3, "upgrade"@)
            &&& values_of(all, "sec-websocket-version"@) == values_of(f4, "sec-websocket-version"@)
            &&& values_of(all, "sec-websocket-key"@) == values_of(extended, "sec-websocket-key"@)
            &&& values_of(all, "sec-websocket-protocol"@) == match listing {
                Some(value) => seq![value],
                None => values_of(extended, "sec-websocket-protocol"@),
            }
            &&& forall|name: Seq<char>|
                name != "host"@ && name != "connection"@ && name != "upgrade"@ && name
                    != "sec-websocket-version"@ && name != "sec-websocket-protocol"@
                    ==> #[trigger] values_of(all, name) == values_of(extended, name)
        }),
{
    lemma_name_lengths();
    let all = with_listing(f4, listing);
    let protocol = "sec-websocket-protocol"@;
    assert forall|name: Seq<char>| true implies #[trigger] values_of(all, name) == (if listing is Some
        && name == protocol {
        seq![listing->0]
    } else {
        values_of(f4, name)
    }) by {
        if let Some(value) = listing {
            lemma_with_field(f4, protocol, seq![value], name);
        }
    }
    assert forall|name: Seq<char>|
        name != "host"@ && name != "connection"@ && name != "upgrade"@ && name
            != "sec-websocket-version"@ implies #[trigger] values_of(f4, name) == values_of(
        extended,
        name,
    ) by {
        assert(values_of(f3, name) == values_of(f2, name));
        assert(values_of(f2, name) == values_of(f1, name));
        assert(values_of(f1, name) == values_of(extended, name));
    }
    assert(values_of(f4, "host"@) == values_of(f3, "host"@));
    assert(values_of(f3, "host"@) == values_of(f2, "host"@));
    assert(values_of(f2, "host"@) == values_of(f1, "host"@));
    assert(values_of(f4, "connection"@) == values_of(f3, "connection"@));
    assert(values_of(f3, "connection"@) == values_of(f2, "connection"@));
    assert(values_of(f4, "upgrade"@) == values_of(f3, "upgrade"@));
}

/// A request by the user becomes a request that opens a connection: it must be a `GET` of HTTP/1.1
/// and may name no extensions, the extension adds its fields, and then those that every request has
/// are added.
pub proof fn law_request_built<E: ExtensionProvider>(
    request: Request,
    extension: &E,
    subprotocols: &SubprotocolRegistry,
    result: Result<ValidatedRequest, Error>,
)
    requires
        call_ensures(build_request::<E>, (request, extension, subprotocols), result),
    ensures
        if request@.method != "GET"@ {
            result matches Err(e) && e@ == http_fault(
                HttpErrorView::HttpMethod(Some(request@.method)),
            )
        } else if !(request@.version is Http11) {
            result matches Err(e) && e@ == http_fault(
                HttpErrorView::HttpVersion(request@.version.text()),
            )
        } else if value_of(request@.fields, "sec-websocket-extensions"@) is Some {
            result matches Err(e) && e@ == http_fault(
                HttpErrorView::InvalidHeader("sec-websocket-extensions"@),
            )
        } else {
            &&& result matches Ok(valid) ==> valid@.version is Http11
            &&& exists|extended: Seq<Field>| #[trigger]
                extension.applies(request@.fields, extended) && completes(
                    request@.uri,
                    extended,
                    subprotocols.listing(),
                    built(result),
                )
        },
{
    if request@.method == "GET"@ && request@.version is Http11 && value_of(
        request@.fields,
        "sec-websocket-extensions"@,
    ) is None {
        let extended = choose|extended: Seq<Field>|
            extension.applies(request@.fields, extended) && #[trigger] completed_as(
                result,
                request@.uri,
                request@.version,
                extended,
                subprotocols.listing(),
            );
        lemma_completes(
            request@.uri,
            request@.version,
            extended,
            subprotocols.listing(),
            built(result),
        );
        assert(extension.applies(request@.fields, extended));
    }
}

/// A request is completed for its target, with the fields that it is given.
pub proof fn law_request_completed(
    uri: Uri,
    version: Version,
    headers: HeaderMap,
    subprotocols: &SubprotocolRegistry,
    result: Result<ValidatedRequest, Error>,
)
    requires
        call_ensures(complete_request, (uri, version, headers, subprotocols), result),
    ensures
        completes(uri@, fields(headers), subprotocols.listing(), built(result)),
        result matches Ok(request) ==> request@.version == version,
{
    lemma_completes(uri@, version, fields(headers), subprotocols.listing(), built(result));
}

/// The line of a field.
pub open spec fn line_of(name: Seq<char>, value: Seq<u8>) -> Seq<u8> {
    encode_utf8("\r\n"@) + encode_utf8(name) + encode_utf8(": "@) + value
}

/// Every field has a line.
proof fn lemma_field_line(pairs: Seq<(Seq<char>, Seq<u8>)>, i: int)
    requires
        0 <= i < pairs.len(),
    ensures
        field_lines(pairs) == field_lines(pairs.take(i)) + line_of(pairs[i].0, pairs[i].1)
            + field_lines(pairs.skip(i + 1)),
    decreases pairs.len(),
{
    let last = pairs.last();
    if i == pairs.len() - 1 {
        assert(pairs.drop_last() =~= pairs.take(i));
        assert(pairs.skip(i + 1) =~= Seq::empty());
        assert(field_lines(pairs) =~= field_lines(pairs.take(i)) + line_of(pairs[i].0, pairs[i].1)
            + field_lines(pairs.skip(i + 1)));
    } else {
        let fewer = pairs.drop_last();
        lemma_field_line(fewer, i);
        assert(fewer.take(i) =~= pairs.take(i));
        assert(pairs.skip(i + 1).drop_last() =~= fewer.skip(i + 1));
        assert(pairs.skip(i + 1).last() == last);
        assert(field_lines(pairs) =~= field_lines(pairs.take(i)) + line_of(pairs[i].0, pairs[i].1)
            + field_lines(pairs.skip(i + 1)));
    }
}

/// A request is written behind what a buffer holds: the line with the method, the target and the
/// version, the host, the key, and a line for each of its fields, in order. Two line breaks end it.
pub proof fn law_request_encoded(dst: &mut BytesMut, request: &ValidatedRequest, key: &Nonce, done: ())
    requires
        call_ensures(encode_with_key, (dst, request, key), done),
    ensures
        ({
            let pairs = pairs_of(request@.fields);
            let start = encode_utf8("GET "@) + encode_utf8(request@.path_and_query) + encode_utf8(
                " "@,
            ) + encode_utf8(request@.version.text()) + encode_utf8("\r\nHost: "@) + encode_utf8(
                request@.host,
            ) + encode_utf8("\r\nsec-websocket-key: "@) + key@;
            &&& contents(*final(dst)) == contents(*old(dst)) + (start + field_lines(pairs)
                + encode_utf8("\r\n\r\n"@))
            &&& pairs.len() == 0 ==> field_lines(pairs).len() == 0
            &&& forall|i: int|
                0 <= i < pairs.len() ==> field_lines(pairs) == field_lines(pairs.take(i)) + line_of(
                    (#[trigger] pairs[i]).0,
                    pairs[i].1,
                ) + field_lines(pairs.skip(i + 1))
        }),
{
    let pairs = pairs_of(request@.fields);
    assert forall|i: int| 0 <= i < pairs.len() implies field_lines(pairs) == field_lines(
        pairs.take(i),
    ) + line_of((#[trigger] pairs[i]).0, pairs[i].1) + field_lines(pairs.skip(i + 1)) by {
        lemma_field_line(pairs, i);
    }
}

/// A request that is written with a key that is drawn is the request that is written with that key.
/// The key is sixteen bytes in Base64.
pub proof fn law_key_drawn(
    dst: &mut BytesMut,
    request: ValidatedRequest,
    nonce: &mut Nonce,
    with_key: &mut BytesMut,
    key: &Nonce,
    done: (),
)
    requires
        call_ensures(encode_request, (dst, request, nonce), done),
        contents(*old(with_key)) == contents(*old(dst)),
        key@ == final(nonce)@,
        call_ensures(encode_with_key, (with_key, &request, key), done),
    ensures
        contents(*final(dst)) == contents(*final(with_key)),
        final(nonce)@.len() == 24,
        exists|bytes: [u8; 16]|
            final(nonce)@ == encode_utf8(#[trigger] base64_of(bytes@)),
{
    let bytes = choose|bytes: [u8; 16]| final(nonce)@ == #[trigger] key_of(bytes@);
    assert(final(nonce)@ == encode_utf8(base64_of(bytes@)));
}

/// The bytes of a request for a path on a host, with a key and a line for each pair of a name and a
/// value.
pub open spec fn opening(
    path: Seq<char>,
    host: Seq<char>,
    key: Seq<u8>,
    pairs: Seq<(Seq<char>, Seq<u8>)>,
) -> Seq<u8> {
    encode_utf8("GET "@) + encode_utf8(path) + encode_utf8(" "@) + encode_utf8("HTTP/1.1"@)
        + encode_utf8("\r\nHost: "@) + encode_utf8(host) + encode_utf8("\r\nsec-websocket-key: "@)
        + key + field_lines(pairs) + encode_utf8("\r\n\r\n"@)
}

/// Whether `after` is `before` and the request that opens a connection: to the host of the target
/// that the user asks for, for its path, with the fields that the user and the extension have added
/// and those that every request has.
pub open spec fn opens<E: ExtensionProvider>(
    before: Seq<u8>,
    after: Seq<u8>,
    request: RequestView,
    provider: E,
    listing: Option<Seq<u8>>,
    key: Seq<u8>,
) -> bool {
    &&& request.method == "GET"@
    &&& request.version is Http11
    &&& value_of(request.fields, "sec-websocket-extensions"@) is None
    &&& request.uri.authority is Some
    &&& key.len() == 24
    &&& exists|bytes: [u8; 16]| key == encode_utf8(#[trigger] base64_of(bytes@))
    &&& exists|extended: Seq<Field>, all: Seq<Field>|
        {
            &&& #[trigger] provider.applies(request.fields, extended)
            &&& #[trigger] asks_host(extended, all, request.uri.authority->0, listing)
            &&& after == before + opening(
                match request.uri.path_and_query {
                    Some(path) => path,
                    None => "/"@,
                },
                request.uri.authority->0,
                key,
                pairs_of(all),
            )
        }
}

/// What opening a connection writes.
proof fn lemma_opens<E: ExtensionProvider>(
    before: Seq<u8>,
    after: Seq<u8>,
    request: RequestView,
    provider: E,
    listing: Option<Seq<u8>>,
    key: Seq<u8>,
)
    requires
        opened(before, after, request, provider, listing, key),
    ensures
        opens(before, after, request, provider, listing, key),
{
    let bytes = choose|bytes: [u8; 16]| key == #[trigger] key_of(bytes@);
    assert(key == encode_utf8(base64_of(bytes@)));
    let (extended, valid) = choose|extended: Seq<Field>, valid: ValidatedRequestView|
        provider.applies(request.fields, extended) && #[trigger] completed(
            request.uri,
            request.version,
            extended,
            listing,
        ) == Ok::<ValidatedRequestView, ErrorView>(valid) && after == before
            + #[trigger] request_bytes(valid, key);
    lemma_completes(request.uri, request.version, extended, listing, Ok(valid));
    assert(provider.applies(request.fields, extended));
    assert(asks_host(extended, valid.fields, valid.host, listing));
}

/// Starting a handshake writes the request that opens a connection to what the user asks for. It
/// fails for what the user asks for, or for a request that cannot be made of it.
pub proof fn law_subscribed<R: TryIntoRequest, E: ExtensionProvider>(
    input: R,
    provider: E,
    subprotocols: SubprotocolRegistry,
    result: Result<ClientHandshake<E>, Error>,
)
    requires
        call_ensures(subscribe_with::<R, E>, (input, provider, subprotocols), result),
    ensures
        match result {
            Ok(handshake) => {
                &&& handshake.offered() == subprotocols
                &&& handshake.provider() == provider
                &&& exists|request: RequestView| #[trigger]
                    input.requests(Ok(request)) && opens(
                        Seq::empty(),
                        handshake.buffered(),
                        request,
                        provider,
                        subprotocols.listing(),
                        handshake.key(),
                    )
            },
            Err(e) => {
                ||| input.requests(Err(e@))
                ||| exists|request: RequestView| #[trigger]
                    input.requests(Ok(request)) && refuses(
                        request,
                        provider,
                        subprotocols.listing(),
                        e@,
                    )
            },
        },
{
    match result {
        Ok(handshake) => {
            let request = choose|request: RequestView|
                #[trigger] input.requests(Ok(request)) && opened(
                    Seq::empty(),
                    handshake.buffered(),
                    request,
                    provider,
                    subprotocols.listing(),
                    handshake.key(),
                );
            lemma_opens(
                Seq::empty(),
                handshake.buffered(),
                request,
                provider,
                subprotocols.listing(),
                handshake.key(),
            );
        },
        Err(e) => {
            if !input.requests(Err(e@)) {
                let request = choose|request: RequestView|
                    #[trigger] input.requests(Ok(request)) && rejected(
                        request,
                        provider,
                        subprotocols.listing(),
                        e,
                    );
                lemma_refuses(request, provider, subprotocols.listing(), e);
            }
        },
    }
}

/// Whether an error is what a request by the user is refused for.
pub open spec fn refuses<E: ExtensionProvider>(
    request: RequestView,
    provider: E,
    listing: Option<Seq<u8>>,
    error: ErrorView,
) -> bool {
    if request.method != "GET"@ {
        error == http_fault(HttpErrorView::HttpMethod(Some(request.method)))
    } else if !(request.version is Http11) {
        error == http_fault(HttpErrorView::HttpVersion(request.version.text()))
    } else if value_of(request.fields, "sec-websocket-extensions"@) is Some {
        error == http_fault(HttpErrorView::InvalidHeader("sec-websocket-extensions"@))
    } else {
        exists|extended: Seq<Field>| #[trigger]
            provider.applies(request.fields, extended) && completes(
                request.uri,
                extended,
                listing,
                Err(error),
            )
    }
}

/// What a request by the user is refused for.
proof fn lemma_refuses<E: ExtensionProvider>(
    request: RequestView,
    provider: E,
    listing: Option<Seq<u8>>,
    e: Error,
)
    requires
        rejected(request, provider, listing, e),
    ensures
        refuses(request, provider, listing, e@),
{
    if request.method == "GET"@ && request.version is Http11 && value_of(
        request.fields,
        "sec-websocket-extensions"@,
    ) is None {
        let extended = choose|extended: Seq<Field>|
            provider.applies(request.fields, extended) && #[trigger] completed_as(
                Err(e),
                request.uri,
                request.version,
                extended,
                listing,
            );
        lemma_completes(request.uri, request.version, extended, listing, Err(e@));
        assert(provider.applies(request.fields, extended));
    }
}

/// A handshake that is started adds the request to what is to be sent, or fails and adds nothing.
pub proof fn law_handshake_encoded<E: ExtensionProvider>(
    handshake: &mut ClientHandshake<E>,
    request: Request,
    result: Result<(), Error>,
)
    requires
        call_ensures(ClientHandshake::<E>::encode, (handshake, request), result),
    ensures
        final(handshake).offered() == old(handshake).offered(),
        final(handshake).provider() == old(handshake).provider(),
        match result {
            Ok(_) => opens(
                old(handshake).buffered(),
                final(handshake).buffered(),
                request@,
                old(handshake).provider(),
                old(handshake).offered().listing(),
                final(handshake).key(),
            ),
            Err(e) => final(handshake).buffered() == old(handshake).buffered() && refuses(
                request@,
                old(handshake).provider(),
                old(handshake).offered().listing(),
                e@,
            ),
        },
{
    match result {
        Ok(_) => lemma_opens(
            old(handshake).buffered(),
            final(handshake).buffered(),
            request@,
            old(handshake).provider(),
            old(handshake).offered().listing(),
            final(handshake).key(),
        ),
        Err(e) => lemma_refuses(
            request@,
            old(handshake).provider(),
            old(handshake).offered().listing(),
            e,
        ),
    }
}

} // verus!
