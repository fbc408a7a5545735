//! Requests that open a connection.

use crate::ascii::{eq_ignore_case, same_but_case};
use crate::buffer::contents;
use crate::crypto::{base64, base64_char, base64_of, random_nonce};
use crate::errors::{
    http_fault, worded, Cause, Error, ErrorKind, ErrorView, HttpError, HttpErrorView,
};
use crate::handshake::subprotocols::{with_listing, SubprotocolRegistry};
use crate::handshake::{
    lemma_plain_values, Nonce, UPGRADE_STR, WEBSOCKET_STR, WEBSOCKET_VERSION_STR,
};
use crate::http_types::{
    field_value, fields, get, insert, lemma_plain_names, lemma_with_field, make_value, name_text,
    pairs, pairs_of, plain_name, static_name, static_value, value_bytes, value_of, value_str,
    visible, with_field, Field, Request, RequestView, UriView, Version, CONNECTION, HOST, MAP_ROOM,
    SEC_WEBSOCKET_EXTENSIONS, SEC_WEBSOCKET_KEY, SEC_WEBSOCKET_PROTOCOL, SEC_WEBSOCKET_VERSION,
    UPGRADE,
};
use crate::ratchet_ext::ExtensionProvider;
use crate::text::eq_text;
use bytes::BytesMut;
use http::{HeaderMap, HeaderValue};
use vstd::prelude::*;
use vstd::utf8::{encode_utf8, is_ascii_chars};

verus! {

/// The message of text that cannot be the value of a field.
pub const BAD_HEADER_VALUE: &'static str = "failed to parse header value";

/// A request that opens a connection.
#[derive(Debug)]
pub struct ValidatedRequest {
    version: Version,
    headers: HeaderMap,
    path_and_query: String,
    host: String,
}

/// What a `ValidatedRequest` says.
pub struct ValidatedRequestView {
    pub version: Version,
    pub fields: Seq<Field>,
    pub path_and_query: Seq<char>,
    pub host: Seq<char>,
}

impl View for ValidatedRequest {
    type V = ValidatedRequestView;

    closed spec fn view(&self) -> ValidatedRequestView {
        ValidatedRequestView {
            version: self.version,
            fields: fields(self.headers),
            path_and_query: self.path_and_query@,
            host: self.host@,
        }
    }
}

/// The fields after a field has been given the value that it must have, or what they are rejected
/// for if it has another.
pub open spec fn settled(fields: Seq<Field>, name: Seq<char>, expected: Seq<u8>) -> Result<
    Seq<Field>,
    HttpErrorView,
> {
    match value_of(fields, name) {
        Some(value) => if visible(value) && same_but_case(value, expected) {
            Ok(fields)
        } else {
            Err(HttpErrorView::InvalidHeader(name))
        },
        None => Ok(with_field(fields, name, seq![expected])),
    }
}

/// Gives a field the value that it must have, if it has none, and checks it otherwise. A map with up
/// to 6553 names always has room for it.
fn validate_or_insert(headers: &mut HeaderMap, name: &'static str, expected: HeaderValue) -> (result:
    Result<(), HttpError>)
    requires
        plain_name(name@),
    ensures
        match result {
            Ok(_) => settled(fields(*old(headers)), name@, value_bytes(expected)) == Ok::<
                Seq<Field>,
                HttpErrorView,
            >(fields(*final(headers))),
            Err(e) => {
                ||| settled(fields(*old(headers)), name@, value_bytes(expected)) == Err::<
                    Seq<Field>,
                    HttpErrorView,
                >(e@)
                ||| e@ == HttpErrorView::TooManyHeaders && fields(*old(headers)).len() > MAP_ROOM
            },
        },
        result is Ok ==> fields(*final(headers)).len() <= fields(*old(headers)).len() + 1,
{
    if let Some(value) = get(headers, name) {
        match value_str(value) {
            Some(_) if eq_ignore_case(value.as_bytes(), expected.as_bytes()) => Ok(()),
            _ => Err(HttpError::InvalidHeader(name.to_string())),
        }
    } else {
        proof {
            lemma_with_field(fields(*headers), name@, seq![value_bytes(expected)], name@);
        }
        if insert(headers, static_name(name), expected) {
            Ok(())
        } else {
            Err(HttpError::TooManyHeaders)
        }
    }
}

/// What a request is rejected for before an extension sees its fields.
pub open spec fn request_fault(request: RequestView) -> Option<HttpErrorView> {
    if request.method != "GET"@ {
        Some(HttpErrorView::HttpMethod(Some(request.method)))
    } else if !(request.version is Http11) {
        Some(HttpErrorView::HttpVersion(request.version.text()))
    } else if value_of(request.fields, SEC_WEBSOCKET_EXTENSIONS@) is Some {
        Some(HttpErrorView::InvalidHeader(SEC_WEBSOCKET_EXTENSIONS@))
    } else {
        None
    }
}

/// The fields that every request has.
pub open spec fn with_required(fields: Seq<Field>, host: Seq<char>) -> Result<
    Seq<Field>,
    HttpErrorView,
> {
    match settled(fields, HOST@, encode_utf8(host)) {
        Err(e) => Err(e),
        Ok(fields) => match settled(fields, CONNECTION@, encode_utf8(UPGRADE_STR@)) {
            Err(e) => Err(e),
            Ok(fields) => match settled(fields, UPGRADE@, encode_utf8(WEBSOCKET_STR@)) {
                Err(e) => Err(e),
                Ok(fields) => settled(
                    fields,
                    SEC_WEBSOCKET_VERSION@,
                    encode_utf8(WEBSOCKET_VERSION_STR@),
                ),
            },
        },
    }
}

/// The request for a target with fields that an extension has seen, or what it is rejected for.
pub open spec fn completed(
    uri: UriView,
    version: Version,
    fields: Seq<Field>,
    listing: Option<Seq<u8>>,
) -> Result<ValidatedRequestView, ErrorView> {
    match uri.authority {
        None => Err(http_fault(HttpErrorView::MissingAuthority)),
        Some(host) => if !field_value(encode_utf8(host)) {
            Err(worded(ErrorKind::Http, BAD_HEADER_VALUE@))
        } else {
            match with_required(fields, host) {
                Err(e) => Err(http_fault(e)),
                Ok(fields) => {
                    let all = with_listing(fields, listing);
                    if value_of(fields, SEC_WEBSOCKET_PROTOCOL@) is Some {
                        Err(http_fault(HttpErrorView::InvalidHeader(SEC_WEBSOCKET_PROTOCOL@)))
                    } else if value_of(all, SEC_WEBSOCKET_KEY@) is Some {
                        Err(http_fault(HttpErrorView::InvalidHeader(SEC_WEBSOCKET_KEY@)))
                    } else {
                        Ok(
                            ValidatedRequestView {
                                version,
                                fields: all,
                                path_and_query: match uri.path_and_query {
                                    Some(path) => path,
                                    None => "/"@,
                                },
                                host,
                            },
                        )
                    }
                },
            }
        },
    }
}

/// Whether a request was completed as it should be. With more than 6548 names there may be no room
/// for those that are added.
pub open spec fn completed_as(
    result: Result<ValidatedRequest, Error>,
    uri: UriView,
    version: Version,
    fields: Seq<Field>,
    listing: Option<Seq<u8>>,
) -> bool {
    match result {
        Ok(request) => completed(uri, version, fields, listing) == Ok::<
            ValidatedRequestView,
            ErrorView,
        >(request@),
        Err(e) => {
            ||| completed(uri, version, fields, listing) == Err::<ValidatedRequestView, ErrorView>(
                e@,
            )
            ||| e@ == http_fault(HttpErrorView::TooManyHeaders) && fields.len() + 4 > MAP_ROOM
        },
    }
}

/// Adds to the fields of a request those that every request has, and the subprotocols, which may not
/// be among the fields before. The key is added when the request is encoded.
pub fn complete_request(
    uri: crate::http_types::Uri,
    version: Version,
    headers: HeaderMap,
    subprotocols: &SubprotocolRegistry,
) -> (result: Result<ValidatedRequest, Error>)
    ensures
        completed_as(result, uri@, version, fields(headers), subprotocols.listing()),
{
    proof {
        lemma_plain_names();
        lemma_plain_values();
    }
    let mut headers = headers;
    let host = match uri.authority {
        Some(host) => host,
        None => return Err(Error::http(HttpError::MissingAuthority)),
    };
    let host_value = match make_value(host.as_str().as_bytes()) {
        Some(value) => value,
        None => {
            return Err(
                Error::with_cause(ErrorKind::Http, Cause::Message(BAD_HEADER_VALUE.to_string())),
            );
        },
    };
    if let Err(e) = validate_or_insert(&mut headers, HOST, host_value) {
        return Err(Error::http(e));
    }
    if let Err(e) = validate_or_insert(&mut headers, CONNECTION, static_value(UPGRADE_STR)) {
        return Err(Error::http(e));
    }
    if let Err(e) = validate_or_insert(&mut headers, UPGRADE, static_value(WEBSOCKET_STR)) {
        return Err(Error::http(e));
    }
    if let Err(e) = validate_or_insert(
        &mut headers,
        SEC_WEBSOCKET_VERSION,
        static_value(WEBSOCKET_VERSION_STR),
    ) {
        return Err(Error::http(e));
    }
    if get(&headers, SEC_WEBSOCKET_PROTOCOL).is_some() {
        return Err(Error::http(HttpError::InvalidHeader(SEC_WEBSOCKET_PROTOCOL.to_string())));
    }
    if !subprotocols.try_apply_to(&mut headers) {
        return Err(Error::http(HttpError::TooManyHeaders));
    }
    if get(&headers, SEC_WEBSOCKET_KEY).is_some() {
        return Err(Error::http(HttpError::InvalidHeader(SEC_WEBSOCKET_KEY.to_string())));
    }
    let path_and_query = match uri.path_and_query {
        Some(path) => path,
        None => "/".to_string(),
    };
    Ok(ValidatedRequest { version, headers, path_and_query, host })
}

/// Whether a request by the user was made a request that opens a connection as it should be: with the
/// fields that the extension has added before those that every request has.
pub open spec fn built_as<E: ExtensionProvider>(
    result: Result<ValidatedRequest, Error>,
    request: RequestView,
    extension: E,
    listing: Option<Seq<u8>>,
) -> bool {
    match request_fault(request) {
        Some(e) => result matches Err(error) && error@ == http_fault(e),
        None => exists|extended: Seq<Field>|
            extension.applies(request.fields, extended) && #[trigger] completed_as(
                result,
                request.uri,
                request.version,
                extended,
                listing,
            ),
    }
}

/// Makes a request that opens a connection of a request by the user. The extension adds its fields
/// first, so that it cannot invalidate those that every request has.
pub fn build_request<E: ExtensionProvider>(
    request: Request,
    extension: &E,
    subprotocols: &SubprotocolRegistry,
) -> (result: Result<ValidatedRequest, Error>)
    ensures
        built_as(result, request@, *extension, subprotocols.listing()),
{
    proof {
        lemma_plain_names();
    }
    let Request { method, uri, version, mut headers } = request;
    if !eq_text(method.as_str(), "GET") {
        return Err(Error::http(HttpError::HttpMethod(Some(method))));
    }
    if !matches!(version, Version::Http11) {
        return Err(Error::http(HttpError::HttpVersion(version.as_str().to_string())));
    }
    if get(&headers, SEC_WEBSOCKET_EXTENSIONS).is_some() {
        return Err(Error::http(HttpError::InvalidHeader(SEC_WEBSOCKET_EXTENSIONS.to_string())));
    }
    extension.apply_headers(&mut headers);
    let ghost extended = fields(headers);
    let result = complete_request(uri, version, headers, subprotocols);
    assert(completed_as(
        result,
        request@.uri,
        request@.version,
        extended,
        subprotocols.listing(),
    ));
    result
}

/// The lines of fields, each behind a line break.
pub open spec fn field_lines(pairs: Seq<(Seq<char>, Seq<u8>)>) -> Seq<u8>
    decreases pairs.len(),
{
    if pairs.len() == 0 {
        Seq::empty()
    } else {
        field_lines(pairs.drop_last()) + encode_utf8("\r\n"@) + encode_utf8(pairs.last().0)
            + encode_utf8(": "@) + pairs.last().1
    }
}

/// The bytes of a request with a key.
pub open spec fn request_bytes(request: ValidatedRequestView, key: Seq<u8>) -> Seq<u8> {
    encode_utf8("GET "@) + encode_utf8(request.path_and_query) + encode_utf8(" "@) + encode_utf8(
        request.version.text(),
    ) + encode_utf8("\r\nHost: "@) + encode_utf8(request.host) + encode_utf8(
        "\r\nsec-websocket-key: "@,
    ) + key + field_lines(pairs_of(request.fields)) + encode_utf8("\r\n\r\n"@)
}

/// Writes text to a buffer.
fn extend(dst: &mut BytesMut, data: &str)
    ensures
        contents(*final(dst)) == contents(*old(dst)) + encode_utf8(data@),
{
    dst.extend_from_slice(data.as_bytes());
}

/// Writes a request with a key to a buffer.
#[verifier::rlimit(30)]
pub fn encode_with_key(dst: &mut BytesMut, request: &ValidatedRequest, key: &Nonce)
    ensures
        contents(*final(dst)) == contents(*old(dst)) + request_bytes(request@, key@),
{
    let ghost before = contents(*dst);
    extend(dst, "GET ");
    extend(dst, request.path_and_query.as_str());
    extend(dst, " ");
    extend(dst, request.version.as_str());
    extend(dst, "\r\nHost: ");
    extend(dst, request.host.as_str());
    extend(dst, "\r\nsec-websocket-key: ");
    dst.extend_from_slice(key);
    let ghost start = contents(*dst);
    let lines = pairs(&request.headers);
    let ghost all = pairs_of(fields(request.headers));
    let mut i: usize = 0;
    assert(all.take(0) =~= Seq::empty());
    assert(start + field_lines(all.take(0)) =~= start);
    while i < lines.len()
        invariant
            i <= lines@.len(),
            lines@.len() == all.len(),
            forall|j: int|
                0 <= j < lines@.len() ==> (
                    name_text(*(#[trigger] lines@[j]).0),
                    value_bytes(*lines@[j].1),
                ) == all[j],
            contents(*dst) == start + field_lines(all.take(i as int)),
        decreases lines@.len() - i,
    {
        let (name, value) = &lines[i];
        let ghost written = field_lines(all.take(i as int));
        extend(dst, "\r\n");
        extend(dst, name.as_str());
        extend(dst, ": ");
        dst.extend_from_slice(value.as_bytes());
        proof {
            assert(all.take(i + 1).drop_last() =~= all.take(i as int));
            assert(all.take(i + 1).last() == all[i as int]);
            assert(contents(*dst) =~= start + field_lines(all.take(i + 1)));
        }
        i = i + 1;
    }
    assert(all.take(all.len() as int) =~= all);
    extend(dst, "\r\n\r\n");
    assert(contents(*dst) =~= before + request_bytes(request@, key@));
}

/// The bytes of a key: what Base64 encodes a nonce as.
pub open spec fn key_of(nonce: Seq<u8>) -> Seq<u8> {
    encode_utf8(base64_of(nonce))
}

/// Whether this is a key as clients draw them: 24 characters of Base64 that sixteen bytes are encoded
/// as. Which bytes those are is left to chance.
pub open spec fn drawn(key: Seq<u8>) -> bool {
    &&& exists|nonce: [u8; 16]| key == #[trigger] key_of(nonce@)
    &&& key.len() == 24
    &&& forall|i: int| 0 <= i < key.len() ==> base64_char((#[trigger] key[i]) as char)
}

/// Writes the key that a nonce is sent as to a buffer.
pub fn encode_nonce(nonce: [u8; 16], nonce_buffer: &mut Nonce)
    ensures
        final(nonce_buffer)@ == key_of(nonce@),
        forall|i: int| 0 <= i < 24 ==> base64_char((#[trigger] final(nonce_buffer)@[i]) as char),
{
    let text = base64(&nonce);
    let encoded = text.as_str().as_bytes();
    proof {
        assert(is_ascii_chars(text@));
        vstd::utf8::is_ascii_chars_encode_utf8(text@);
    }
    let mut i: usize = 0;
    while i < 24
        invariant
            i <= 24,
            encoded@.len() == 24,
            encoded@ == encode_utf8(text@),
            forall|j: int| 0 <= j < i ==> nonce_buffer@[j] == encoded@[j],
        decreases 24 - i,
    {
        nonce_buffer[i] = encoded[i];
        i = i + 1;
    }
    assert(nonce_buffer@ =~= encoded@);
}

/// Writes a request to a buffer with a key that is made of a random number. The key is left in
/// `nonce_buffer`.
pub fn encode_request(dst: &mut BytesMut, request: ValidatedRequest, nonce_buffer: &mut Nonce)
    ensures
        contents(*final(dst)) == contents(*old(dst)) + request_bytes(
            request@,
            final(nonce_buffer)@,
        ),
        drawn(final(nonce_buffer)@),
{
    let nonce: [u8; 16] = random_nonce();
    encode_nonce(nonce, nonce_buffer);
    encode_with_key(dst, &request, nonce_buffer);
}

} // verus!
