//! The server's side of the opening handshake.

pub mod encoding;

use crate::ascii::{eq_ignore_case, has_separator, same_but_case, separator};
use crate::buffer::{contents, frozen, frozen_slice, into_bytes};
use crate::crypto::{accept_key, answer_to, base64_char};
use crate::errors::{
    http_fault, protocol_fault, text_of, worded, Cause, CauseView, Error, ErrorKind, ErrorView,
    Failure, HttpError, HttpErrorView,
};
use crate::ext::NoExtProvider;
use crate::handshake::client::encoding::BAD_HEADER_VALUE;
use crate::handshake::head::{
    lemma_gathered_len, read_request_head, request_from, request_head_of, RequestHead,
    RequestHeadView,
};
use crate::handshake::parser::{ParseResult, Parser, StreamingParser};
use crate::handshake::server::encoding::{response_bytes, response_with, write_response};
use crate::handshake::subprotocols::{selected, SubprotocolRegistry};
use crate::handshake::{
    checked_as, item_fault, lemma_plain_values, validate_header_any, validate_header_value,
    value_fault, METHOD_GET, UPGRADE_OPTION, UPGRADE_STR, WEBSOCKET_STR, WEBSOCKET_VERSION_STR,
};
use crate::http_types::{
    append, empty_map, field_value, fields, get, get_all, insert, is_status, lemma_plain_names,
    lemma_with_field, make_value, name_text, static_name, static_value, value_bytes, value_of,
    values_of, visible, with_field, with_value, Field, Request, RequestView, Response, ResponseView,
    Uri, Version, CONNECTION, HOST, MAP_ROOM, SEC_WEBSOCKET_ACCEPT, SEC_WEBSOCKET_EXTENSIONS,
    SEC_WEBSOCKET_KEY, SEC_WEBSOCKET_PROTOCOL, SEC_WEBSOCKET_VERSION, UPGRADE,
};
use crate::protocol::{Role, WebSocketConfig};
use crate::ratchet_ext::{Extension, ExtensionProvider};
use crate::text::eq_text;
use crate::ws::WebSocket;
use bytes::{Bytes, BytesMut};
use http::{HeaderMap, HeaderName, HeaderValue};
use vstd::pervasive::unreached;
use vstd::prelude::*;
use vstd::utf8::{encode_utf8, is_ascii_chars, is_ascii_chars_encode_utf8};

verus! {

/// What an incomplete request is rejected for.
pub open spec fn partial_fault(head: RequestHeadView) -> Option<HttpErrorView> {
    if head.version is Some && head.version != Some(1u8) {
        Some(HttpErrorView::HttpVersion(Version::Http10.text()))
    } else {
        match head.method {
            Some(method) => if same_but_case(encode_utf8(method), encode_utf8(METHOD_GET@)) {
                None
            } else {
                Some(HttpErrorView::HttpMethod(Some(method)))
            },
            None => None,
        }
    }
}

/// Checks what has been read of a request.
pub fn check_partial_request(head: &RequestHead) -> (result: Result<(), Error>)
    ensures
        checked_as(result, partial_fault(head@)),
{
    match head.version {
        Some(1) | None => {},
        Some(_) => {
            return Err(
                Error::http(HttpError::HttpVersion(Version::Http10.as_str().to_string())),
            );
        },
    }
    match &head.method {
        Some(method) => {
            if eq_ignore_case(method.as_str().as_bytes(), METHOD_GET.as_bytes()) {
                Ok(())
            } else {
                Err(Error::http(HttpError::HttpMethod(Some(method.clone()))))
            }
        },
        None => Ok(()),
    }
}

/// What a version and a method are rejected for.
pub open spec fn start_fault(version: Version, method: Seq<char>) -> Option<HttpErrorView> {
    if version.too_low() {
        Some(HttpErrorView::HttpVersion(Version::Http10.text()))
    } else if method != "GET"@ {
        Some(HttpErrorView::HttpMethod(Some(method)))
    } else {
        None
    }
}

/// Validates that `version` and `method` are correct for a WebSocket upgrade.
pub fn validate_method_and_version(version: Version, method: &str) -> (result: Result<(), Error>)
    ensures
        checked_as(result, start_fault(version, method@)),
{
    if version.is_too_low() {
        return Err(Error::http(HttpError::HttpVersion(Version::Http10.as_str().to_string())));
    }
    if !eq_text(method, "GET") {
        return Err(Error::http(HttpError::HttpMethod(Some(method.to_string()))));
    }
    Ok(())
}

/// Whether bytes are one item, and no list of them.
pub open spec fn single(bytes: Seq<u8>) -> bool {
    forall|i: int| 0 <= i < bytes.len() ==> !separator(#[trigger] bytes[i])
}

/// What the hosts of a request are rejected for.
pub open spec fn host_fault(fields: Seq<Field>) -> Option<HttpErrorView> {
    let hosts = values_of(fields, HOST@);
    if hosts.len() == 1 && single(hosts[0]) {
        None
    } else {
        Some(HttpErrorView::MissingHeader(HOST@))
    }
}

/// Validates that 'headers' contains one 'host' header and that it is not a separated list.
pub fn validate_host_header(headers: &HeaderMap) -> (result: Result<(), Error>)
    ensures
        checked_as(result, host_fault(fields(*headers))),
{
    proof {
        lemma_plain_names();
    }
    let hosts = get_all(headers, HOST);
    if hosts.len() == 1 && !has_separator(hosts[0].as_bytes()) {
        Ok(())
    } else {
        Err(Error::http(HttpError::MissingHeader(HOST.to_string())))
    }
}

/// What the parts of a request are rejected for, up to its key.
pub open spec fn upgrade_fault(version: Version, method: Seq<char>, fields: Seq<Field>) -> Option<
    HttpErrorView,
> {
    let connection = item_fault(fields, CONNECTION@, UPGRADE_STR@);
    let upgrade = value_fault(fields, UPGRADE@, WEBSOCKET_STR@);
    let protocol_version = value_fault(fields, SEC_WEBSOCKET_VERSION@, WEBSOCKET_VERSION_STR@);
    if start_fault(version, method) is Some {
        start_fault(version, method)
    } else if connection is Some {
        connection
    } else if upgrade is Some {
        upgrade
    } else if protocol_version is Some {
        protocol_version
    } else if host_fault(fields) is Some {
        host_fault(fields)
    } else if value_of(fields, SEC_WEBSOCKET_KEY@) is None {
        Some(HttpErrorView::MissingHeader(SEC_WEBSOCKET_KEY@))
    } else {
        None
    }
}

/// The key of a request and the subprotocol that is selected for it, or what the request is rejected
/// for.
pub open spec fn upgrade_check(
    version: Version,
    method: Seq<char>,
    fields: Seq<Field>,
    registered: Seq<Seq<char>>,
) -> Result<(Seq<u8>, Option<Seq<char>>), ErrorView> {
    match upgrade_fault(version, method, fields) {
        Some(e) => Err(http_fault(e)),
        None => match selected(values_of(fields, SEC_WEBSOCKET_PROTOCOL@), registered) {
            Ok(subprotocol) => Ok((value_of(fields, SEC_WEBSOCKET_KEY@)->0, subprotocol)),
            Err(e) => Err(protocol_fault(e)),
        },
    }
}

/// Checks everything of a request but the extension. Returns its key and the subprotocol that is
/// selected for it.
pub fn check_request(
    version: Version,
    method: &str,
    headers: &HeaderMap,
    subprotocols: &SubprotocolRegistry,
) -> (result: Result<(Bytes, Option<String>), Error>)
    ensures
        match result {
            Ok((key, subprotocol)) => upgrade_check(
                version,
                method@,
                fields(*headers),
                subprotocols.registered(),
            ) == Ok::<(Seq<u8>, Option<Seq<char>>), ErrorView>((frozen(key), text_of(subprotocol))),
            Err(e) => upgrade_check(version, method@, fields(*headers), subprotocols.registered())
                == Err::<(Seq<u8>, Option<Seq<char>>), ErrorView>(e@),
        },
{
    proof {
        lemma_plain_names();
    }
    if let Err(e) = validate_method_and_version(version, method) {
        return Err(e);
    }
    if let Err(e) = validate_header_any(headers, CONNECTION, UPGRADE_STR) {
        return Err(e);
    }
    if let Err(e) = validate_header_value(headers, UPGRADE, WEBSOCKET_STR) {
        return Err(e);
    }
    if let Err(e) = validate_header_value(headers, SEC_WEBSOCKET_VERSION, WEBSOCKET_VERSION_STR) {
        return Err(e);
    }
    if let Err(e) = validate_host_header(headers) {
        return Err(e);
    }
    let key = match get(headers, SEC_WEBSOCKET_KEY) {
        Some(key) => into_bytes(key.as_bytes()),
        None => {
            return Err(Error::http(HttpError::MissingHeader(SEC_WEBSOCKET_KEY.to_string())));
        },
    };
    match subprotocols.negotiate_client(headers) {
        Ok(subprotocol) => Ok((key, subprotocol)),
        Err(e) => Err(Error::protocol(e)),
    }
}

/// Represents a parsed WebSocket connection upgrade HTTP request without the context of the request
/// that it is responding to.
#[derive(Debug)]
pub struct UpgradeRequestParts<E> {
    /// The security key provided by the client during the WebSocket handshake.
    pub key: Bytes,
    /// The optional WebSocket subprotocol agreed upon during the handshake.
    pub subprotocol: Option<String>,
    /// The optional WebSocket extension negotiated during the handshake.
    pub extension: Option<E>,
    /// The value to answer the extensions that the client has offered with.
    pub extension_header: Option<HeaderValue>,
}

/// Whether this is what an extension has negotiated: nothing, or the extension and the value to answer
/// the client with.
pub open spec fn negotiated_as<E: ExtensionProvider>(
    extension: E,
    received: Seq<Field>,
    negotiated: Option<E::Extension>,
    header: Option<HeaderValue>,
) -> bool {
    match (negotiated, header) {
        (Some(negotiated), Some(header)) => extension.negotiates_server(
            received,
            Ok(Some((negotiated, header))),
        ),
        (None, None) => extension.negotiates_server(received, Ok(None)),
        _ => false,
    }
}

/// Whether the parts of a request came to what they should, given what a check of them came to, with
/// what the extension has negotiated.
pub open spec fn parts_parsed<E: ExtensionProvider>(
    result: Result<UpgradeRequestParts<E::Extension>, Failure<E::Error>>,
    extension: E,
    received: Seq<Field>,
    expected: Result<(Seq<u8>, Option<Seq<char>>), ErrorView>,
) -> bool {
    match expected {
        Ok((key, subprotocol)) => match result {
            Ok(parts) => {
                &&& frozen(parts.key) == key
                &&& text_of(parts.subprotocol) == subprotocol
                &&& negotiated_as(extension, received, parts.extension, parts.extension_header)
            },
            Err(Failure::Extension(e)) => extension.negotiates_server(received, Err(e)),
            Err(Failure::Core(_)) => false,
        },
        Err(e) => result matches Err(failure) && failure.says(e),
    }
}

/// Puts together the parts of a request and what the extension has negotiated.
pub fn finish_parts<X, Y>(
    key: Bytes,
    subprotocol: Option<String>,
    negotiated: Result<Option<(X, HeaderValue)>, Y>,
) -> (result: Result<UpgradeRequestParts<X>, Failure<Y>>)
    ensures
        match negotiated {
            Ok(Some((extension, header))) => result == Ok::<UpgradeRequestParts<X>, Failure<Y>>(
                UpgradeRequestParts {
                    key,
                    subprotocol,
                    extension: Some(extension),
                    extension_header: Some(header),
                },
            ),
            Ok(None) => result == Ok::<UpgradeRequestParts<X>, Failure<Y>>(
                UpgradeRequestParts { key, subprotocol, extension: None, extension_header: None },
            ),
            Err(e) => result == Err::<UpgradeRequestParts<X>, Failure<Y>>(Failure::Extension(e)),
        },
{
    match negotiated {
        Ok(Some((extension, header))) => Ok(
            UpgradeRequestParts {
                key,
                subprotocol,
                extension: Some(extension),
                extension_header: Some(header),
            },
        ),
        Ok(None) => Ok(
            UpgradeRequestParts { key, subprotocol, extension: None, extension_header: None },
        ),
        Err(e) => Err(Failure::Extension(e)),
    }
}

/// Parses an HTTP request from its parts to extract WebSocket upgrade information: the version, the
/// method and the necessary headers are checked, and the subprotocol and the extension are
/// negotiated.
pub fn parse_request_parts<E: ExtensionProvider>(
    version: Version,
    method: &str,
    headers: &HeaderMap,
    extension: &E,
    subprotocols: &SubprotocolRegistry,
) -> (result: Result<UpgradeRequestParts<E::Extension>, Failure<E::Error>>)
    ensures
        parts_parsed(
            result,
            *extension,
            fields(*headers),
            upgrade_check(version, method@, fields(*headers), subprotocols.registered()),
        ),
{
    match check_request(version, method, headers, subprotocols) {
        Ok((key, subprotocol)) => finish_parts(
            key,
            subprotocol,
            extension.negotiate_server(headers),
        ),
        Err(e) => Err(Failure::Core(e)),
    }
}

/// Fields with those that every response has: the answer to a key, the protocol to switch to and the
/// option of the connection.
pub open spec fn with_answer(
    fields: Seq<Field>,
    answer: Seq<char>,
    connection: Seq<char>,
) -> Seq<Field> {
    with_field(
        with_field(
            with_field(fields, SEC_WEBSOCKET_ACCEPT@, seq![encode_utf8(answer)]),
            UPGRADE@,
            seq![encode_utf8(WEBSOCKET_STR@)],
        ),
        CONNECTION@,
        seq![encode_utf8(connection)],
    )
}

/// Fields with those that a response with an answer has, or what they are rejected for: a subprotocol
/// that cannot be the value of a field.
pub open spec fn completed_with(
    fields: Seq<Field>,
    answer: Seq<char>,
    connection: Seq<char>,
    subprotocol: Option<Seq<char>>,
    extension_header: Option<Seq<u8>>,
) -> Result<Seq<Field>, ErrorView> {
    let start = with_answer(fields, answer, connection);
    let middle = match subprotocol {
        Some(name) => with_field(start, SEC_WEBSOCKET_PROTOCOL@, seq![encode_utf8(name)]),
        None => start,
    };
    if subprotocol is Some && !field_value(encode_utf8(subprotocol->0)) {
        Err(worded(ErrorKind::Http, BAD_HEADER_VALUE@))
    } else {
        match extension_header {
            Some(value) => Ok(with_field(middle, SEC_WEBSOCKET_EXTENSIONS@, seq![value])),
            None => Ok(middle),
        }
    }
}

/// Fields with those that a response with an answer has, or what they are rejected for: an answer or a
/// subprotocol that cannot be the value of a field.
pub open spec fn answered_with(
    fields: Seq<Field>,
    answer: Seq<char>,
    connection: Seq<char>,
    subprotocol: Option<Seq<char>>,
    extension_header: Option<Seq<u8>>,
) -> Result<Seq<Field>, ErrorView> {
    if field_value(encode_utf8(answer)) {
        completed_with(fields, answer, connection, subprotocol, extension_header)
    } else {
        Err(worded(ErrorKind::Http, BAD_HEADER_VALUE@))
    }
}

/// Fields with those that a response to a request has, or what they are rejected for: a subprotocol
/// that cannot be the value of a field. The answer to a key always can.
pub open spec fn answered(
    fields: Seq<Field>,
    key: Seq<u8>,
    connection: Seq<char>,
    subprotocol: Option<Seq<char>>,
    extension_header: Option<Seq<u8>>,
) -> Result<Seq<Field>, ErrorView> {
    completed_with(fields, answer_to(key), connection, subprotocol, extension_header)
}

/// Whether fields were added to a map as they should be. A map with up to 6549 names always has room
/// for them.
pub open spec fn added_as(
    result: Result<(), Error>,
    before: Seq<Field>,
    after: Seq<Field>,
    expected: Result<Seq<Field>, ErrorView>,
) -> bool {
    match result {
        Ok(_) => expected == Ok::<Seq<Field>, ErrorView>(after),
        Err(e) => {
            ||| expected == Err::<Seq<Field>, ErrorView>(e@)
            ||| e@ == http_fault(HttpErrorView::TooManyHeaders) && before.len() + 4 > MAP_ROOM
        },
    }
}

/// The bytes of an optional value.
pub open spec fn bytes_of(value: Option<HeaderValue>) -> Option<Seq<u8>> {
    match value {
        Some(value) => Some(value_bytes(value)),
        None => None,
    }
}

/// The answer to a key can be the value of a field.
proof fn lemma_answer_value(answer: Seq<char>)
    requires
        forall|i: int| 0 <= i < answer.len() ==> base64_char(#[trigger] answer[i]),
    ensures
        field_value(encode_utf8(answer)),
{
    assert(is_ascii_chars(answer));
    is_ascii_chars_encode_utf8(answer);
}

/// Gives a field a value. Fails where a map with more than 6553 names has no room for it.
fn put_field(headers: &mut HeaderMap, name: &'static str, value: HeaderValue) -> (result: Result<
    (),
    Error,
>)
    requires
        crate::http_types::plain_name(name@),
    ensures
        match result {
            Ok(_) => fields(*final(headers)) == with_field(
                fields(*old(headers)),
                name@,
                seq![value_bytes(value)],
            ) && fields(*final(headers)).len() <= fields(*old(headers)).len() + 1,
            Err(e) => e@ == http_fault(HttpErrorView::TooManyHeaders) && fields(
                *old(headers),
            ).len() > MAP_ROOM,
        },
{
    proof {
        lemma_with_field(fields(*headers), name@, seq![value_bytes(value)], name@);
    }
    if insert(headers, static_name(name), value) {
        Ok(())
    } else {
        Err(Error::http(HttpError::TooManyHeaders))
    }
}

/// Adds to fields those that a response with an answer to a key has.
pub fn answer_with(
    headers: &mut HeaderMap,
    answer: &str,
    connection: &'static str,
    subprotocol: &Option<String>,
    extension_header: Option<HeaderValue>,
) -> (result: Result<(), Error>)
    requires
        visible(encode_utf8(connection@)),
    ensures
        added_as(
            result,
            fields(*old(headers)),
            fields(*final(headers)),
            answered_with(
                fields(*old(headers)),
                answer@,
                connection@,
                text_of(*subprotocol),
                bytes_of(extension_header),
            ),
        ),
{
    proof {
        lemma_plain_names();
        lemma_plain_values();
    }
    match make_value(answer.as_bytes()) {
        Some(value) => put_field(headers, SEC_WEBSOCKET_ACCEPT, value)?,
        None => {
            return Err(
                Error::with_cause(ErrorKind::Http, Cause::Message(BAD_HEADER_VALUE.to_string())),
            );
        },
    }
    put_field(headers, UPGRADE, static_value(WEBSOCKET_STR))?;
    put_field(headers, CONNECTION, static_value(connection))?;
    if let Some(name) = subprotocol {
        match make_value(name.as_str().as_bytes()) {
            Some(value) => put_field(headers, SEC_WEBSOCKET_PROTOCOL, value)?,
            None => {
                return Err(
                    Error::with_cause(
                        ErrorKind::Http,
                        Cause::Message(BAD_HEADER_VALUE.to_string()),
                    ),
                );
            },
        }
    }
    if let Some(value) = extension_header {
        put_field(headers, SEC_WEBSOCKET_EXTENSIONS, value)?;
    }
    Ok(())
}

/// Adds to fields those that a response to a request has.
pub fn answer_request(
    headers: &mut HeaderMap,
    key: &Bytes,
    connection: &'static str,
    subprotocol: &Option<String>,
    extension_header: Option<HeaderValue>,
) -> (result: Result<(), Error>)
    requires
        visible(encode_utf8(connection@)),
    ensures
        added_as(
            result,
            fields(*old(headers)),
            fields(*final(headers)),
            answered(
                fields(*old(headers)),
                frozen(*key),
                connection@,
                text_of(*subprotocol),
                bytes_of(extension_header),
            ),
        ),
{
    let answer = accept_key(frozen_slice(key));
    proof {
        lemma_answer_value(answer@);
    }
    answer_with(headers, answer.as_str(), connection, subprotocol, extension_header)
}

/// The header fields of a response to a request.
fn response_headers(
    key: Bytes,
    connection: &'static str,
    subprotocol: Option<String>,
    extension_header: Option<HeaderValue>,
) -> (result: Result<HeaderMap, Error>)
    requires
        visible(encode_utf8(connection@)),
    ensures
        match result {
            Ok(map) => answered(
                Seq::empty(),
                frozen(key),
                connection@,
                text_of(subprotocol),
                bytes_of(extension_header),
            ) == Ok::<Seq<Field>, ErrorView>(fields(map)),
            Err(e) => answered(
                Seq::empty(),
                frozen(key),
                connection@,
                text_of(subprotocol),
                bytes_of(extension_header),
            ) == Err::<Seq<Field>, ErrorView>(e@),
        },
{
    let mut map = empty_map();
    match answer_request(&mut map, &key, connection, &subprotocol, extension_header) {
        Ok(_) => Ok(map),
        Err(e) => Err(e),
    }
}

/// Constructs the HTTP response headers for a WebSocket handshake response: the answer to the key,
/// the protocol that is switched to and, if they were negotiated, the subprotocol and the extension.
pub fn build_response_headers(
    key: Bytes,
    subprotocol: Option<String>,
    extension_header: Option<HeaderValue>,
) -> (result: Result<HeaderMap, Error>)
    ensures
        match result {
            Ok(map) => answered(
                Seq::empty(),
                frozen(key),
                UPGRADE_STR@,
                text_of(subprotocol),
                bytes_of(extension_header),
            ) == Ok::<Seq<Field>, ErrorView>(fields(map)),
            Err(e) => answered(
                Seq::empty(),
                frozen(key),
                UPGRADE_STR@,
                text_of(subprotocol),
                bytes_of(extension_header),
            ) == Err::<Seq<Field>, ErrorView>(e@),
        },
{
    proof {
        lemma_plain_values();
    }
    response_headers(key, UPGRADE_STR, subprotocol, extension_header)
}

/// Builds an HTTP response to a WebSocket connection upgrade request: `Sec-WebSocket-Accept` answers
/// the key, `Upgrade` is set to `websocket` and `Connection` to `Upgrade`. The subprotocol and the
/// extension are named if they are given.
///
/// No validation is performed by this function and it is only guaranteed to be correct if the
/// arguments are derived by previously calling `parse_request_parts`.
pub fn build_response(
    key: Bytes,
    subprotocol: Option<String>,
    extension_header: Option<HeaderValue>,
) -> (result: Result<Response, Error>)
    ensures
        responded(
            result,
            frozen(key),
            text_of(subprotocol),
            bytes_of(extension_header),
        ),
{
    proof {
        lemma_plain_values();
    }
    match response_headers(key, UPGRADE_OPTION, subprotocol, extension_header) {
        Ok(headers) => Ok(Response { status: 101, version: Version::Http11, headers }),
        Err(e) => Err(e),
    }
}

/// Whether a response to a request is as it should be.
pub open spec fn responded(
    result: Result<Response, Error>,
    key: Seq<u8>,
    subprotocol: Option<Seq<char>>,
    extension_header: Option<Seq<u8>>,
) -> bool {
    match answered(Seq::empty(), key, UPGRADE_OPTION@, subprotocol, extension_header) {
        Ok(fields) => result matches Ok(response) && response@ == (ResponseView {
            status: 101,
            version: Version::Http11,
            fields,
        }),
        Err(e) => result matches Err(error) && error@ == e,
    }
}

/// Whether a handshake came to what it should, given what a check of the request came to: a response
/// to it, with the value that the extension has negotiated.
pub open spec fn shaken<E: ExtensionProvider>(
    result: Result<(Response, Option<E::Extension>), Failure<E::Error>>,
    extension: E,
    received: Seq<Field>,
    expected: Result<(Seq<u8>, Option<Seq<char>>), ErrorView>,
) -> bool {
    match expected {
        Ok((key, subprotocol)) => match result {
            Ok((response, negotiated)) => exists|header: Option<HeaderValue>|
                #[trigger] negotiated_as(extension, received, negotiated, header) && responded(
                    Ok(response),
                    key,
                    subprotocol,
                    bytes_of(header),
                ),
            Err(Failure::Extension(e)) => extension.negotiates_server(received, Err(e)),
            Err(Failure::Core(e)) => subprotocol is Some && !field_value(
                encode_utf8(subprotocol->0),
            ) && e@ == worded(ErrorKind::Http, BAD_HEADER_VALUE@),
        },
        Err(e) => result matches Err(failure) && failure.says(e),
    }
}

/// Processes a WebSocket handshake request and generates the appropriate response: the request is
/// parsed, the extension and the subprotocol are negotiated and the response is constructed.
pub fn handshake<E: ExtensionProvider>(
    request: Request,
    extension: &E,
    subprotocols: &SubprotocolRegistry,
) -> (result: Result<(Response, Option<E::Extension>), Failure<E::Error>>)
    ensures
        shaken(
            result,
            *extension,
            request@.fields,
            upgrade_check(
                request@.version,
                request@.method,
                request@.fields,
                subprotocols.registered(),
            ),
        ),
{
    respond(
        request.version,
        request.method.as_str(),
        &request.headers,
        extension,
        subprotocols,
    )
}

/// Generates a WebSocket upgrade response from the provided headers.
pub fn response_from_headers<E: ExtensionProvider>(
    headers: &HeaderMap,
    extension: &E,
    subprotocols: &SubprotocolRegistry,
) -> (result: Result<(Response, Option<E::Extension>), Failure<E::Error>>)
    ensures
        shaken(
            result,
            *extension,
            fields(*headers),
            upgrade_check(Version::Http11, "GET"@, fields(*headers), subprotocols.registered()),
        ),
{
    respond(Version::Http11, "GET", headers, extension, subprotocols)
}

/// Responds to a request that is given in parts.
fn respond<E: ExtensionProvider>(
    version: Version,
    method: &str,
    headers: &HeaderMap,
    extension: &E,
    subprotocols: &SubprotocolRegistry,
) -> (result: Result<(Response, Option<E::Extension>), Failure<E::Error>>)
    ensures
        shaken(
            result,
            *extension,
            fields(*headers),
            upgrade_check(version, method@, fields(*headers), subprotocols.registered()),
        ),
{
    match parse_request_parts(version, method, headers, extension, subprotocols) {
        Ok(parts) => {
            assert(negotiated_as(
                *extension,
                fields(*headers),
                parts.extension,
                parts.extension_header,
            ));
            let UpgradeRequestParts { key, subprotocol, extension: negotiated, extension_header } =
                parts;
            match build_response(key, subprotocol, extension_header) {
                Ok(response) => Ok((response, negotiated)),
                Err(e) => Err(Failure::Core(e)),
            }
        },
        Err(e) => Err(e),
    }
}

/// A status code that is none.
#[derive(Debug, PartialEq, Eq, Clone, Copy, Structural)]
pub struct InvalidStatusCode(pub u16);

/// A response to send to a client if the connection will not be upgraded.
#[derive(Debug)]
pub struct WebSocketResponse {
    status: u16,
    headers: HeaderMap,
}

/// Pairs of names and values.
pub open spec fn pairs_in(pairs: Seq<(HeaderName, HeaderValue)>) -> Seq<(Seq<char>, Seq<u8>)> {
    Seq::new(pairs.len(), |i: int| (name_text(pairs[i].0), value_bytes(pairs[i].1)))
}

/// The fields of a map that pairs have been added to, one after the other.
pub open spec fn collected(pairs: Seq<(Seq<char>, Seq<u8>)>) -> Seq<Field>
    decreases pairs.len(),
{
    if pairs.len() == 0 {
        Seq::empty()
    } else {
        with_value(collected(pairs.drop_last()), pairs.last().0, pairs.last().1)
    }
}

/// A map that more pairs are added to has no fewer names.
proof fn lemma_collected_grows(pairs: Seq<(Seq<char>, Seq<u8>)>, count: int)
    requires
        0 <= count <= pairs.len(),
    ensures
        collected(pairs.take(count)).len() <= collected(pairs).len(),
    decreases pairs.len() - count,
{
    if count == pairs.len() {
        assert(pairs.take(count) =~= pairs);
    } else {
        let before = collected(pairs.take(count));
        let (name, value) = pairs[count];
        lemma_with_field(before, name, values_of(before, name).push(value), name);
        assert(pairs.take(count + 1).drop_last() =~= pairs.take(count));
        lemma_collected_grows(pairs, count + 1);
    }
}

impl WebSocketResponse {
    /// The status code.
    pub closed spec fn code(self) -> u16 {
        self.status
    }

    /// The fields.
    pub closed spec fn fields(self) -> Seq<Field> {
        fields(self.headers)
    }

    /// Attempt to construct a new `WebSocketResponse` from `code`.
    ///
    /// # Errors
    /// Errors if the status code is invalid.
    pub fn new(code: u16) -> (result: Result<WebSocketResponse, InvalidStatusCode>)
        ensures
            match result {
                Ok(response) => 100 <= code <= 999 && response.code() == code && response.fields()
                    == Seq::<Field>::empty(),
                Err(e) => !(100 <= code <= 999) && e == InvalidStatusCode(code),
            },
    {
        if is_status(code) {
            Ok(WebSocketResponse { status: code, headers: empty_map() })
        } else {
            Err(InvalidStatusCode(code))
        }
    }

    /// Attempt to construct a new `WebSocketResponse` from `code` and `headers`. A name that occurs
    /// more than once keeps all of its values. A map takes no more than 6553 names for certain: for
    /// more, see `try_with_headers`.
    ///
    /// # Errors
    /// Errors if the status code is invalid.
    pub fn with_headers(code: u16, headers: Vec<(HeaderName, HeaderValue)>) -> (result: Result<
        WebSocketResponse,
        InvalidStatusCode,
    >)
        requires
            collected(pairs_in(headers@)).len() <= MAP_ROOM,
        ensures
            match result {
                Ok(response) => 100 <= code <= 999 && response.code() == code && response.fields()
                    == collected(pairs_in(headers@)),
                Err(e) => !(100 <= code <= 999) && e == InvalidStatusCode(code),
            },
    {
        match WebSocketResponse::try_with_headers(code, headers) {
            Ok(Some(response)) => Ok(response),
            Ok(None) => unreached(),
            Err(e) => Err(e),
        }
    }

    /// Attempt to construct a new `WebSocketResponse` from `code` and `headers`, as `with_headers`
    /// does. Returns nothing if a map has no room for the names, which it has for up to 6553.
    ///
    /// # Errors
    /// Errors if the status code is invalid.
    pub fn try_with_headers(code: u16, headers: Vec<(HeaderName, HeaderValue)>) -> (result: Result<
        Option<WebSocketResponse>,
        InvalidStatusCode,
    >)
        ensures
            match result {
                Ok(Some(response)) => 100 <= code <= 999 && response.code() == code
                    && response.fields() == collected(pairs_in(headers@)),
                Ok(None) => 100 <= code <= 999 && collected(pairs_in(headers@)).len() > MAP_ROOM,
                Err(e) => !(100 <= code <= 999) && e == InvalidStatusCode(code),
            },
    {
        if !is_status(code) {
            return Err(InvalidStatusCode(code));
        }
        let ghost all = pairs_in(headers@);
        let mut map = empty_map();
        let mut i: usize = 0;
        assert(all.take(0) =~= Seq::empty());
        while i < headers.len()
            invariant
                100 <= code <= 999,
                i <= headers@.len(),
                all == pairs_in(headers@),
                fields(map) == collected(all.take(i as int)),
            decreases headers@.len() - i,
        {
            let (name, value) = &headers[i];
            proof {
                lemma_collected_grows(all, i as int);
                assert(all.take(i + 1).drop_last() =~= all.take(i as int));
                assert(all.take(i + 1).last() == (name_text(*name), value_bytes(*value)));
            }
            if !append(&mut map, name.clone(), value.clone()) {
                return Ok(None);
            }
            i = i + 1;
        }
        assert(all.take(all.len() as int) =~= all);
        Ok(Some(WebSocketResponse { status: code, headers: map }))
    }
}

/// Represents a parsed WebSocket connection upgrade HTTP request.
#[derive(Debug)]
pub struct UpgradeRequest<E> {
    /// The security key provided by the client during the WebSocket handshake.
    pub key: Bytes,
    /// The optional WebSocket subprotocol agreed upon during the handshake.
    pub subprotocol: Option<String>,
    /// The optional WebSocket extension negotiated during the handshake.
    pub extension: Option<E>,
    /// The original HTTP request that initiated the WebSocket upgrade.
    pub request: Request,
    /// The value to answer the extensions that the client has offered with.
    pub extension_header: Option<HeaderValue>,
}

/// Whether a request came to what it should, given what a check of it came to, with what the extension
/// has negotiated.
pub open spec fn request_accepted<E: ExtensionProvider>(
    result: Result<UpgradeRequest<E::Extension>, Failure<E::Error>>,
    request: RequestView,
    extension: E,
    registered: Seq<Seq<char>>,
) -> bool {
    match upgrade_check(request.version, request.method, request.fields, registered) {
        Ok((key, subprotocol)) => match result {
            Ok(upgrade) => {
                &&& frozen(upgrade.key) == key
                &&& text_of(upgrade.subprotocol) == subprotocol
                &&& negotiated_as(
                    extension,
                    request.fields,
                    upgrade.extension,
                    upgrade.extension_header,
                )
                &&& upgrade.request@ == request
            },
            Err(Failure::Extension(e)) => extension.negotiates_server(request.fields, Err(e)),
            Err(Failure::Core(_)) => false,
        },
        Err(e) => result matches Err(failure) && failure.says(e),
    }
}

/// Accepts a request to upgrade a connection.
pub fn accept_request<E: ExtensionProvider>(
    request: Request,
    extension: &E,
    subprotocols: &SubprotocolRegistry,
) -> (result: Result<UpgradeRequest<E::Extension>, Failure<E::Error>>)
    ensures
        request_accepted(result, request@, *extension, subprotocols.registered()),
{
    match parse_request_parts(
        request.version,
        request.method.as_str(),
        &request.headers,
        extension,
        subprotocols,
    ) {
        Ok(parts) => {
            let UpgradeRequestParts { key, subprotocol, extension, extension_header } = parts;
            Ok(UpgradeRequest { key, subprotocol, extension, request, extension_header })
        },
        Err(e) => Err(e),
    }
}

/// What parsing a request may come to.
pub open spec fn request_parsed<E: ExtensionProvider>(
    bytes: Seq<u8>,
    extension: E,
    registered: Seq<Seq<char>>,
    result: Result<ParseResult<RequestHead, UpgradeRequest<E::Extension>>, Failure<E::Error>>,
) -> bool {
    match request_head_of(bytes) {
        Err(fault) => result matches Err(e) && e.says(worded(ErrorKind::Http, fault)),
        Ok((head, None)) => result matches Ok(ParseResult::Partial(read)) && read@ == head,
        Ok((head, Some(length))) => match request_from(head) {
            Err(e) => result matches Err(failure) && failure.says(http_fault(e)),
            Ok(request) => match result {
                Ok(ParseResult::Complete(upgrade, count)) => count == length && request_accepted(
                    Ok(upgrade),
                    request,
                    extension,
                    registered,
                ),
                Ok(ParseResult::Partial(_)) => false,
                Err(e) => request_accepted(Err(e), request, extension, registered),
            },
        },
    }
}

/// Reads a client's request, if it is complete.
pub fn try_parse_request<E: ExtensionProvider>(
    buffer: &[u8],
    extension: &E,
    subprotocols: &SubprotocolRegistry,
) -> (result: Result<ParseResult<RequestHead, UpgradeRequest<E::Extension>>, Failure<E::Error>>)
    ensures
        request_parsed(buffer@, *extension, subprotocols.registered(), result),
        result matches Ok(ParseResult::Complete(_, length)) ==> length <= buffer@.len(),
{
    match read_request_head(buffer) {
        Ok((head, None)) => Ok(ParseResult::Partial(head)),
        Ok((head, Some(length))) => {
            proof {
                lemma_gathered_len(head@.headers);
            }
            let request = match head.into_request() {
                Ok(request) => request,
                Err(e) => return Err(Failure::Core(Error::http(e))),
            };
            match accept_request(request, extension, subprotocols) {
                Ok(upgrade) => Ok(ParseResult::Complete(upgrade, length)),
                Err(e) => Err(e),
            }
        },
        Err(fault) => Err(
            Failure::Core(Error::with_cause(ErrorKind::Http, Cause::Message(fault))),
        ),
    }
}

/// What reading a request may come to.
pub open spec fn request_decoded<E: ExtensionProvider>(
    bytes: Seq<u8>,
    extension: E,
    registered: Seq<Seq<char>>,
    result: Result<Option<(UpgradeRequest<E::Extension>, usize)>, Failure<E::Error>>,
) -> bool {
    match request_head_of(bytes) {
        Err(fault) => result matches Err(e) && e.says(worded(ErrorKind::Http, fault)),
        Ok((head, None)) => match partial_fault(head) {
            Some(e) => result matches Err(failure) && failure.says(http_fault(e)),
            None => result matches Ok(None),
        },
        Ok((head, Some(length))) => match request_from(head) {
            Err(e) => result matches Err(failure) && failure.says(http_fault(e)),
            Ok(request) => match result {
                Ok(Some((upgrade, count))) => count == length && request_accepted(
                    Ok(upgrade),
                    request,
                    extension,
                    registered,
                ),
                Ok(None) => false,
                Err(e) => request_accepted(Err(e), request, extension, registered),
            },
        },
    }
}

/// Reads a client's request.
pub struct RequestParser<E> {
    /// The subprotocols that are supported.
    pub subprotocols: SubprotocolRegistry,
    /// Negotiates the extension.
    pub extension: E,
}

impl<E: ExtensionProvider> Parser for RequestParser<E> {
    type Output = UpgradeRequest<E::Extension>;

    type Error = Failure<E::Error>;

    open spec fn decodes(
        self,
        bytes: Seq<u8>,
        result: Result<Option<(UpgradeRequest<E::Extension>, usize)>, Failure<E::Error>>,
    ) -> bool {
        request_decoded(bytes, self.extension, self.subprotocols.registered(), result)
    }

    fn decode(&self, bytes: &[u8]) -> (result: Result<
        Option<(UpgradeRequest<E::Extension>, usize)>,
        Failure<E::Error>,
    >) {
        match try_parse_request(bytes, &self.extension, &self.subprotocols) {
            Ok(ParseResult::Complete(upgrade, length)) => Ok(Some((upgrade, length))),
            Ok(ParseResult::Partial(head)) => match check_partial_request(&head) {
                Ok(_) => Ok(None),
                Err(e) => Err(Failure::Core(e)),
            },
            Err(e) => Err(e),
        }
    }
}

/// A structure representing an upgraded WebSocket session and an optional subprotocol that was
/// negotiated during the upgrade.
pub struct UpgradedServer<E> {
    /// The original request that the peer sent.
    pub request: Request,
    /// The WebSocket connection.
    pub websocket: WebSocket<E>,
    /// An optional subprotocol that was negotiated during the upgrade.
    pub subprotocol: Option<String>,
}

impl<E> UpgradedServer<E> {
    /// Consume self and take the websocket
    pub fn into_websocket(self) -> (websocket: WebSocket<E>)
        ensures
            websocket == self.websocket,
    {
        self.websocket
    }
}

/// Represents a client connection that has been accepted and the upgrade request validated. This may
/// be used to validate the request by a user and opt to either continue the upgrade or reject the
/// connection - such as if the target path does not exist.
#[derive(Debug)]
pub struct WebSocketUpgrader<E> {
    request: Request,
    key: Bytes,
    subprotocol: Option<String>,
    buf: BytesMut,
    extension: Option<E>,
    extension_header: Option<HeaderValue>,
    config: WebSocketConfig,
}

/// What a `WebSocketUpgrader` holds.
pub struct UpgraderView<E> {
    pub request: RequestView,
    pub key: Seq<u8>,
    pub subprotocol: Option<Seq<char>>,
    pub extension: Option<E>,
    pub extension_header: Option<Seq<u8>>,
    pub config: WebSocketConfig,
}

impl<E> View for WebSocketUpgrader<E> {
    type V = UpgraderView<E>;

    closed spec fn view(&self) -> UpgraderView<E> {
        UpgraderView {
            request: self.request@,
            key: frozen(self.key),
            subprotocol: text_of(self.subprotocol),
            extension: self.extension,
            extension_header: bytes_of(self.extension_header),
            config: self.config,
        }
    }
}

/// Whether an upgrade came to what it should: a WebSocket, and the bytes of the response.
pub open spec fn upgraded_as<E: Extension>(
    result: Result<(UpgradedServer<E>, BytesMut), Error>,
    upgrader: UpgraderView<E>,
    extra: Seq<Field>,
) -> bool {
    let expected = answered(
        extra,
        upgrader.key,
        UPGRADE_STR@,
        upgrader.subprotocol,
        upgrader.extension_header,
    );
    match result {
        Ok((server, response)) => {
            &&& expected is Ok
            &&& contents(response) == response_bytes(101, expected->Ok_0, None)
            &&& contents(response) == response_with(
                101,
                Some("Switching Protocols"@),
                expected->Ok_0,
                None,
            )
            &&& server.request@ == upgrader.request
            &&& text_of(server.subprotocol) == upgrader.subprotocol
            &&& server.websocket.fresh(
                upgrader.config,
                upgrader.extension,
                Seq::empty(),
                Role::Server,
            )
        },
        Err(e) => {
            ||| expected == Err::<Seq<Field>, ErrorView>(e@)
            ||| e@ == http_fault(HttpErrorView::TooManyHeaders) && extra.len() + 4 > MAP_ROOM
        },
    }
}

impl<E: Extension> WebSocketUpgrader<E> {
    /// The subprotocol that the client has requested.
    pub fn subprotocol(&self) -> (subprotocol: Option<&String>)
        ensures
            match subprotocol {
                Some(name) => self@.subprotocol == Some(name@),
                None => self@.subprotocol is None,
            },
    {
        match &self.subprotocol {
            Some(name) => Some(name),
            None => None,
        }
    }

    /// The URI that the client has requested.
    pub fn uri(&self) -> (uri: &Uri)
        ensures
            uri@ == self@.request.uri,
    {
        &self.request.uri
    }

    /// The original request that the client sent.
    pub fn request(&self) -> (request: &Request)
        ensures
            request@ == self@.request,
    {
        &self.request
    }

    /// Attempt to upgrade this to a fully negotiated WebSocket connection. Returns the bytes of the
    /// response, which are to be sent.
    pub fn upgrade(self) -> (result: Result<(UpgradedServer<E>, BytesMut), Error>)
        ensures
            upgraded_as(result, self@, Seq::empty()),
    {
        self.upgrade_with(empty_map())
    }

    /// Insert `headers` into the response and attempt to upgrade this to a fully negotiated WebSocket
    /// connection. Returns the bytes of the response, which are to be sent. What was received behind
    /// the request is dropped.
    pub fn upgrade_with(self, headers: HeaderMap) -> (result: Result<
        (UpgradedServer<E>, BytesMut),
        Error,
    >)
        ensures
            upgraded_as(result, self@, fields(headers)),
    {
        let WebSocketUpgrader {
            request,
            key,
            subprotocol,
            buf,
            extension,
            extension_header,
            config,
        } = self;
        let mut headers = headers;
        proof {
            lemma_plain_values();
        }
        if let Err(e) = answer_request(
            &mut headers,
            &key,
            UPGRADE_STR,
            &subprotocol,
            extension_header,
        ) {
            return Err(e);
        }
        let mut response = buf;
        write_response(&mut response, 101, &headers, None);
        let server = UpgradedServer {
            request,
            websocket: WebSocket::from_upgraded(config, extension, BytesMut::new(), Role::Server),
            subprotocol,
        };
        Ok((server, response))
    }

    /// Reject this connection with the response provided. Returns the bytes of the response, which
    /// are to be sent.
    pub fn reject(self, response: WebSocketResponse) -> (bytes: BytesMut)
        ensures
            contents(bytes) == response_bytes(response.code(), response.fields(), None),
    {
        let WebSocketResponse { status, headers } = response;
        let mut bytes = self.buf;
        write_response(&mut bytes, status, &headers, None);
        bytes
    }
}

/// What the server is to do.
#[derive(Debug)]
pub enum AcceptStep<X, Y> {
    /// Supply more bytes of the request.
    More,
    /// The request has been accepted: upgrade or reject it.
    Accepted(WebSocketUpgrader<X>),
    /// The request has been rejected: send the response, if there is one.
    Rejected(Failure<Y>, Option<BytesMut>),
}

/// The response to a request that was rejected: the words of what is wrong with the request, if that
/// led to the rejection.
pub open spec fn rejection_of<Y>(failure: Failure<Y>) -> Option<Seq<u8>> {
    match failure {
        Failure::Core(e) => match e@.cause {
            Some(CauseView::Http(fault)) => Some(
                response_bytes(400, Seq::empty(), Some(fault.message())),
            ),
            _ => None,
        },
        Failure::Extension(_) => None,
    }
}

/// Whether the response to a request that was rejected says that the request is a bad one, and why.
pub open spec fn says_why<Y>(failure: Failure<Y>, response: Seq<u8>) -> bool {
    failure matches Failure::Core(e) && e@.cause matches Some(CauseView::Http(fault)) && response
        == response_with(400, Some("Bad Request"@), Seq::empty(), Some(fault.message()))
}

/// Answers a request that was rejected.
pub fn reject_request<Y>(failure: &Failure<Y>) -> (response: Option<BytesMut>)
    ensures
        match response {
            Some(bytes) => rejection_of(*failure) == Some(contents(bytes)) && says_why(
                *failure,
                contents(bytes),
            ),
            None => rejection_of(*failure) is None,
        },
{
    match failure {
        Failure::Core(e) => match e.http_cause() {
            Some(fault) => {
                let mut bytes = BytesMut::new();
                write_response(&mut bytes, 400, &empty_map(), Some(fault.render()));
                Some(bytes)
            },
            None => None,
        },
        Failure::Extension(_) => None,
    }
}

/// The server's side of a handshake: the request is read from the bytes that are received, and
/// accepted or rejected.
pub struct Acceptor<E> {
    parser: StreamingParser<RequestParser<E>>,
    config: WebSocketConfig,
}

/// What reading a request leads to.
pub open spec fn accepted_as<E: ExtensionProvider>(
    step: AcceptStep<E::Extension, E::Error>,
    bytes: Seq<u8>,
    extension: E,
    registered: Seq<Seq<char>>,
    config: WebSocketConfig,
) -> bool {
    match step {
        AcceptStep::More => request_decoded(bytes, extension, registered, Ok(None)),
        AcceptStep::Accepted(upgrader) => exists|
            upgrade: UpgradeRequest<E::Extension>,
            length: usize,
        |
            #[trigger] request_decoded(bytes, extension, registered, Ok(Some((upgrade, length))))
                && upgrader@ == (UpgraderView {
                request: upgrade.request@,
                key: frozen(upgrade.key),
                subprotocol: text_of(upgrade.subprotocol),
                extension: upgrade.extension,
                extension_header: bytes_of(upgrade.extension_header),
                config,
            }),
        AcceptStep::Rejected(failure, response) => {
            &&& request_decoded(bytes, extension, registered, Err(failure))
            &&& match response {
                Some(response) => rejection_of(failure) == Some(contents(response)) && says_why(
                    failure,
                    contents(response),
                ),
                None => rejection_of(failure) is None,
            }
        },
    }
}

/// Execute a server handshake on a stream, opting for no extension and no subprotocol. The bytes that
/// are received on the stream are to be supplied.
pub fn accept(config: WebSocketConfig) -> (acceptor: Acceptor<NoExtProvider>)
    ensures
        acceptor.buffered() == Seq::<u8>::empty(),
        acceptor.supported().registered() == Seq::<Seq<char>>::empty(),
        acceptor.provider() == NoExtProvider,
        acceptor.configuration() == config,
{
    accept_with(config, NoExtProvider, SubprotocolRegistry::default())
}

/// Execute a server handshake on a stream. An attempt will be made to negotiate the extension and
/// subprotocols provided. The bytes that are received on the stream are to be supplied.
///
/// If the peer is accepted, then `config`, `extension` and `subprotocols` will be used for building
/// the `WebSocket`.
pub fn accept_with<E: ExtensionProvider>(
    config: WebSocketConfig,
    extension: E,
    subprotocols: SubprotocolRegistry,
) -> (acceptor: Acceptor<E>)
    ensures
        acceptor.buffered() == Seq::<u8>::empty(),
        acceptor.supported() == subprotocols,
        acceptor.provider() == extension,
        acceptor.configuration() == config,
{
    let parser = RequestParser { subprotocols, extension };
    Acceptor { parser: StreamingParser::new(BytesMut::new(), parser), config }
}

impl<E: ExtensionProvider> Acceptor<E> {
    /// The bytes that have been received.
    pub closed spec fn buffered(self) -> Seq<u8> {
        self.parser.buffered()
    }

    /// The subprotocols that are supported.
    pub closed spec fn supported(self) -> SubprotocolRegistry {
        self.parser.inner().subprotocols
    }

    /// What negotiates the extension.
    pub closed spec fn provider(self) -> E {
        self.parser.inner().extension
    }

    /// How the WebSocket is to be configured.
    pub closed spec fn configuration(self) -> WebSocketConfig {
        self.config
    }

    /// Adds bytes that have been received.
    pub fn supply(&mut self, bytes: &[u8])
        ensures
            final(self).buffered() == old(self).buffered() + bytes@,
            final(self).supported() == old(self).supported(),
            final(self).provider() == old(self).provider(),
            final(self).configuration() == old(self).configuration(),
    {
        self.parser.supply(bytes);
    }

    /// Reads the request, if it is complete, and accepts or rejects it. A request that is not as it
    /// should be is answered with what is wrong with it.
    pub fn step(self) -> (result: (AcceptStep<E::Extension, E::Error>, Option<Acceptor<E>>))
        ensures
            accepted_as(
                result.0,
                self.buffered(),
                self.provider(),
                self.supported().registered(),
                self.configuration(),
            ),
            match result.1 {
                Some(acceptor) => {
                    &&& result.0 is More
                    &&& acceptor.buffered() == self.buffered()
                    &&& acceptor.supported() == self.supported()
                    &&& acceptor.provider() == self.provider()
                    &&& acceptor.configuration() == self.configuration()
                },
                None => !(result.0 is More),
            },
    {
        let Acceptor { mut parser, config } = self;
        match parser.parse() {
            Ok(Some(upgrade)) => {
                let ghost length = choose|length: usize|
                    length <= self.buffered().len() && #[trigger] self.parser.inner().decodes(
                        self.buffered(),
                        Ok(Some((upgrade, length))),
                    );
                assert(request_decoded(
                    self.buffered(),
                    self.provider(),
                    self.supported().registered(),
                    Ok(Some((upgrade, length))),
                ));
                let (_, buf) = parser.into_parts();
                let UpgradeRequest { key, subprotocol, extension, request, extension_header } =
                    upgrade;
                let upgrader = WebSocketUpgrader {
                    request,
                    key,
                    subprotocol,
                    buf,
                    extension,
                    extension_header,
                    config,
                };
                (AcceptStep::Accepted(upgrader), None)
            },
            Ok(None) => (AcceptStep::More, Some(Acceptor { parser, config })),
            Err(failure) => {
                let response = reject_request(&failure);
                (AcceptStep::Rejected(failure, response), None)
            },
        }
    }
}

} // verus!
