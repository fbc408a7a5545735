//! What a server makes of a request, and how it answers.

use crate::ascii::{item_at, same_but_case};
use crate::buffer::{contents, frozen};
use crate::crypto::{base64_of, sha1_of};
use crate::errors::{
    http_fault, protocol_fault, text_of, worded, CauseView, Error, ErrorKind, ErrorView, Failure,
    HttpErrorView, ProtocolError, ProtocolErrorView,
};
use crate::ext::NoExtProvider;
use crate::framed::CodecFlags;
use crate::handshake::head::{request_from, request_head_of, RequestHead};
use crate::handshake::laws::{lemma_answered_fields, lemma_name_lengths};
use crate::handshake::server::encoding::{field_lines, response_with, status_line};
use crate::handshake::server::{
    accept, accept_request, accept_with, answered, build_response, build_response_headers, bytes_of,
    check_partial_request, check_request, handshake, negotiated_as, parse_request_parts,
    reject_request, request_decoded, responded, response_from_headers, shaken, upgrade_check,
    upgraded_as, AcceptStep, Acceptor, UpgradeRequest, UpgradeRequestParts, UpgradedServer,
    UpgraderView, WebSocketResponse, WebSocketUpgrader,
};
use crate::handshake::subprotocols::{selected, SubprotocolRegistry};
use crate::http_types::{
    field_value, fields, pairs_of, reason_phrase, value_of, values_of, Field, Request, Response,
    Uri, Version,
};
use crate::laws::client::{field_is, rejected_for};
use crate::laws::reading::at_rest;
use crate::protocol::{Role, WebSocketConfig};
use crate::ratchet_ext::{Extension, ExtensionProvider, RsvBits};
use crate::text::decimal;
use bytes::{Bytes, BytesMut};
use http::{HeaderMap, HeaderValue};
use vstd::prelude::*;
use vstd::utf8::encode_utf8;

verus! {

/// Whether an item of the first value of a field is this text, but for the case of letters. Items are
/// separated by spaces and commas.
pub open spec fn field_lists(fields: Seq<Field>, name: Seq<char>, text: Seq<char>) -> bool {
    value_of(fields, name) matches Some(value) && exists|i: int, j: int|
        #[trigger] item_at(value, i, j) && same_but_case(value.subrange(i, j), encode_utf8(text))
}

/// Whether a request names one host, and no list of them.
pub open spec fn names_one_host(fields: Seq<Field>) -> bool {
    let hosts = values_of(fields, "host"@);
    hosts.len() == 1 && forall|i: int|
        0 <= i < hosts[0].len() ==> #[trigger] hosts[0][i] != 32 && hosts[0][i] != 44
}

/// Whether a request asks for an upgrade to a WebSocket as it should.
pub open spec fn asks_for_websocket(
    version: Version,
    method: Seq<char>,
    fields: Seq<Field>,
) -> bool {
    &&& !(version is Http09 || version is Http10)
    &&& method == "GET"@
    &&& field_lists(fields, "connection"@, "upgrade"@)
    &&& field_is(fields, "upgrade"@, "websocket"@)
    &&& field_is(fields, "sec-websocket-version"@, "13"@)
    &&& names_one_host(fields)
    &&& value_of(fields, "sec-websocket-key"@) is Some
}

/// What a request that does not ask for an upgrade as it should is rejected for.
pub open spec fn request_rejection(
    version: Version,
    method: Seq<char>,
    fields: Seq<Field>,
) -> HttpErrorView {
    let faulty = |name: Seq<char>|
        if value_of(fields, name) is None {
            HttpErrorView::MissingHeader(name)
        } else {
            HttpErrorView::InvalidHeader(name)
        };
    if version is Http09 || version is Http10 {
        HttpErrorView::HttpVersion("HTTP/1.0"@)
    } else if method != "GET"@ {
        HttpErrorView::HttpMethod(Some(method))
    } else if !field_lists(fields, "connection"@, "upgrade"@) {
        faulty("connection"@)
    } else if !field_is(fields, "upgrade"@, "websocket"@) {
        faulty("upgrade"@)
    } else if !field_is(fields, "sec-websocket-version"@, "13"@) {
        faulty("sec-websocket-version"@)
    } else if !names_one_host(fields) {
        HttpErrorView::MissingHeader("host"@)
    } else {
        HttpErrorView::MissingHeader("sec-websocket-key"@)
    }
}

/// A request is accepted if it asks for an upgrade as it should and its subprotocols can be read: the
/// server gets its key. Otherwise it is rejected for the first thing that is wrong with it.
pub proof fn law_request_checked(
    version: Version,
    method: &str,
    headers: &HeaderMap,
    subprotocols: &SubprotocolRegistry,
    result: Result<(Bytes, Option<String>), Error>,
    negotiated: Result<Option<String>, ProtocolError>,
)
    requires
        call_ensures(check_request, (version, method, headers, subprotocols), result),
        call_ensures(SubprotocolRegistry::negotiate_client, (subprotocols, headers), negotiated),
    ensures
        if !asks_for_websocket(version, method@, fields(*headers)) {
            rejected_for(
                result,
                http_fault(request_rejection(version, method@, fields(*headers))),
            )
        } else {
            match negotiated {
                Err(e) => rejected_for(result, protocol_fault(e@)),
                Ok(subprotocol) => result matches Ok((key, chosen)) && Some(frozen(key)) == value_of(
                    fields(*headers),
                    "sec-websocket-key"@,
                ) && text_of(chosen) == text_of(subprotocol),
            }
        },
{
}

/// What is read of a request that is not complete is rejected if no complete request can be
/// accepted with it: a version other than 1.1, or a method other than `GET`.
pub proof fn law_partial_request_checked(head: &RequestHead, result: Result<(), Error>)
    requires
        call_ensures(check_partial_request, (head,), result),
    ensures
        ({
            let version_fits = head@.version is None || head@.version == Some(1u8);
            &&& !version_fits ==> rejected_for(
                result,
                http_fault(HttpErrorView::HttpVersion("HTTP/1.0"@)),
            )
            &&& version_fits ==> match head@.method {
                None => result is Ok,
                Some(method) => if same_but_case(encode_utf8(method), encode_utf8("get"@)) {
                    result is Ok
                } else {
                    rejected_for(result, http_fault(HttpErrorView::HttpMethod(Some(method))))
                },
            }
        }),
{
}

/// Whether an extension and the value that answers the client are what a provider has negotiated:
/// both, or neither.
pub open spec fn negotiated_by<E: ExtensionProvider>(
    provider: E,
    received: Seq<Field>,
    extension: Option<E::Extension>,
    header: Option<HeaderValue>,
) -> bool {
    &&& extension is Some <==> header is Some
    &&& provider.negotiates_server(
        received,
        Ok(
            match extension {
                Some(extension) => Some((extension, header->0)),
                None => None,
            },
        ),
    )
}

/// The parts of a request are what a check of it gives, with the extension that is negotiated and
/// the value that answers the client. They are rejected for what the check rejects them for, and
/// for a failure of the extension.
pub proof fn law_request_parts_parsed<E: ExtensionProvider>(
    version: Version,
    method: &str,
    headers: &HeaderMap,
    extension: &E,
    subprotocols: &SubprotocolRegistry,
    checked: Result<(Bytes, Option<String>), Error>,
    result: Result<UpgradeRequestParts<E::Extension>, Failure<E::Error>>,
)
    requires
        call_ensures(check_request, (version, method, headers, subprotocols), checked),
        call_ensures(
            parse_request_parts::<E>,
            (version, method, headers, extension, subprotocols),
            result,
        ),
    ensures
        match checked {
            Err(e) => result matches Err(failure) && failure.says(e@),
            Ok((key, subprotocol)) => match result {
                Ok(parts) => {
                    &&& frozen(parts.key) == frozen(key)
                    &&& text_of(parts.subprotocol) == text_of(subprotocol)
                    &&& negotiated_by(
                        *extension,
                        fields(*headers),
                        parts.extension,
                        parts.extension_header,
                    )
                },
                Err(Failure::Extension(e)) => extension.negotiates_server(fields(*headers), Err(e)),
                Err(Failure::Core(_)) => false,
            },
        },
{
}

/// A request is accepted as its parts are, and kept.
pub proof fn law_request_accepted<E: ExtensionProvider>(
    request: Request,
    method: &str,
    extension: &E,
    subprotocols: &SubprotocolRegistry,
    checked: Result<(Bytes, Option<String>), Error>,
    result: Result<UpgradeRequest<E::Extension>, Failure<E::Error>>,
)
    requires
        method@ == request@.method,
        call_ensures(
            check_request,
            (request.version, method, &request.headers, subprotocols),
            checked,
        ),
        call_ensures(accept_request::<E>, (request, extension, subprotocols), result),
    ensures
        match checked {
            Err(e) => result matches Err(failure) && failure.says(e@),
            Ok((key, subprotocol)) => match result {
                Ok(upgrade) => {
                    &&& frozen(upgrade.key) == frozen(key)
                    &&& text_of(upgrade.subprotocol) == text_of(subprotocol)
                    &&& negotiated_by(
                        *extension,
                        request@.fields,
                        upgrade.extension,
                        upgrade.extension_header,
                    )
                    &&& upgrade.request@ == request@
                },
                Err(Failure::Extension(e)) => extension.negotiates_server(request@.fields, Err(e)),
                Err(Failure::Core(_)) => false,
            },
        },
{
}

/// Whether the fields of a response answer a request: the key, the protocol that is switched to,
/// the option of the connection, and the subprotocol and the extension if and only if they were
/// negotiated. The other fields are left.
pub open spec fn answers_request(
    extra: Seq<Field>,
    answer: Seq<Field>,
    key: Seq<u8>,
    connection: Seq<char>,
    subprotocol: Option<Seq<char>>,
    extension: Option<Seq<u8>>,
) -> bool {
    &&& values_of(answer, "sec-websocket-accept"@) == seq![
        encode_utf8(
            base64_of(sha1_of(key + encode_utf8("258EAFA5-E914-47DA-95CA-C5AB0DC85B11"@))),
        ),
    ]
    &&& values_of(answer, "upgrade"@) == seq![encode_utf8("websocket"@)]
    &&& values_of(answer, "connection"@) == seq![encode_utf8(connection)]
    &&& values_of(answer, "sec-websocket-protocol"@) == match subprotocol {
        Some(name) => seq![encode_utf8(name)],
        None => values_of(extra, "sec-websocket-protocol"@),
    }
    &&& values_of(answer, "sec-websocket-extensions"@) == match extension {
        Some(value) => seq![value],
        None => values_of(extra, "sec-websocket-extensions"@),
    }
    &&& forall|name: Seq<char>|
        name != "sec-websocket-accept"@ && name != "upgrade"@ && name != "connection"@ && name
            != "sec-websocket-protocol"@ && name != "sec-websocket-extensions"@
            ==> #[trigger] values_of(answer, name) == values_of(extra, name)
}

/// What the fields of an answer are.
proof fn lemma_answers_request(
    extra: Seq<Field>,
    key: Seq<u8>,
    connection: Seq<char>,
    subprotocol: Option<Seq<char>>,
    extension: Option<Seq<u8>>,
)
    requires
        answered(extra, key, connection, subprotocol, extension) is Ok,
    ensures
        answers_request(
            extra,
            answered(extra, key, connection, subprotocol, extension)->Ok_0,
            key,
            connection,
            subprotocol,
            extension,
        ),
{
    lemma_name_lengths();
    let answer = answered(extra, key, connection, subprotocol, extension)->Ok_0;
    lemma_answered_fields(
        extra,
        key,
        connection,
        subprotocol,
        extension,
        "sec-websocket-accept"@,
    );
    lemma_answered_fields(extra, key, connection, subprotocol, extension, "upgrade"@);
    lemma_answered_fields(extra, key, connection, subprotocol, extension, "connection"@);
    lemma_answered_fields(
        extra,
        key,
        connection,
        subprotocol,
        extension,
        "sec-websocket-protocol"@,
    );
    lemma_answered_fields(
        extra,
        key,
        connection,
        subprotocol,
        extension,
        "sec-websocket-extensions"@,
    );
    assert forall|name: Seq<char>|
        name != "sec-websocket-accept"@ && name != "upgrade"@ && name != "connection"@ && name
            != "sec-websocket-protocol"@ && name
            != "sec-websocket-extensions"@ implies #[trigger] values_of(answer, name) == values_of(
        extra,
        name,
    ) by {
        lemma_answered_fields(extra, key, connection, subprotocol, extension, name);
    }
}

/// A response is built for every key, subprotocol and extension, unless the subprotocol cannot be
/// the value of a field: it switches protocols and answers the request.
pub proof fn law_response_built(
    key: Bytes,
    subprotocol: Option<String>,
    extension_header: Option<HeaderValue>,
    result: Result<Response, Error>,
)
    requires
        call_ensures(build_response, (key, subprotocol, extension_header), result),
    ensures
        if subprotocol matches Some(name) && !field_value(encode_utf8(name@)) {
            rejected_for(result, worded(ErrorKind::Http, "failed to parse header value"@))
        } else {
            result matches Ok(response) && response@.status == 101 && response@.version is Http11
                && answers_request(
                Seq::empty(),
                response@.fields,
                frozen(key),
                "Upgrade"@,
                text_of(subprotocol),
                bytes_of(extension_header),
            )
        },
{
    if !(subprotocol matches Some(name) && !field_value(encode_utf8(name@))) {
        lemma_answers_request(
            Seq::empty(),
            frozen(key),
            "Upgrade"@,
            text_of(subprotocol),
            bytes_of(extension_header),
        );
    }
}

/// The fields of a response are built in the same way.
pub proof fn law_response_headers_built(
    key: Bytes,
    subprotocol: Option<String>,
    extension_header: Option<HeaderValue>,
    result: Result<HeaderMap, Error>,
)
    requires
        call_ensures(build_response_headers, (key, subprotocol, extension_header), result),
    ensures
        if subprotocol matches Some(name) && !field_value(encode_utf8(name@)) {
            rejected_for(result, worded(ErrorKind::Http, "failed to parse header value"@))
        } else {
            result matches Ok(map) && answers_request(
                Seq::empty(),
                fields(map),
                frozen(key),
                "upgrade"@,
                text_of(subprotocol),
                bytes_of(extension_header),
            )
        },
{
    if !(subprotocol matches Some(name) && !field_value(encode_utf8(name@))) {
        lemma_answers_request(
            Seq::empty(),
            frozen(key),
            "upgrade"@,
            text_of(subprotocol),
            bytes_of(extension_header),
        );
    }
}

/// What an upgrade gives if it succeeds: a WebSocket that is the server's end, is open, has
/// received nothing and has nothing to send, and uses the extension that was negotiated. The
/// response switches protocols and answers the request, with the fields that the caller adds.
pub open spec fn upgrade_gives<E: Extension>(
    upgrader: UpgraderView<E>,
    extra: Seq<Field>,
    server: UpgradedServer<E>,
    response: BytesMut,
) -> bool {
    let socket = server.websocket;
    &&& socket.extended() == upgrader.extension
    &&& socket.state() is NotClosed
    &&& socket.wf()
    &&& at_rest(socket.reading())
    &&& socket.reading().buffered.len() == 0
    &&& socket.reading().flags.role
    &&& exists|bits: RsvBits|
        {
            &&& #[trigger] upgrader.extension.has_bits(bits)
            &&& socket.reading().flags.rsv1 == bits.rsv1
            &&& socket.reading().flags.rsv2 == bits.rsv2
            &&& socket.reading().flags.rsv3 == bits.rsv3
        }
    &&& socket.half().pending.len() == 0
    &&& socket.framed_parts().max_message_size == upgrader.config.max_message_size
    &&& server.request@ == upgrader.request
    &&& text_of(server.subprotocol) == upgrader.subprotocol
    &&& exists|answer: Seq<Field>|
        answers_request(
            extra,
            answer,
            upgrader.key,
            "upgrade"@,
            upgrader.subprotocol,
            upgrader.extension_header,
        ) && contents(response) == #[trigger] response_with(
            101,
            Some("Switching Protocols"@),
            answer,
            None,
        )
}

/// Whether an upgrade came to what it should. It fails only for a subprotocol that cannot be the
/// value of a field, and for so many fields that a map has no room for them.
pub open spec fn upgrade_comes_to<E: Extension>(
    upgrader: UpgraderView<E>,
    extra: Seq<Field>,
    result: Result<(UpgradedServer<E>, BytesMut), Error>,
) -> bool {
    let bad_name = upgrader.subprotocol matches Some(name) && !field_value(encode_utf8(name));
    match result {
        Ok((server, response)) => !bad_name && upgrade_gives(upgrader, extra, server, response),
        Err(e) => {
            ||| bad_name && e@ == worded(ErrorKind::Http, "failed to parse header value"@)
            ||| extra.len() > 6549 && e@ == http_fault(HttpErrorView::TooManyHeaders)
        },
    }
}

/// What an upgrade comes to.
proof fn lemma_upgrade_gives<E: Extension>(
    upgrader: UpgraderView<E>,
    extra: Seq<Field>,
    result: Result<(UpgradedServer<E>, BytesMut), Error>,
)
    requires
        upgraded_as(result, upgrader, extra),
    ensures
        upgrade_comes_to(upgrader, extra, result),
{
    if let Ok((server, response)) = result {
        lemma_answers_request(
            extra,
            upgrader.key,
            "upgrade"@,
            upgrader.subprotocol,
            upgrader.extension_header,
        );
        let bits = choose|bits: RsvBits|
            server.websocket.framed_parts().flags == #[trigger] CodecFlags::opened(
                Role::Server,
                bits,
            ) && upgrader.extension.has_bits(bits);
        assert(upgrader.extension.has_bits(bits));
    }
}

/// An upgrade gives a WebSocket with the extension that the upgrader holds, and a response that
/// names the extension if there is one.
pub proof fn law_upgraded<E: Extension>(
    upgrader: WebSocketUpgrader<E>,
    result: Result<(UpgradedServer<E>, BytesMut), Error>,
)
    requires
        call_ensures(WebSocketUpgrader::<E>::upgrade, (upgrader,), result),
    ensures
        upgrade_comes_to(upgrader@, Seq::empty(), result),
{
    lemma_upgrade_gives(upgrader@, Seq::empty(), result);
}

/// An upgrade with fields that the caller adds differs in the fields of the response only.
pub proof fn law_upgraded_with<E: Extension>(
    upgrader: WebSocketUpgrader<E>,
    headers: HeaderMap,
    result: Result<(UpgradedServer<E>, BytesMut), Error>,
)
    requires
        call_ensures(WebSocketUpgrader::<E>::upgrade_with, (upgrader, headers), result),
    ensures
        upgrade_comes_to(upgrader@, fields(headers), result),
{
    lemma_upgrade_gives(upgrader@, fields(headers), result);
}

/// From the first byte to the WebSocket: a server that is accepting connections reads a request,
/// accepts it and upgrades the connection. The WebSocket has the extension that the provider has
/// negotiated for the request, the response names it if and only if there is one, and answers the
/// key of the request. The subprotocol is the one that was negotiated, and the limit is the one
/// that was configured.
pub proof fn law_accepted_and_upgraded<E: ExtensionProvider>(
    config: WebSocketConfig,
    provider: E,
    subprotocols: SubprotocolRegistry,
    accepting: Acceptor<E>,
    acceptor: Acceptor<E>,
    upgrader: WebSocketUpgrader<E::Extension>,
    headers: HeaderMap,
    server: UpgradedServer<E::Extension>,
    response: BytesMut,
)
    requires
        call_ensures(accept_with::<E>, (config, provider, subprotocols), accepting),
        // Whatever bytes have been supplied since.
        acceptor.supported() == accepting.supported(),
        acceptor.provider() == accepting.provider(),
        acceptor.configuration() == accepting.configuration(),
        call_ensures(
            Acceptor::<E>::step,
            (acceptor,),
            (AcceptStep::Accepted(upgrader), None),
        ),
        call_ensures(
            WebSocketUpgrader::<E::Extension>::upgrade_with,
            (upgrader, headers),
            Ok((server, response)),
        ),
    ensures
        request_head_of(acceptor.buffered()) matches Ok((head, Some(_))) && request_from(
            head,
        ) matches Ok(request) && {
            &&& asks_for_websocket(request.version, request.method, request.fields)
            &&& server.request@ == request
            &&& server.websocket.framed_parts().max_message_size == config.max_message_size
            &&& selected(
                values_of(request.fields, "sec-websocket-protocol"@),
                subprotocols.registered(),
            ) == Ok::<Option<Seq<char>>, ProtocolErrorView>(
                text_of(server.subprotocol),
            )
            &&& exists|header: Option<HeaderValue>|
                {
                    &&& #[trigger] negotiated_by(
                        provider,
                        request.fields,
                        server.websocket.extended(),
                        header,
                    )
                    &&& exists|answer: Seq<Field>|
                        answers_request(
                            fields(headers),
                            answer,
                            value_of(request.fields, "sec-websocket-key"@)->0,
                            "upgrade"@,
                            text_of(server.subprotocol),
                            bytes_of(header),
                        ) && contents(response) == #[trigger] response_with(
                            101,
                            Some("Switching Protocols"@),
                            answer,
                            None,
                        )
                }
        },
{
    let registered = subprotocols.registered();
    let bytes = acceptor.buffered();
    let (upgrade, length) = choose|upgrade: UpgradeRequest<E::Extension>, length: usize|
        #[trigger] request_decoded(bytes, provider, registered, Ok(Some((upgrade, length))))
            && upgrader@ == (UpgraderView {
            request: upgrade.request@,
            key: frozen(upgrade.key),
            subprotocol: text_of(upgrade.subprotocol),
            extension: upgrade.extension,
            extension_header: bytes_of(upgrade.extension_header),
            config,
        });
    let request = upgrade.request@;
    law_upgraded_with(upgrader, headers, Ok((server, response)));
    assert(negotiated_by(
        provider,
        request.fields,
        server.websocket.extended(),
        upgrade.extension_header,
    ));
}

/// A server that waits for a request goes on waiting, or has accepted or rejected it. A request that is
/// rejected for what is wrong with it is answered with these words, and nothing else is answered.
pub proof fn law_accept_step<E: ExtensionProvider>(
    acceptor: Acceptor<E>,
    step: AcceptStep<E::Extension, E::Error>,
    again: Option<Acceptor<E>>,
)
    requires
        call_ensures(Acceptor::<E>::step, (acceptor,), (step, again)),
    ensures
        match request_head_of(acceptor.buffered()) {
            Err(fault) => step matches AcceptStep::Rejected(failure, None) && failure.says(
                worded(ErrorKind::Http, fault),
            ),
            Ok((head, None)) => {
                let fits = (head.version is None || head.version == Some(1u8)) && (
                head.method matches Some(method) ==> same_but_case(
                    encode_utf8(method),
                    encode_utf8("get"@),
                ));
                if fits {
                    &&& step is More
                    &&& again matches Some(acceptor_again) && acceptor_again.buffered()
                        == acceptor.buffered()
                } else {
                    step is Rejected
                }
            },
            Ok((head, Some(_))) => match request_from(head) {
                Err(e) => step matches AcceptStep::Rejected(failure, Some(_)) && failure.says(
                    http_fault(e),
                ),
                Ok(request) => if asks_for_websocket(
                    request.version,
                    request.method,
                    request.fields,
                ) {
                    !(step is More) && (step matches AcceptStep::Rejected(_, response) ==> response
                        is None)
                } else {
                    step matches AcceptStep::Rejected(failure, Some(response)) && failure.says(
                        http_fault(
                            request_rejection(request.version, request.method, request.fields),
                        ),
                    ) && contents(response) == response_with(
                        400,
                        Some("Bad Request"@),
                        Seq::empty(),
                        Some(
                            request_rejection(
                                request.version,
                                request.method,
                                request.fields,
                            ).message(),
                        ),
                    )
                },
            },
        },
        !(step is More) ==> again is None,
{
}

/// A connection that is rejected is answered with the response that is given.
pub proof fn law_rejected<E: Extension>(
    upgrader: WebSocketUpgrader<E>,
    response: WebSocketResponse,
    bytes: BytesMut,
)
    requires
        call_ensures(WebSocketUpgrader::<E>::reject, (upgrader, response), bytes),
    ensures
        contents(bytes) == response_with(
            response.code(),
            reason_phrase(response.code()),
            response.fields(),
            None,
        ),
{
}

/// A handshake comes to what a check of the request gives: a response that switches protocols and
/// answers the request, and the extension that was negotiated. It is rejected for what the check
/// rejects it for, for a failure of the extension and for a subprotocol that cannot be the value of
/// a field.
pub open spec fn shakes_hands<E: ExtensionProvider>(
    provider: E,
    received: Seq<Field>,
    checked: Result<(Bytes, Option<String>), Error>,
    result: Result<(Response, Option<E::Extension>), Failure<E::Error>>,
) -> bool {
    match checked {
        Err(e) => result matches Err(failure) && failure.says(e@),
        Ok((key, subprotocol)) => match result {
            Ok((response, extension)) => {
                &&& response@.status == 101
                &&& response@.version is Http11
                &&& exists|header: Option<HeaderValue>|
                    #[trigger] negotiated_by(provider, received, extension, header)
                        && answers_request(
                        Seq::empty(),
                        response@.fields,
                        frozen(key),
                        "Upgrade"@,
                        text_of(subprotocol),
                        bytes_of(header),
                    )
            },
            Err(Failure::Extension(e)) => provider.negotiates_server(received, Err(e)),
            Err(Failure::Core(e)) => {
                &&& subprotocol matches Some(name) && !field_value(encode_utf8(name@))
                &&& e@ == worded(ErrorKind::Http, "failed to parse header value"@)
            },
        },
    }
}

/// What a handshake comes to.
proof fn lemma_shakes_hands<E: ExtensionProvider>(
    version: Version,
    method: Seq<char>,
    provider: E,
    headers: HeaderMap,
    subprotocols: SubprotocolRegistry,
    checked: Result<(Bytes, Option<String>), Error>,
    result: Result<(Response, Option<E::Extension>), Failure<E::Error>>,
)
    requires
        ({
            let check = upgrade_check(
                version,
                method,
                fields(headers),
                subprotocols.registered(),
            );
            &&& match checked {
                Ok((key, subprotocol)) => check == Ok::<(Seq<u8>, Option<Seq<char>>), ErrorView>(
                    (frozen(key), text_of(subprotocol)),
                ),
                Err(e) => check == Err::<(Seq<u8>, Option<Seq<char>>), ErrorView>(e@),
            }
            &&& shaken(result, provider, fields(headers), check)
        }),
    ensures
        shakes_hands(provider, fields(headers), checked, result),
{
    if let Ok((key, subprotocol)) = checked {
        if let Ok((response, extension)) = result {
            let header = choose|header: Option<HeaderValue>|
                #[trigger] negotiated_as(provider, fields(headers), extension, header) && responded(
                    Ok(response),
                    frozen(key),
                    text_of(subprotocol),
                    bytes_of(header),
                );
            assert(negotiated_by(provider, fields(headers), extension, header));
            lemma_answers_request(
                Seq::empty(),
                frozen(key),
                "Upgrade"@,
                text_of(subprotocol),
                bytes_of(header),
            );
        }
    }
}

/// A request is answered as a check of it says.
pub proof fn law_handshake<E: ExtensionProvider>(
    request: Request,
    method: &str,
    provider: &E,
    subprotocols: &SubprotocolRegistry,
    checked: Result<(Bytes, Option<String>), Error>,
    result: Result<(Response, Option<E::Extension>), Failure<E::Error>>,
)
    requires
        method@ == request@.method,
        call_ensures(
            check_request,
            (request.version, method, &request.headers, subprotocols),
            checked,
        ),
        call_ensures(handshake::<E>, (request, provider, subprotocols), result),
    ensures
        shakes_hands(*provider, request@.fields, checked, result),
{
    lemma_shakes_hands(
        request.version,
        method@,
        *provider,
        request.headers,
        *subprotocols,
        checked,
        result,
    );
}

/// The fields of a request alone are answered as those of a `GET` of HTTP/1.1.
pub proof fn law_response_from_headers<E: ExtensionProvider>(
    headers: &HeaderMap,
    method: &str,
    provider: &E,
    subprotocols: &SubprotocolRegistry,
    checked: Result<(Bytes, Option<String>), Error>,
    result: Result<(Response, Option<E::Extension>), Failure<E::Error>>,
)
    requires
        method@ == "GET"@,
        call_ensures(check_request, (Version::Http11, method, headers, subprotocols), checked),
        call_ensures(response_from_headers::<E>, (headers, provider, subprotocols), result),
    ensures
        shakes_hands(*provider, fields(*headers), checked, result),
{
    lemma_shakes_hands(
        Version::Http11,
        method@,
        *provider,
        *headers,
        *subprotocols,
        checked,
        result,
    );
}

/// A failure is answered if and only if something is wrong with the request: with a status code and the
/// words for what it is.
pub proof fn law_failure_answered<Y>(failure: &Failure<Y>, response: Option<BytesMut>)
    requires
        call_ensures(reject_request::<Y>, (failure,), response),
    ensures
        match response {
            Some(bytes) => *failure matches Failure::Core(e) && e@.cause matches Some(
                CauseView::Http(fault),
            ) && contents(bytes) == response_with(
                400,
                Some("Bad Request"@),
                Seq::empty(),
                Some(fault.message()),
            ),
            None => !(*failure matches Failure::Core(e) && e@.cause matches Some(
                CauseView::Http(_),
            )),
        },
{
}

/// The line of a field in a response.
pub open spec fn response_line(name: Seq<char>, value: Seq<u8>) -> Seq<u8> {
    encode_utf8(name) + encode_utf8(": "@) + value + encode_utf8("\r\n"@)
}

/// Every field of a response has a line.
proof fn lemma_response_line(pairs: Seq<(Seq<char>, Seq<u8>)>, i: int)
    requires
        0 <= i < pairs.len(),
    ensures
        field_lines(pairs) == field_lines(pairs.take(i)) + response_line(pairs[i].0, pairs[i].1)
            + field_lines(pairs.skip(i + 1)),
    decreases pairs.len(),
{
    if i == pairs.len() - 1 {
        assert(pairs.drop_last() =~= pairs.take(i));
        assert(pairs.skip(i + 1) =~= Seq::empty());
        assert(field_lines(pairs) =~= field_lines(pairs.take(i)) + response_line(
            pairs[i].0,
            pairs[i].1,
        ) + field_lines(pairs.skip(i + 1)));
    } else {
        let fewer = pairs.drop_last();
        lemma_response_line(fewer, i);
        assert(fewer.take(i) =~= pairs.take(i));
        assert(pairs.skip(i + 1).drop_last() =~= fewer.skip(i + 1));
        assert(pairs.skip(i + 1).last() == pairs.last());
        assert(field_lines(pairs) =~= field_lines(pairs.take(i)) + response_line(
            pairs[i].0,
            pairs[i].1,
        ) + field_lines(pairs.skip(i + 1)));
    }
}

/// A response is the line with the version, the status code and the reason phrase, a line for each
/// field, in order, the body, if there is one, and a line break: two if there are no fields.
pub proof fn law_response_layout(
    status: u16,
    reason: Option<Seq<char>>,
    fields: Seq<Field>,
    body: Option<Seq<char>>,
)
    ensures
        ({
            let pairs = pairs_of(fields);
            let start = encode_utf8("HTTP/1.1 "@) + encode_utf8(decimal(status as nat)) + match reason {
                Some(reason) => encode_utf8(" "@) + encode_utf8(reason) + encode_utf8(" \r\n"@),
                None => encode_utf8("\r\n"@),
            };
            let text = match body {
                Some(body) => encode_utf8(body),
                None => Seq::empty(),
            };
            &&& response_with(status, reason, fields, body) == start + field_lines(pairs) + text
                + encode_utf8(
                if fields.len() == 0 {
                    "\r\n\r\n"@
                } else {
                    "\r\n"@
                },
            )
            &&& pairs.len() == 0 ==> field_lines(pairs).len() == 0
            &&& forall|i: int|
                0 <= i < pairs.len() ==> field_lines(pairs) == field_lines(pairs.take(i))
                    + response_line((#[trigger] pairs[i]).0, pairs[i].1) + field_lines(
                    pairs.skip(i + 1),
                )
        }),
{
    let pairs = pairs_of(fields);
    let start = encode_utf8("HTTP/1.1 "@) + encode_utf8(decimal(status as nat)) + match reason {
        Some(reason) => encode_utf8(" "@) + encode_utf8(reason) + encode_utf8(" \r\n"@),
        None => encode_utf8("\r\n"@),
    };
    let text = match body {
        Some(body) => encode_utf8(body),
        None => Seq::empty(),
    };
    assert(status_line(status, reason) =~= start);
    assert(start + field_lines(pairs) + text =~= match body {
        Some(body) => start + field_lines(pairs) + encode_utf8(body),
        None => start + field_lines(pairs),
    });
    assert forall|i: int| 0 <= i < pairs.len() implies field_lines(pairs) == field_lines(
        pairs.take(i),
    ) + response_line((#[trigger] pairs[i]).0, pairs[i].1) + field_lines(pairs.skip(i + 1)) by {
        lemma_response_line(pairs, i);
    }
}

/// Bytes that a server is supplied with come behind those that it has received, and nothing else
/// changes.
pub proof fn law_acceptor_supplied<E: ExtensionProvider>(
    acceptor: &mut Acceptor<E>,
    bytes: &[u8],
    done: (),
)
    requires
        call_ensures(Acceptor::<E>::supply, (acceptor, bytes), done),
    ensures
        final(acceptor).buffered() == old(acceptor).buffered() + bytes@,
        final(acceptor).supported() == old(acceptor).supported(),
        final(acceptor).provider() == old(acceptor).provider(),
        final(acceptor).configuration() == old(acceptor).configuration(),
{
}

/// A server that opts for no extension and no subprotocol has none, and the configuration that it
/// is given.
pub proof fn law_accepting(config: WebSocketConfig, acceptor: Acceptor<NoExtProvider>)
    requires
        call_ensures(accept, (config,), acceptor),
    ensures
        acceptor.buffered().len() == 0,
        acceptor.supported().registered().len() == 0,
        acceptor.configuration() == config,
{
}

/// A server that opts for an extension and subprotocols has those that it is given.
pub proof fn law_accepting_with<E: ExtensionProvider>(
    config: WebSocketConfig,
    provider: E,
    subprotocols: SubprotocolRegistry,
    acceptor: Acceptor<E>,
)
    requires
        call_ensures(accept_with::<E>, (config, provider, subprotocols), acceptor),
    ensures
        acceptor.buffered().len() == 0,
        acceptor.supported() == subprotocols,
        acceptor.provider() == provider,
        acceptor.configuration() == config,
{
}

/// An upgrader tells the subprotocol, the target and the request that it was made for.
pub proof fn law_upgrader_tells<E: Extension>(
    upgrader: &WebSocketUpgrader<E>,
    subprotocol: Option<&String>,
    uri: &Uri,
    request: &Request,
)
    requires
        call_ensures(WebSocketUpgrader::<E>::subprotocol, (upgrader,), subprotocol),
        call_ensures(WebSocketUpgrader::<E>::uri, (upgrader,), uri),
        call_ensures(WebSocketUpgrader::<E>::request, (upgrader,), request),
    ensures
        match subprotocol {
            Some(name) => upgrader@.subprotocol == Some(name@),
            None => upgrader@.subprotocol is None,
        },
        uri@ == request@.uri,
        request@ == upgrader@.request,
{
}

} // verus!
