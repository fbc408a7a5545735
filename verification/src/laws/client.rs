//! What a client makes of the response to its request.

use crate::ascii::same_but_case;
use crate::crypto::{base64_of, sha1_of};
use crate::errors::{
    http_fault, protocol_fault, text_of, worded, Error, ErrorKind, ErrorView, Failure,
    HttpErrorView, ProtocolErrorView,
};
use crate::handshake::client::{
    check_answer, check_partial_response, check_response, parse_response, upgraded, ClientHandshake,
    HandshakeResult, StreamingResponseParser, UpgradedClient,
};
use crate::handshake::head::{response_from, response_head_of, ResponseHead};
use crate::handshake::parser::{Parser, StreamingParser};
use crate::handshake::subprotocols::SubprotocolRegistry;
use crate::handshake::Nonce;
use crate::http_types::{ascii_text, value_of, values_of, visible, Field, Response, ResponseView};
use crate::laws::reading::at_rest;
use crate::protocol::WebSocketConfig;
use crate::ratchet_ext::ExtensionProvider;
use bytes::BytesMut;
use vstd::prelude::*;
use vstd::utf8::{decode_utf8, encode_utf8, valid_utf8};

verus! {

/// Whether the first value of a field is this text, but for the case of letters.
pub open spec fn field_is(fields: Seq<Field>, name: Seq<char>, text: Seq<char>) -> bool {
    value_of(fields, name) matches Some(value) && same_but_case(value, encode_utf8(text))
}

/// Whether a result is a rejection for this error.
pub open spec fn rejected_for<T>(result: Result<T, Error>, error: ErrorView) -> bool {
    result matches Err(e) && e@ == error
}

/// A response with any of the status codes from 300 to 399 redirects the client: if it has a
/// location, the caller gets that location.
pub proof fn law_redirection_reported(
    response: &Response,
    expected: &str,
    subprotocols: &SubprotocolRegistry,
    result: Result<Option<String>, Error>,
    location: Seq<u8>,
)
    requires
        call_ensures(check_answer, (response, expected, subprotocols), result),
        !(response@.version is Http09 || response@.version is Http10),
        300 <= response@.status <= 399,
        value_of(response@.fields, "location"@) == Some(location),
    ensures
        if valid_utf8(location) {
            rejected_for(result, http_fault(HttpErrorView::Redirected(decode_utf8(location))))
        } else {
            rejected_for(result, ErrorView { kind: ErrorKind::Http, cause: None })
        },
{
}

/// A response with any other status code but the one that switches protocols is rejected, and the
/// caller gets the code. So is a redirection without a location.
pub proof fn law_status_reported(
    response: &Response,
    expected: &str,
    subprotocols: &SubprotocolRegistry,
    result: Result<Option<String>, Error>,
)
    requires
        call_ensures(check_answer, (response, expected, subprotocols), result),
        !(response@.version is Http09 || response@.version is Http10),
        response@.status != 101,
        300 <= response@.status <= 399 ==> value_of(response@.fields, "location"@) is None,
    ensures
        rejected_for(result, http_fault(HttpErrorView::Status(Some(response@.status)))),
{
}

/// A response of a version of HTTP before 1.1 is rejected.
pub proof fn law_old_response_rejected(
    response: &Response,
    expected: &str,
    subprotocols: &SubprotocolRegistry,
    result: Result<Option<String>, Error>,
)
    requires
        call_ensures(check_answer, (response, expected, subprotocols), result),
        response@.version is Http09 || response@.version is Http10,
    ensures
        rejected_for(result, http_fault(HttpErrorView::HttpVersion("HTTP/1.0"@))),
{
}

/// The subprotocol that a response selects, or what it is rejected for: it must select at most one,
/// and one that was offered.
pub open spec fn selection(values: Seq<Seq<u8>>, offered: Seq<Seq<char>>) -> Result<
    Option<Seq<char>>,
    ProtocolErrorView,
> {
    if values.len() == 0 {
        Ok(None)
    } else if values.len() > 1 {
        Err(ProtocolErrorView::InvalidSubprotocolHeader("Server returned too many subprotocols"@))
    } else if !visible(values[0]) {
        Err(ProtocolErrorView::Encoding)
    } else if offered.contains(ascii_text(values[0])) {
        Ok(Some(ascii_text(values[0])))
    } else {
        Err(ProtocolErrorView::InvalidSubprotocolHeader(ascii_text(values[0])))
    }
}

/// A response that switches protocols is accepted if it names the protocol, the option of the
/// connection and the answer that is expected, and selects no subprotocol but one that was offered.
/// The caller gets that subprotocol.
pub proof fn law_answer_accepted(
    response: &Response,
    expected: &str,
    subprotocols: &SubprotocolRegistry,
    result: Result<Option<String>, Error>,
)
    requires
        call_ensures(check_answer, (response, expected, subprotocols), result),
    ensures
        ({
            let fields = response@.fields;
            let chosen = selection(
                values_of(fields, "sec-websocket-protocol"@),
                subprotocols.registered(),
            );
            &&& result is Ok <==> {
                &&& !(response@.version is Http09 || response@.version is Http10)
                &&& response@.status == 101
                &&& field_is(fields, "upgrade"@, "websocket"@)
                &&& field_is(fields, "connection"@, "upgrade"@)
                &&& value_of(fields, "sec-websocket-accept"@) == Some(encode_utf8(expected@))
                &&& chosen is Ok
            }
            &&& result matches Ok(subprotocol) ==> chosen == Ok::<
                Option<Seq<char>>,
                ProtocolErrorView,
            >(text_of(subprotocol))
        }),
{
}

/// What a response that switches protocols is rejected for: the first of its fields that is
/// missing, or is not what it must be.
pub proof fn law_answer_rejected(
    response: &Response,
    expected: &str,
    subprotocols: &SubprotocolRegistry,
    result: Result<Option<String>, Error>,
)
    requires
        call_ensures(check_answer, (response, expected, subprotocols), result),
        !(response@.version is Http09 || response@.version is Http10),
        response@.status == 101,
    ensures
        ({
            let fields = response@.fields;
            let upgrade = field_is(fields, "upgrade"@, "websocket"@);
            let connection = field_is(fields, "connection"@, "upgrade"@);
            let answer = value_of(fields, "sec-websocket-accept"@);
            let missing = |name: Seq<char>| http_fault(HttpErrorView::MissingHeader(name));
            let invalid = |name: Seq<char>| http_fault(HttpErrorView::InvalidHeader(name));
            &&& !upgrade ==> rejected_for(
                result,
                if value_of(fields, "upgrade"@) is None {
                    missing("upgrade"@)
                } else {
                    invalid("upgrade"@)
                },
            )
            &&& upgrade && !connection ==> rejected_for(
                result,
                if value_of(fields, "connection"@) is None {
                    missing("connection"@)
                } else {
                    invalid("connection"@)
                },
            )
            &&& upgrade && connection && answer is None ==> rejected_for(
                result,
                missing("sec-websocket-accept"@),
            )
            &&& upgrade && connection && answer is Some && answer != Some(encode_utf8(expected@))
                ==> rejected_for(result, http_fault(HttpErrorView::KeyMismatch))
            &&& upgrade && connection && answer == Some(encode_utf8(expected@)) ==> match selection(
                values_of(fields, "sec-websocket-protocol"@),
                subprotocols.registered(),
            ) {
                Err(e) => rejected_for(result, protocol_fault(e)),
                Ok(subprotocol) => result matches Ok(chosen) && text_of(chosen) == subprotocol,
            }
        }),
{
}

/// A response to a key is checked against the answer to that key: the digest of the key and the
/// text that every server appends to it, in Base64.
pub proof fn law_response_checked_by_key(
    response: &Response,
    nonce: &Nonce,
    expected: &str,
    subprotocols: &SubprotocolRegistry,
    result: Result<Option<String>, Error>,
    checked: Result<Option<String>, Error>,
)
    requires
        expected@ == base64_of(
            sha1_of(nonce@ + encode_utf8("258EAFA5-E914-47DA-95CA-C5AB0DC85B11"@)),
        ),
        call_ensures(check_response, (response, nonce, subprotocols), result),
        call_ensures(check_answer, (response, expected, subprotocols), checked),
    ensures
        match (result, checked) {
            (Ok(subprotocol), Ok(chosen)) => text_of(subprotocol) == text_of(chosen),
            (Err(e), Err(rejection)) => e@ == rejection@,
            _ => false,
        },
{
}

/// A handshake comes to the subprotocol that a check of the response gives and the extension that is
/// negotiated. It is rejected for what the check rejects it for, and for a failure of the extension.
pub proof fn law_response_parsed<E: ExtensionProvider>(
    response: Response,
    nonce: &Nonce,
    extension: &E,
    subprotocols: &SubprotocolRegistry,
    checked: Result<Option<String>, Error>,
    result: Result<HandshakeResult<E::Extension>, Failure<E::Error>>,
)
    requires
        call_ensures(check_response, (&response, nonce, subprotocols), checked),
        call_ensures(parse_response::<E>, (response, nonce, extension, subprotocols), result),
    ensures
        match checked {
            Err(e) => result matches Err(failure) && failure.says(e@),
            Ok(subprotocol) => match result {
                Ok(handshake) => {
                    &&& text_of(handshake.subprotocol) == text_of(subprotocol)
                    &&& extension.negotiates_client(response@.fields, Ok(handshake.extension))
                },
                Err(Failure::Extension(e)) => extension.negotiates_client(
                    response@.fields,
                    Err(e),
                ),
                Err(Failure::Core(_)) => false,
            },
        },
{
}

/// What is read of a response that is not complete is rejected if no complete response can be
/// accepted with it: a version other than 1.1, or a status code that neither switches protocols nor
/// redirects.
pub proof fn law_partial_response_checked(head: &ResponseHead, result: Result<(), Error>)
    requires
        call_ensures(check_partial_response, (head,), result),
    ensures
        ({
            let version_fits = head@.version is None || head@.version == Some(1u8);
            &&& !version_fits ==> rejected_for(
                result,
                http_fault(HttpErrorView::HttpVersion("HTTP/1.0"@)),
            )
            &&& version_fits ==> match head@.code {
                None => result is Ok,
                Some(code) => if code == 101 || 300 <= code <= 399 {
                    result is Ok
                } else if 100 <= code <= 999 {
                    rejected_for(result, http_fault(HttpErrorView::Status(Some(code))))
                } else {
                    rejected_for(result, worded(ErrorKind::Http, "Invalid status code"@))
                },
            }
        }),
{
}

/// What a client makes of a response whose answer must be `expected`: the subprotocol that is
/// selected, or what the response is rejected for.
pub open spec fn verdict(response: ResponseView, expected: Seq<char>, offered: Seq<Seq<char>>) -> Result<
    Option<Seq<char>>,
    ErrorView,
> {
    let fields = response.fields;
    let location = value_of(fields, "location"@);
    let answer = value_of(fields, "sec-websocket-accept"@);
    let faulty = |name: Seq<char>|
        if value_of(fields, name) is None {
            http_fault(HttpErrorView::MissingHeader(name))
        } else {
            http_fault(HttpErrorView::InvalidHeader(name))
        };
    if response.version is Http09 || response.version is Http10 {
        Err(http_fault(HttpErrorView::HttpVersion("HTTP/1.0"@)))
    } else if 300 <= response.status < 400 && location is Some {
        if valid_utf8(location->0) {
            Err(http_fault(HttpErrorView::Redirected(decode_utf8(location->0))))
        } else {
            Err(ErrorView { kind: ErrorKind::Http, cause: None })
        }
    } else if response.status != 101 {
        Err(http_fault(HttpErrorView::Status(Some(response.status))))
    } else if !field_is(fields, "upgrade"@, "websocket"@) {
        Err(faulty("upgrade"@))
    } else if !field_is(fields, "connection"@, "upgrade"@) {
        Err(faulty("connection"@))
    } else if answer is None {
        Err(http_fault(HttpErrorView::MissingHeader("sec-websocket-accept"@)))
    } else if answer->0 != encode_utf8(expected) {
        Err(http_fault(HttpErrorView::KeyMismatch))
    } else {
        match selection(values_of(fields, "sec-websocket-protocol"@), offered) {
            Ok(subprotocol) => Ok(subprotocol),
            Err(e) => Err(protocol_fault(e)),
        }
    }
}

/// The answer that a server owes to a key.
pub open spec fn owed_answer(key: Seq<u8>) -> Seq<char> {
    base64_of(sha1_of(key + encode_utf8("258EAFA5-E914-47DA-95CA-C5AB0DC85B11"@)))
}

/// Whether a handshake has come to this response: to its subprotocol and the extension that is
/// negotiated for it, or to what it is rejected for.
pub open spec fn concludes<E: ExtensionProvider>(
    provider: E,
    response: ResponseView,
    key: Seq<u8>,
    offered: Seq<Seq<char>>,
    result: Result<HandshakeResult<E::Extension>, Failure<E::Error>>,
) -> bool {
    match verdict(response, owed_answer(key), offered) {
        Err(e) => result matches Err(failure) && failure.says(e),
        Ok(subprotocol) => match result {
            Ok(handshake) => {
                &&& text_of(handshake.subprotocol) == subprotocol
                &&& provider.negotiates_client(response.fields, Ok(handshake.extension))
            },
            Err(Failure::Extension(e)) => provider.negotiates_client(response.fields, Err(e)),
            Err(Failure::Core(_)) => false,
        },
    }
}

/// A response is judged by its version, its status, its fields and the answer to the key that was sent.
pub proof fn law_handshake_concluded<E: ExtensionProvider>(
    response: Response,
    nonce: &Nonce,
    provider: &E,
    subprotocols: &SubprotocolRegistry,
    result: Result<HandshakeResult<E::Extension>, Failure<E::Error>>,
)
    requires
        call_ensures(parse_response::<E>, (response, nonce, provider, subprotocols), result),
    ensures
        concludes(*provider, response@, nonce@, subprotocols.registered(), result),
{
}

/// A client reads the response from the bytes that it has received: what follows the head of the
/// response is left, byte for byte. While the head is not complete, it waits, unless what is there
/// shows that the response will be rejected.
pub proof fn law_response_read<E: ExtensionProvider>(
    parser: &mut StreamingParser<StreamingResponseParser<E>>,
    result: Result<Option<HandshakeResult<E::Extension>>, Failure<E::Error>>,
)
    requires
        call_ensures(
            StreamingParser::<StreamingResponseParser<E>>::parse,
            (parser,),
            result,
        ),
    ensures
        ({
            let bytes = old(parser).buffered();
            let provider = old(parser).inner().extension;
            let key = old(parser).inner().nonce@;
            let offered = old(parser).inner().subprotocols.registered();
            match response_head_of(bytes) {
                Err(fault) => result matches Err(e) && e.says(worded(ErrorKind::Http, fault)),
                Ok((head, None)) => {
                    let redirects = head.code matches Some(code) && 300 <= code <= 399;
                    if head.version is Some && head.version != Some(1u8) {
                        result matches Err(e) && e.says(
                            http_fault(HttpErrorView::HttpVersion("HTTP/1.0"@)),
                        )
                    } else if head.code is None || head.code == Some(101u16) || redirects {
                        result matches Ok(None)
                    } else {
                        result is Err
                    }
                },
                Ok((head, Some(length))) => match response_from(head) {
                    Err(e) => result matches Err(failure) && failure.says(http_fault(e)),
                    Ok(response) => match result {
                        Ok(Some(handshake)) => {
                            &&& concludes(provider, response, key, offered, Ok(handshake))
                            &&& final(parser).buffered() == bytes.skip(length as int)
                        },
                        Ok(None) => false,
                        Err(e) => concludes(provider, response, key, offered, Err(e)),
                    },
                },
            }
        }),
        !(result matches Ok(Some(_))) ==> final(parser).buffered() == old(parser).buffered(),
        final(parser).inner() == old(parser).inner(),
{
    if let Ok(Some(handshake)) = result {
        let bytes = old(parser).buffered();
        let length = choose|length: usize|
            length <= bytes.len() && final(parser).buffered() == bytes.skip(length as int)
                && #[trigger] old(parser).inner().decodes(bytes, Ok(Some((handshake, length))));
        assert(old(parser).inner().decodes(bytes, Ok(Some((handshake, length)))));
    }
}

/// Bytes that a parser is supplied with come behind those that it has.
pub proof fn law_parser_supplied<P: Parser>(parser: &mut StreamingParser<P>, bytes: &[u8], done: ())
    requires
        call_ensures(StreamingParser::<P>::supply, (parser, bytes), done),
    ensures
        final(parser).buffered() == old(parser).buffered() + bytes@,
        final(parser).inner() == old(parser).inner(),
{
}

/// A client waits for the answer to the key that it has sent, with the subprotocols that it has
/// offered and the extension that it wants.
pub proof fn law_handshake_awaits<E: ExtensionProvider>(
    handshake: ClientHandshake<E>,
    parser: StreamingParser<StreamingResponseParser<E>>,
)
    requires
        call_ensures(ClientHandshake::<E>::read, (handshake,), parser),
    ensures
        parser.buffered() == handshake.buffered(),
        parser.inner().nonce@ == handshake.key(),
        parser.inner().subprotocols == handshake.offered(),
        parser.inner().extension == handshake.provider(),
{
}

/// Once the request has been sent, nothing of it is taken for the response, and the key is kept.
pub proof fn law_request_forgotten<E: ExtensionProvider>(
    handshake: &mut ClientHandshake<E>,
    done: (),
)
    requires
        call_ensures(ClientHandshake::<E>::clear_buffer, (handshake,), done),
    ensures
        final(handshake).buffered().len() == 0,
        final(handshake).key() == old(handshake).key(),
        final(handshake).offered() == old(handshake).offered(),
        final(handshake).provider() == old(handshake).provider(),
{
}

/// From the response to the WebSocket: what the client has received behind the response is the
/// first that its WebSocket reads. The extension of the WebSocket is the one that was negotiated
/// for the response.
pub proof fn law_client_connected<E: ExtensionProvider>(
    parser: &mut StreamingParser<StreamingResponseParser<E>>,
    handshake: HandshakeResult<E::Extension>,
    inner: StreamingResponseParser<E>,
    read_buffer: BytesMut,
    config: WebSocketConfig,
    client: UpgradedClient<E::Extension>,
)
    requires
        call_ensures(
            StreamingParser::<StreamingResponseParser<E>>::parse,
            (parser,),
            Ok(Some(handshake)),
        ),
        call_ensures(
            StreamingParser::<StreamingResponseParser<E>>::into_parts,
            (*final(parser),),
            (inner, read_buffer),
        ),
        call_ensures(
            upgraded::<E::Extension>,
            (config, handshake, read_buffer),
            client,
        ),
    ensures
        response_head_of(old(parser).buffered()) matches Ok((head, Some(length))) && response_from(
            head,
        ) matches Ok(response) && {
            &&& response.status == 101
            &&& client.websocket.reading().buffered == old(parser).buffered().skip(length as int)
            &&& at_rest(client.websocket.reading())
            &&& !client.websocket.reading().flags.role
            &&& client.websocket.framed_parts().max_message_size == config.max_message_size
            &&& old(parser).inner().extension.negotiates_client(
                response.fields,
                Ok(client.websocket.extended()),
            )
            &&& selection(
                values_of(response.fields, "sec-websocket-protocol"@),
                old(parser).inner().subprotocols.registered(),
            ) == Ok::<Option<Seq<char>>, ProtocolErrorView>(text_of(client.subprotocol))
        },
{
    law_response_read(parser, Ok(Some(handshake)));
}

} // verus!
