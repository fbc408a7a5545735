//! The client's side of the opening handshake.

pub mod encoding;

use crate::ascii::eq_bytes;
use crate::buffer::{as_slice, contents};
use crate::crypto::{accept_key, answer_to};
use crate::errors::{
    http_fault, protocol_fault, text_of, worded, Cause, Error, ErrorKind, ErrorView, Failure,
    HttpError, HttpErrorView,
};
use crate::ext::NoExtProvider;
use crate::handshake::client::encoding::{
    build_request, built_as, completed, completed_as, drawn, encode_request, request_bytes,
    request_fault, ValidatedRequestView,
};
use crate::handshake::head::{
    lemma_gathered_len, read_response_head, response_from, response_head_of, ResponseHead,
    ResponseHeadView,
};
use crate::handshake::parser::{ParseResult, Parser, StreamingParser};
use crate::handshake::subprotocols::{accepted, SubprotocolRegistry};
use crate::handshake::{
    validate_header_value, value_fault, Nonce, TryIntoRequest, BAD_STATUS_CODE, UPGRADE_STR,
    WEBSOCKET_STR,
};
use crate::http_types::{
    get, is_status, lemma_plain_names, value_of, values_of, Field, Request, RequestView, Response,
    ResponseView, Version, CONNECTION, LOCATION, SEC_WEBSOCKET_ACCEPT, SEC_WEBSOCKET_PROTOCOL,
    UPGRADE,
};
use crate::protocol::{Role, WebSocketConfig};
use crate::ratchet_ext::{Extension, ExtensionProvider};
use crate::text::utf8_text;
use crate::ws::WebSocket;
use bytes::BytesMut;
use vstd::prelude::*;
use vstd::utf8::{decode_utf8, encode_utf8, valid_utf8};

verus! {

/// What a handshake has come to.
#[derive(Debug)]
pub struct HandshakeResult<E> {
    /// The subprotocol that the server has selected.
    pub subprotocol: Option<String>,
    /// The extension that has been negotiated.
    pub extension: Option<E>,
}

/// What an incomplete response is rejected for.
pub open spec fn partial_fault(head: ResponseHeadView) -> Option<ErrorView> {
    if head.version is Some && head.version != Some(1u8) {
        Some(http_fault(HttpErrorView::HttpVersion(Version::Http10.text())))
    } else {
        match head.code {
            Some(code) => if code == 101 || 300 <= code < 400 {
                None
            } else if 100 <= code <= 999 {
                Some(http_fault(HttpErrorView::Status(Some(code))))
            } else {
                Some(worded(ErrorKind::Http, BAD_STATUS_CODE@))
            },
            None => None,
        }
    }
}

/// Quickly checks a partial response in the order of the expected HTTP response declaration to see
/// if it's valid. Redirections are read on until their location is known.
pub fn check_partial_response(head: &ResponseHead) -> (result: Result<(), Error>)
    ensures
        match partial_fault(head@) {
            Some(e) => result matches Err(error) && error@ == e,
            None => result is Ok,
        },
{
    match head.version {
        Some(1) | None => {},
        Some(_) => {
            return Err(
                Error::http(HttpError::HttpVersion(Version::Http10.as_str().to_string())),
            );
        },
    }
    match head.code {
        Some(101) | None => Ok(()),
        Some(code) => {
            if 300 <= code && code < 400 {
                Ok(())
            } else if is_status(code) {
                Err(Error::http(HttpError::Status(Some(code))))
            } else {
                Err(
                    Error::with_cause(
                        ErrorKind::Http,
                        Cause::Message(BAD_STATUS_CODE.to_string()),
                    ),
                )
            }
        },
    }
}

/// What a status code other than the one that switches protocols leads to: the location of a
/// redirection, or the code.
pub open spec fn status_fault(response: ResponseView) -> ErrorView {
    match value_of(response.fields, LOCATION@) {
        Some(location) if 300 <= response.status <= 399 => if valid_utf8(location) {
            http_fault(HttpErrorView::Redirected(decode_utf8(location)))
        } else {
            ErrorView { kind: ErrorKind::Http, cause: None }
        },
        _ => http_fault(HttpErrorView::Status(Some(response.status))),
    }
}

/// What an answer is rejected for if it must be `expected`.
pub open spec fn answer_fault(response: ResponseView, expected: Seq<char>) -> Option<HttpErrorView> {
    match value_of(response.fields, SEC_WEBSOCKET_ACCEPT@) {
        Some(answer) => if answer == encode_utf8(expected) {
            None
        } else {
            Some(HttpErrorView::KeyMismatch)
        },
        None => Some(HttpErrorView::MissingHeader(SEC_WEBSOCKET_ACCEPT@)),
    }
}

/// The subprotocol that a response selects, or what the response is rejected for if its answer must be
/// `expected`.
pub open spec fn answer_check(
    response: ResponseView,
    expected: Seq<char>,
    registered: Seq<Seq<char>>,
) -> Result<Option<Seq<char>>, ErrorView> {
    let upgrade = value_fault(response.fields, UPGRADE@, WEBSOCKET_STR@);
    let connection = value_fault(response.fields, CONNECTION@, UPGRADE_STR@);
    let answer = answer_fault(response, expected);
    if response.version.too_low() {
        Err(http_fault(HttpErrorView::HttpVersion(Version::Http10.text())))
    } else if response.status != 101 {
        Err(status_fault(response))
    } else if upgrade is Some {
        Err(http_fault(upgrade->0))
    } else if connection is Some {
        Err(http_fault(connection->0))
    } else if answer is Some {
        Err(http_fault(answer->0))
    } else {
        match accepted(values_of(response.fields, SEC_WEBSOCKET_PROTOCOL@), registered) {
            Ok(subprotocol) => Ok(subprotocol),
            Err(e) => Err(protocol_fault(e)),
        }
    }
}

/// The subprotocol that a response to a key selects, or what the response is rejected for.
pub open spec fn response_check(
    response: ResponseView,
    key: Seq<u8>,
    registered: Seq<Seq<char>>,
) -> Result<Option<Seq<char>>, ErrorView> {
    answer_check(response, answer_to(key), registered)
}

/// Whether a check came to what it should: a subprotocol, or a rejection.
pub open spec fn answered_as(
    result: Result<Option<String>, Error>,
    expected: Result<Option<Seq<char>>, ErrorView>,
) -> bool {
    match result {
        Ok(Some(protocol)) => expected == Ok::<Option<Seq<char>>, ErrorView>(Some(protocol@)),
        Ok(None) => expected == Ok::<Option<Seq<char>>, ErrorView>(None),
        Err(e) => expected == Err::<Option<Seq<char>>, ErrorView>(e@),
    }
}

/// Checks everything of a response but the extension.
pub fn check_response(
    response: &Response,
    expected_nonce: &Nonce,
    subprotocols: &SubprotocolRegistry,
) -> (result: Result<Option<String>, Error>)
    ensures
        answered_as(
            result,
            response_check(response@, expected_nonce@, subprotocols.registered()),
        ),
{
    check_answer(response, accept_key(expected_nonce).as_str(), subprotocols)
}

/// Checks everything of a response but the extension, if the answer to the key must be `expected`.
pub fn check_answer(response: &Response, expected: &str, subprotocols: &SubprotocolRegistry) -> (
    result: Result<Option<String>, Error>)
    ensures
        answered_as(result, answer_check(response@, expected@, subprotocols.registered())),
{
    proof {
        lemma_plain_names();
    }
    if response.version.is_too_low() {
        return Err(Error::http(HttpError::HttpVersion(Version::Http10.as_str().to_string())));
    }
    if response.status != 101 {
        if 300 <= response.status && response.status <= 399 {
            if let Some(location) = get(&response.headers, LOCATION) {
                return match utf8_text(location.as_bytes()) {
                    Ok(location) => Err(Error::http(HttpError::Redirected(location))),
                    Err(_) => Err(Error::new(ErrorKind::Http)),
                };
            }
        }
        return Err(Error::http(HttpError::Status(Some(response.status))));
    }
    if let Err(e) = validate_header_value(&response.headers, UPGRADE, WEBSOCKET_STR) {
        return Err(e);
    }
    if let Err(e) = validate_header_value(&response.headers, CONNECTION, UPGRADE_STR) {
        return Err(e);
    }
    match get(&response.headers, SEC_WEBSOCKET_ACCEPT) {
        Some(actual) => {
            if !eq_bytes(actual.as_bytes(), expected.as_bytes()) {
                return Err(Error::http(HttpError::KeyMismatch));
            }
        },
        None => {
            return Err(
                Error::http(HttpError::MissingHeader(SEC_WEBSOCKET_ACCEPT.to_string())),
            );
        },
    }
    match subprotocols.validate_accepted_subprotocol(&response.headers) {
        Ok(subprotocol) => Ok(subprotocol),
        Err(e) => Err(Error::protocol(e)),
    }
}

/// Whether a handshake came to what it should, given what a check of the response came to, with what
/// the extension has negotiated.
pub open spec fn handshaken<E: ExtensionProvider>(
    result: Result<HandshakeResult<E::Extension>, Failure<E::Error>>,
    extension: E,
    response: ResponseView,
    expected: Result<Option<Seq<char>>, ErrorView>,
) -> bool {
    match expected {
        Ok(subprotocol) => match result {
            Ok(handshake) => {
                &&& text_of(handshake.subprotocol) == subprotocol
                &&& extension.negotiates_client(response.fields, Ok(handshake.extension))
            },
            Err(Failure::Extension(e)) => extension.negotiates_client(response.fields, Err(e)),
            Err(Failure::Core(_)) => false,
        },
        Err(e) => result matches Err(failure) && failure.says(e),
    }
}

/// Completes a handshake with the subprotocol that the server has selected and what the extension has
/// negotiated.
pub fn finish_handshake<X, Y>(
    subprotocol: Option<String>,
    negotiated: Result<Option<X>, Y>,
) -> (result: Result<HandshakeResult<X>, Failure<Y>>)
    ensures
        match negotiated {
            Ok(extension) => result == Ok::<HandshakeResult<X>, Failure<Y>>(
                HandshakeResult { subprotocol, extension },
            ),
            Err(e) => result == Err::<HandshakeResult<X>, Failure<Y>>(Failure::Extension(e)),
        },
{
    match negotiated {
        Ok(extension) => Ok(HandshakeResult { subprotocol, extension }),
        Err(e) => Err(Failure::Extension(e)),
    }
}

/// Reads the server's response to a request with the key `expected_nonce`.
pub fn parse_response<E: ExtensionProvider>(
    response: Response,
    expected_nonce: &Nonce,
    extension: &E,
    subprotocols: &SubprotocolRegistry,
) -> (result: Result<HandshakeResult<E::Extension>, Failure<E::Error>>)
    ensures
        handshaken(
            result,
            *extension,
            response@,
            response_check(response@, expected_nonce@, subprotocols.registered()),
        ),
{
    match check_response(&response, expected_nonce, subprotocols) {
        Ok(subprotocol) => finish_handshake(
            subprotocol,
            extension.negotiate_client(&response.headers),
        ),
        Err(e) => Err(Failure::Core(e)),
    }
}

/// What parsing a response may come to.
pub open spec fn response_parsed<E: ExtensionProvider>(
    bytes: Seq<u8>,
    key: Seq<u8>,
    extension: E,
    registered: Seq<Seq<char>>,
    result: Result<ParseResult<ResponseHead, HandshakeResult<E::Extension>>, Failure<E::Error>>,
) -> bool {
    match response_head_of(bytes) {
        Err(fault) => result matches Err(e) && e.says(worded(ErrorKind::Http, fault)),
        Ok((head, None)) => result matches Ok(ParseResult::Partial(read)) && read@ == head,
        Ok((head, Some(length))) => match response_from(head) {
            Err(e) => result matches Err(failure) && failure.says(http_fault(e)),
            Ok(response) => match result {
                Ok(ParseResult::Complete(handshake, count)) => count == length && handshaken(
                    Ok(handshake),
                    extension,
                    response,
                    response_check(response, key, registered),
                ),
                Ok(ParseResult::Partial(_)) => false,
                Err(e) => handshaken(
                    Err(e),
                    extension,
                    response,
                    response_check(response, key, registered),
                ),
            },
        },
    }
}

/// Reads the server's response, if it is complete.
pub fn try_parse_response<E: ExtensionProvider>(
    buffer: &[u8],
    expected_nonce: &Nonce,
    extension: &E,
    subprotocols: &SubprotocolRegistry,
) -> (result: Result<
    ParseResult<ResponseHead, HandshakeResult<E::Extension>>,
    Failure<E::Error>,
>)
    ensures
        response_parsed(
            buffer@,
            expected_nonce@,
            *extension,
            subprotocols.registered(),
            result,
        ),
        result matches Ok(ParseResult::Complete(_, length)) ==> length <= buffer@.len(),
{
    match read_response_head(buffer) {
        Ok((head, None)) => Ok(ParseResult::Partial(head)),
        Ok((head, Some(length))) => {
            proof {
                lemma_gathered_len(head@.headers);
            }
            let response = match head.into_response() {
                Ok(response) => response,
                Err(e) => return Err(Failure::Core(Error::http(e))),
            };
            match parse_response(response, expected_nonce, extension, subprotocols) {
                Ok(handshake) => Ok(ParseResult::Complete(handshake, length)),
                Err(e) => Err(e),
            }
        },
        Err(fault) => Err(
            Failure::Core(Error::with_cause(ErrorKind::Http, Cause::Message(fault))),
        ),
    }
}

/// What reading a response may come to.
pub open spec fn response_decoded<E: ExtensionProvider>(
    bytes: Seq<u8>,
    key: Seq<u8>,
    extension: E,
    registered: Seq<Seq<char>>,
    result: Result<Option<(HandshakeResult<E::Extension>, usize)>, Failure<E::Error>>,
) -> bool {
    match response_head_of(bytes) {
        Err(fault) => result matches Err(e) && e.says(worded(ErrorKind::Http, fault)),
        Ok((head, None)) => match partial_fault(head) {
            Some(e) => result matches Err(failure) && failure.says(e),
            None => result matches Ok(None),
        },
        Ok((head, Some(length))) => match response_from(head) {
            Err(e) => result matches Err(failure) && failure.says(http_fault(e)),
            Ok(response) => match result {
                Ok(Some((handshake, count))) => count == length && handshaken(
                    Ok(handshake),
                    extension,
                    response,
                    response_check(response, key, registered),
                ),
                Ok(None) => false,
                Err(e) => handshaken(
                    Err(e),
                    extension,
                    response,
                    response_check(response, key, registered),
                ),
            },
        },
    }
}

/// Reads the server's response to a request.
pub struct StreamingResponseParser<E> {
    /// The key that was sent.
    pub nonce: Nonce,
    /// Negotiates the extension.
    pub extension: E,
    /// The subprotocols that were offered.
    pub subprotocols: SubprotocolRegistry,
}

impl<E: ExtensionProvider> Parser for StreamingResponseParser<E> {
    type Output = HandshakeResult<E::Extension>;

    type Error = Failure<E::Error>;

    open spec fn decodes(
        self,
        bytes: Seq<u8>,
        result: Result<Option<(HandshakeResult<E::Extension>, usize)>, Failure<E::Error>>,
    ) -> bool {
        response_decoded(
            bytes,
            self.nonce@,
            self.extension,
            self.subprotocols.registered(),
            result,
        )
    }

    fn decode(&self, bytes: &[u8]) -> (result: Result<
        Option<(HandshakeResult<E::Extension>, usize)>,
        Failure<E::Error>,
    >) {
        match try_parse_response(bytes, &self.nonce, &self.extension, &self.subprotocols) {
            Ok(ParseResult::Complete(handshake, length)) => Ok(Some((handshake, length))),
            Ok(ParseResult::Partial(head)) => match check_partial_response(&head) {
                Ok(_) => Ok(None),
                Err(e) => Err(Failure::Core(e)),
            },
            Err(e) => Err(e),
        }
    }
}

/// A structure representing an upgraded WebSocket session and an optional subprotocol that was
/// negotiated during the upgrade.
pub struct UpgradedClient<E> {
    /// The WebSocket connection.
    pub websocket: WebSocket<E>,
    /// An optional subprotocol that was negotiated during the upgrade.
    pub subprotocol: Option<String>,
}

impl<E> UpgradedClient<E> {
    /// Consume self and take the websocket
    pub fn into_websocket(self) -> (websocket: WebSocket<E>)
        ensures
            websocket == self.websocket,
    {
        self.websocket
    }
}

/// The client's side of a handshake: a request is encoded and sent, and the response is read from
/// the bytes that are received.
pub struct ClientHandshake<E> {
    buffer: BytesMut,
    nonce: Nonce,
    subprotocols: SubprotocolRegistry,
    extension: E,
}

impl<E: ExtensionProvider> ClientHandshake<E> {
    /// The bytes of the request, and then those that have been received.
    pub closed spec fn buffered(self) -> Seq<u8> {
        contents(self.buffer)
    }

    /// The key that was sent.
    pub closed spec fn key(self) -> Seq<u8> {
        self.nonce@
    }

    /// The subprotocols that are offered.
    pub closed spec fn offered(self) -> SubprotocolRegistry {
        self.subprotocols
    }

    /// What negotiates the extension.
    pub closed spec fn provider(self) -> E {
        self.extension
    }

    /// A handshake that has not been started.
    pub fn new(subprotocols: SubprotocolRegistry, extension: E) -> (handshake: ClientHandshake<E>)
        ensures
            handshake.buffered() == Seq::<u8>::empty(),
            handshake.offered() == subprotocols,
            handshake.provider() == extension,
    {
        let nonce: Nonce = [0; 24];
        ClientHandshake { buffer: BytesMut::new(), nonce, subprotocols, extension }
    }

    /// Encodes the request. Its bytes are then to be sent.
    pub fn encode(&mut self, request: Request) -> (result: Result<(), Error>)
        ensures
            final(self).offered() == old(self).offered(),
            final(self).provider() == old(self).provider(),
            match result {
                Ok(_) => opened(
                    old(self).buffered(),
                    final(self).buffered(),
                    request@,
                    old(self).provider(),
                    old(self).offered().listing(),
                    final(self).key(),
                ),
                Err(e) => final(self).buffered() == old(self).buffered() && rejected(
                    request@,
                    old(self).provider(),
                    old(self).offered().listing(),
                    e,
                ),
            },
    {
        match build_request(request, &self.extension, &self.subprotocols) {
            Ok(validated) => {
                let ghost valid = validated@;
                let ghost extended = choose|extended: Seq<Field>|
                    self.extension.applies(request@.fields, extended) && #[trigger] completed_as(
                        Ok(validated),
                        request@.uri,
                        request@.version,
                        extended,
                        self.subprotocols.listing(),
                    );
                encode_request(&mut self.buffer, validated, &mut self.nonce);
                assert(completed(
                    request@.uri,
                    request@.version,
                    extended,
                    old(self).offered().listing(),
                ) == Ok::<ValidatedRequestView, ErrorView>(valid));
                assert(self.buffered() == old(self).buffered() + request_bytes(valid, self.key()));
                Ok(())
            },
            Err(e) => Err(e),
        }
    }

    /// The bytes that are to be sent.
    pub fn unsent(&self) -> (bytes: &[u8])
        ensures
            bytes@ == self.buffered(),
    {
        as_slice(&self.buffer)
    }

    /// Forgets the request once it has been sent.
    pub fn clear_buffer(&mut self)
        ensures
            final(self).buffered() == Seq::<u8>::empty(),
            final(self).key() == old(self).key(),
            final(self).offered() == old(self).offered(),
            final(self).provider() == old(self).provider(),
    {
        self.buffer.clear();
    }

    /// Waits for the response, which is read from what is left in the buffer and what is supplied.
    pub fn read(self) -> (parser: StreamingParser<StreamingResponseParser<E>>)
        ensures
            parser.buffered() == self.buffered(),
            parser.inner().nonce@ == self.key(),
            parser.inner().subprotocols == self.offered(),
            parser.inner().extension == self.provider(),
    {
        StreamingParser::new(
            self.buffer,
            StreamingResponseParser {
                nonce: self.nonce,
                extension: self.extension,
                subprotocols: self.subprotocols,
            },
        )
    }
}

/// Execute a WebSocket client handshake, opting for no extension and no subprotocol. The bytes of the
/// request are to be sent.
pub fn subscribe<R: TryIntoRequest>(request: R) -> (result: Result<
    ClientHandshake<NoExtProvider>,
    Error,
>)
    ensures
        subscribed(result, request, NoExtProvider, None),
        result matches Ok(handshake) ==> handshake.offered().registered() == Seq::<Seq<char>>::empty(),
{
    subscribe_with(request, NoExtProvider, SubprotocolRegistry::default())
}

/// Execute a WebSocket client handshake, attempting to negotiate the extension and a subprotocol. The
/// bytes of the request are to be sent.
pub fn subscribe_with<R: TryIntoRequest, E: ExtensionProvider>(
    request: R,
    extension: E,
    subprotocols: SubprotocolRegistry,
) -> (result: Result<ClientHandshake<E>, Error>)
    ensures
        subscribed(result, request, extension, subprotocols.listing()),
        result matches Ok(handshake) ==> handshake.offered() == subprotocols
            && handshake.provider() == extension,
{
    let ghost input = request;
    let request = match request.try_into_request() {
        Ok(request) => request,
        Err(e) => return Err(e),
    };
    let ghost asked = request@;
    let mut handshake = ClientHandshake::new(subprotocols, extension);
    match handshake.encode(request) {
        Ok(_) => {
            proof {
                lemma_subscribed(input, asked, handshake, extension, subprotocols.listing());
            }
            Ok(handshake)
        },
        Err(e) => {
            proof {
                lemma_not_subscribed(input, asked, e, extension, subprotocols.listing());
            }
            Err(e)
        },
    }
}

/// A handshake that was started for a request that the input was converted to.
proof fn lemma_subscribed<R: TryIntoRequest, E: ExtensionProvider>(
    input: R,
    request: RequestView,
    handshake: ClientHandshake<E>,
    extension: E,
    listing: Option<Seq<u8>>,
)
    requires
        input.requests(Ok(request)),
        opened(Seq::empty(), handshake.buffered(), request, extension, listing, handshake.key()),
    ensures
        subscribed(Ok::<ClientHandshake<E>, Error>(handshake), input, extension, listing),
{
}

/// A handshake that was not started because of the request that the input was converted to.
proof fn lemma_not_subscribed<R: TryIntoRequest, E: ExtensionProvider>(
    input: R,
    request: RequestView,
    e: Error,
    extension: E,
    listing: Option<Seq<u8>>,
)
    requires
        input.requests(Ok(request)),
        rejected(request, extension, listing, e),
    ensures
        subscribed(Err::<ClientHandshake<E>, Error>(e), input, extension, listing),
{
}

/// Whether `after` is `before` and the bytes of a request that opens a connection, with a key.
pub open spec fn opened<E: ExtensionProvider>(
    before: Seq<u8>,
    after: Seq<u8>,
    request: RequestView,
    extension: E,
    listing: Option<Seq<u8>>,
    key: Seq<u8>,
) -> bool {
    request_fault(request) is None && drawn(key) && exists|extended: Seq<Field>, valid: ValidatedRequestView|
        extension.applies(request.fields, extended) && #[trigger] completed(request.uri, request.version, extended, listing) == Ok::<
            ValidatedRequestView,
            ErrorView,
        >(valid) && after == before + #[trigger] request_bytes(valid, key)
}

/// What starting a handshake may come to.
pub open spec fn subscribed<R: TryIntoRequest, E: ExtensionProvider>(
    result: Result<ClientHandshake<E>, Error>,
    input: R,
    extension: E,
    listing: Option<Seq<u8>>,
) -> bool {
    match result {
        Ok(handshake) => exists|request: RequestView|
            #[trigger] input.requests(Ok(request)) && opened(
                Seq::empty(),
                handshake.buffered(),
                request,
                extension,
                listing,
                handshake.key(),
            ),
        Err(e) => {
            ||| input.requests(Err(e@))
            ||| exists|request: RequestView|
                #[trigger] input.requests(Ok(request)) && rejected(request, extension, listing, e)
        },
    }
}

/// Whether an error may be what a request by the user is rejected for.
pub open spec fn rejected<E: ExtensionProvider>(
    request: RequestView,
    extension: E,
    listing: Option<Seq<u8>>,
    e: Error,
) -> bool {
    built_as(Err(e), request, extension, listing)
}

/// The WebSocket of a client whose handshake is complete. The bytes in `read_buffer` were received
/// behind the response.
pub fn upgraded<X: Extension>(
    config: WebSocketConfig,
    handshake: HandshakeResult<X>,
    read_buffer: BytesMut,
) -> (client: UpgradedClient<X>)
    ensures
        client.subprotocol == handshake.subprotocol,
        client.websocket.fresh(
            config,
            handshake.extension,
            contents(read_buffer),
            Role::Client,
        ),
{
    let HandshakeResult { subprotocol, extension } = handshake;
    UpgradedClient {
        websocket: WebSocket::from_upgraded(config, extension, read_buffer, Role::Client),
        subprotocol,
    }
}

} // verus!
