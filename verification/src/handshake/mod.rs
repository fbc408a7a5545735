//! The opening handshake.

pub mod client;
pub mod head;
pub mod laws;
pub mod parser;
pub mod server;
pub mod subprotocols;

use crate::ascii::{any_item, eq_ignore_case, lists, same_but_case};
use crate::errors::{http_fault, Error, ErrorView, HttpError, HttpErrorView};
use crate::http_types::{
    fields, get, parse_uri, plain_name, uri_of, value_of, visible, Field, Request, RequestView, Uri,
    UriView, Version,
};
use http::HeaderMap;
use url::Url;
use vstd::prelude::*;
use vstd::utf8::{encode_utf8, is_ascii_chars, is_ascii_chars_encode_utf8};

verus! {

/// The protocol to switch to.
pub const WEBSOCKET_STR: &'static str = "websocket";

/// The option of a connection that switches protocols.
pub const UPGRADE_STR: &'static str = "upgrade";

/// The option of a connection that switches protocols, as responses have it that are built for another
/// HTTP server.
pub const UPGRADE_OPTION: &'static str = "Upgrade";

/// The version of the WebSocket protocol.
pub const WEBSOCKET_VERSION_STR: &'static str = "13";

/// The message of a status code that is none.
pub const BAD_STATUS_CODE: &'static str = "Invalid status code";

/// The method of a request that opens a connection.
pub const METHOD_GET: &'static str = "get";

/// The key that a client sends.
pub type Nonce = [u8; 24];

/// The values that the handshake uses are visible in ASCII.
pub proof fn lemma_plain_values()
    ensures
        visible(encode_utf8(WEBSOCKET_STR@)),
        visible(encode_utf8(UPGRADE_STR@)),
        visible(encode_utf8(UPGRADE_OPTION@)),
        visible(encode_utf8(WEBSOCKET_VERSION_STR@)),
{
    reveal_strlit("websocket");
    reveal_strlit("upgrade");
    reveal_strlit("Upgrade");
    reveal_strlit("13");
    assert(is_ascii_chars(WEBSOCKET_STR@));
    assert(is_ascii_chars(UPGRADE_STR@));
    assert(is_ascii_chars(UPGRADE_OPTION@));
    assert(is_ascii_chars(WEBSOCKET_VERSION_STR@));
    is_ascii_chars_encode_utf8(WEBSOCKET_STR@);
    is_ascii_chars_encode_utf8(UPGRADE_STR@);
    is_ascii_chars_encode_utf8(UPGRADE_OPTION@);
    is_ascii_chars_encode_utf8(WEBSOCKET_VERSION_STR@);
}

/// What a field is rejected for if its first value must be `expected`, but for the case of letters.
pub open spec fn value_fault(
    fields: Seq<Field>,
    name: Seq<char>,
    expected: Seq<char>,
) -> Option<HttpErrorView> {
    match value_of(fields, name) {
        Some(actual) => if same_but_case(actual, encode_utf8(expected)) {
            None
        } else {
            Some(HttpErrorView::InvalidHeader(name))
        },
        None => Some(HttpErrorView::MissingHeader(name)),
    }
}

/// What a field is rejected for if an item of its first value must be `expected`, but for the case
/// of letters.
pub open spec fn item_fault(
    fields: Seq<Field>,
    name: Seq<char>,
    expected: Seq<char>,
) -> Option<HttpErrorView> {
    match value_of(fields, name) {
        Some(actual) => if lists(actual, encode_utf8(expected)) {
            None
        } else {
            Some(HttpErrorView::InvalidHeader(name))
        },
        None => Some(HttpErrorView::MissingHeader(name)),
    }
}

/// Whether a check came to what it should: a rejection, or none.
pub open spec fn checked_as(result: Result<(), Error>, fault: Option<HttpErrorView>) -> bool {
    match fault {
        Some(e) => result matches Err(error) && error@ == http_fault(e),
        None => result is Ok,
    }
}

/// Checks that the first value of a field is `expected`, but for the case of letters.
pub fn validate_header_value(headers: &HeaderMap, name: &'static str, expected: &str) -> (result:
    Result<(), Error>)
    requires
        plain_name(name@),
    ensures
        checked_as(result, value_fault(fields(*headers), name@, expected@)),
{
    match get(headers, name) {
        Some(actual) => {
            if eq_ignore_case(actual.as_bytes(), expected.as_bytes()) {
                Ok(())
            } else {
                Err(Error::http(HttpError::InvalidHeader(name.to_string())))
            }
        },
        None => Err(Error::http(HttpError::MissingHeader(name.to_string()))),
    }
}

/// Checks that an item of the first value of a field is `expected`, but for the case of letters.
pub fn validate_header_any(headers: &HeaderMap, name: &'static str, expected: &str) -> (result:
    Result<(), Error>)
    requires
        plain_name(name@),
    ensures
        checked_as(result, item_fault(fields(*headers), name@, expected@)),
{
    match get(headers, name) {
        Some(actual) => {
            if any_item(actual.as_bytes(), expected.as_bytes()) {
                Ok(())
            } else {
                Err(Error::http(HttpError::InvalidHeader(name.to_string())))
            }
        },
        None => Err(Error::http(HttpError::MissingHeader(name.to_string()))),
    }
}

/// `url::Url`, whose text `url_text` names.
#[verifier::external_type_specification]
#[verifier::external_body]
pub struct ExUrl(Url);

/// The text of a `Url`.
pub uninterp spec fn url_text(url: Url) -> Seq<char>;

/// `Url::as_str` gives the text that the URL is written as.
pub assume_specification[ Url::as_str ](url: &Url) -> (text: &str)
    ensures
        text@ == url_text(*url),
;

/// A trait for creating a request from a type.
pub trait TryIntoRequest: Sized {
    /// Whether the conversion of this may come to `result`.
    open spec fn requests(self, result: Result<RequestView, ErrorView>) -> bool {
        true
    }

    /// Attempt to convert this type into a `Request`.
    fn try_into_request(self) -> (result: Result<Request, Error>)
        ensures
            match result {
                Ok(request) => self.requests(Ok(request@)),
                Err(e) => self.requests(Err(e@)),
            },
    ;
}

/// A request for a target, without header fields.
pub open spec fn request_for(uri: UriView) -> RequestView {
    RequestView { method: "GET"@, uri, version: Version::Http11, fields: Seq::empty() }
}

/// The request that the text of a target comes to, or what the text is rejected for.
pub open spec fn request_to(text: Seq<char>) -> Result<RequestView, ErrorView> {
    match uri_of(text) {
        Ok(uri) => Ok(request_for(uri)),
        Err(fault) => Err(http_fault(HttpErrorView::MalformattedUri(Some(fault)))),
    }
}

impl<'a> TryIntoRequest for &'a str {
    open spec fn requests(self, result: Result<RequestView, ErrorView>) -> bool {
        result == request_to(self@)
    }

    fn try_into_request(self) -> Result<Request, Error> {
        match parse_uri(self) {
            Ok(uri) => Ok(Request::get(uri)),
            Err(fault) => Err(Error::http(HttpError::MalformattedUri(Some(fault)))),
        }
    }
}

impl<'a> TryIntoRequest for &'a String {
    open spec fn requests(self, result: Result<RequestView, ErrorView>) -> bool {
        result == request_to(self@)
    }

    fn try_into_request(self) -> Result<Request, Error> {
        self.as_str().try_into_request()
    }
}

impl TryIntoRequest for String {
    open spec fn requests(self, result: Result<RequestView, ErrorView>) -> bool {
        result == request_to(self@)
    }

    fn try_into_request(self) -> Result<Request, Error> {
        self.as_str().try_into_request()
    }
}

impl<'a> TryIntoRequest for &'a Uri {
    open spec fn requests(self, result: Result<RequestView, ErrorView>) -> bool {
        result == Ok::<RequestView, ErrorView>(request_for(self@))
    }

    fn try_into_request(self) -> Result<Request, Error> {
        self.clone().try_into_request()
    }
}

impl TryIntoRequest for Uri {
    open spec fn requests(self, result: Result<RequestView, ErrorView>) -> bool {
        result == Ok::<RequestView, ErrorView>(request_for(self@))
    }

    fn try_into_request(self) -> Result<Request, Error> {
        Ok(Request::get(self))
    }
}

impl<'a> TryIntoRequest for &'a Url {
    open spec fn requests(self, result: Result<RequestView, ErrorView>) -> bool {
        result == request_to(url_text(*self))
    }

    fn try_into_request(self) -> Result<Request, Error> {
        self.as_str().try_into_request()
    }
}

impl TryIntoRequest for Url {
    open spec fn requests(self, result: Result<RequestView, ErrorView>) -> bool {
        result == request_to(url_text(self))
    }

    fn try_into_request(self) -> Result<Request, Error> {
        self.as_str().try_into_request()
    }
}

impl TryIntoRequest for Request {
    open spec fn requests(self, result: Result<RequestView, ErrorView>) -> bool {
        result == Ok::<RequestView, ErrorView>(self@)
    }

    fn try_into_request(self) -> Result<Request, Error> {
        Ok(self)
    }
}

} // verus!
