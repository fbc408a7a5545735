//! The parts of an HTTP message, and the header maps of the `http` crate.

use crate::errors::text_of;
use http::{HeaderMap, HeaderName, HeaderValue, Method, StatusCode};
use std::str::FromStr;
use vstd::prelude::*;
use vstd::utf8::encode_utf8;

verus! {

/// `http::HeaderMap`, whose contents `fields` names.
#[verifier::external_type_specification]
#[verifier::external_body]
#[verifier::reject_recursive_types(T)]
pub struct ExHeaderMap<T>(HeaderMap<T>);

/// `http::HeaderName`, whose text `name_text` names.
#[verifier::external_type_specification]
#[verifier::external_body]
pub struct ExHeaderName(HeaderName);

/// `http::HeaderValue`, whose bytes `value_bytes` names.
#[verifier::external_type_specification]
#[verifier::external_body]
pub struct ExHeaderValue(HeaderValue);

/// A header name and the values that it has, in order.
pub type Field = (Seq<char>, Seq<Seq<u8>>);

/// The fields that a `HeaderMap` holds, each name once, in the order in which the map yields them.
pub uninterp spec fn fields(map: HeaderMap) -> Seq<Field>;

/// The text of a `HeaderName`.
pub uninterp spec fn name_text(name: HeaderName) -> Seq<char>;

/// The bytes of a `HeaderValue`.
pub uninterp spec fn value_bytes(value: HeaderValue) -> Seq<u8>;

/// The values that a name has.
pub open spec fn values_of(fields: Seq<Field>, name: Seq<char>) -> Seq<Seq<u8>>
    decreases fields.len(),
{
    if fields.len() == 0 {
        Seq::empty()
    } else if fields[0].0 == name {
        fields[0].1
    } else {
        values_of(fields.skip(1), name)
    }
}

/// The first value that a name has, if it has any.
pub open spec fn value_of(fields: Seq<Field>, name: Seq<char>) -> Option<Seq<u8>> {
    if values_of(fields, name).len() > 0 {
        Some(values_of(fields, name)[0])
    } else {
        None
    }
}

/// The fields after a name has been given values in place of those that it had. A new name comes
/// last.
pub open spec fn with_field(fields: Seq<Field>, name: Seq<char>, values: Seq<Seq<u8>>) -> Seq<Field>
    decreases fields.len(),
{
    if fields.len() == 0 {
        seq![(name, values)]
    } else if fields[0].0 == name {
        seq![(name, values)] + fields.skip(1)
    } else {
        seq![fields[0]] + with_field(fields.skip(1), name, values)
    }
}

/// The fields after a value has been added behind those that a name has.
pub open spec fn with_value(fields: Seq<Field>, name: Seq<char>, value: Seq<u8>) -> Seq<Field> {
    with_field(fields, name, values_of(fields, name).push(value))
}

/// A name has the values that it was given, and the other names have what they had.
pub proof fn lemma_with_field(
    fields: Seq<Field>,
    name: Seq<char>,
    values: Seq<Seq<u8>>,
    other: Seq<char>,
)
    ensures
        values_of(with_field(fields, name, values), other) == if other == name {
            values
        } else {
            values_of(fields, other)
        },
        fields.len() <= with_field(fields, name, values).len() <= fields.len() + 1,
    decreases fields.len(),
{
    let after = with_field(fields, name, values);
    if fields.len() == 0 {
        assert(after.skip(1) =~= fields);
    } else if fields[0].0 == name {
        assert(after.skip(1) =~= fields.skip(1));
    } else {
        lemma_with_field(fields.skip(1), name, values, other);
        assert(after.skip(1) =~= with_field(fields.skip(1), name, values));
    }
}

/// The characters of names and methods.
pub open spec fn token_char(c: char) -> bool {
    ||| 'a' <= c <= 'z'
    ||| 'A' <= c <= 'Z'
    ||| '0' <= c <= '9'
    ||| c == '!' || c == '#' || c == '$' || c == '%' || c == '&' || c == '\'' || c == '*'
    ||| c == '+' || c == '-' || c == '.' || c == '^' || c == '_' || c == '`' || c == '|'
        || c == '~'
}

/// Whether text is a token: some characters, all of them the characters of names.
pub open spec fn token(text: Seq<char>) -> bool {
    text.len() > 0 && forall|i: int| 0 <= i < text.len() ==> token_char(#[trigger] text[i])
}

/// An ASCII letter in lower case. Other characters are left.
pub open spec fn lower(c: char) -> char {
    if 'A' <= c <= 'Z' {
        (c as u32 + 32) as char
    } else {
        c
    }
}

/// Text with its ASCII letters in lower case.
pub open spec fn lowered(text: Seq<char>) -> Seq<char> {
    Seq::new(text.len(), |i: int| lower(text[i]))
}

/// Whether text can be the name of a field.
pub open spec fn field_name(text: Seq<char>) -> bool {
    token(text) && text.len() <= 65535
}

/// Whether text is the name of a field in the form in which maps hold it.
pub open spec fn plain_name(text: Seq<char>) -> bool {
    field_name(text) && forall|i: int| 0 <= i < text.len() ==> !('A' <= #[trigger] text[i] <= 'Z')
}

/// The bytes that the value of a field may hold.
pub open spec fn value_byte(b: u8) -> bool {
    b >= 32 && b != 127 || b == 9
}

/// The bytes that are visible in ASCII, and tabs.
pub open spec fn visible_byte(b: u8) -> bool {
    32 <= b < 127 || b == 9
}

/// Whether bytes can be the value of a field.
pub open spec fn field_value(bytes: Seq<u8>) -> bool {
    forall|i: int| 0 <= i < bytes.len() ==> value_byte(#[trigger] bytes[i])
}

/// Whether every byte is visible in ASCII or a tab.
pub open spec fn visible(bytes: Seq<u8>) -> bool {
    forall|i: int| 0 <= i < bytes.len() ==> visible_byte(#[trigger] bytes[i])
}

/// The text that ASCII bytes stand for.
pub open spec fn ascii_text(bytes: Seq<u8>) -> Seq<char> {
    Seq::new(bytes.len(), |i: int| bytes[i] as char)
}

/// The number of names up to which a `HeaderMap` always takes another one.
pub const MAP_ROOM: usize = 6553;

/// `HeaderMap::new` gives a map without fields.
#[verifier::external_body]
pub(crate) fn empty_map() -> (map: HeaderMap)
    ensures
        fields(map) == Seq::<Field>::empty(),
{
    HeaderMap::new()
}

/// `HeaderMap::clone` gives a map with the same fields in the same order.
#[verifier::external_body]
pub(crate) fn copy_map(map: &HeaderMap) -> (copy: HeaderMap)
    ensures
        fields(copy) == fields(*map),
{
    map.clone()
}

/// `HeaderMap::is_empty` tells whether there are no fields.
#[verifier::external_body]
pub(crate) fn has_no_fields(map: &HeaderMap) -> (empty: bool)
    ensures
        empty == (fields(*map).len() == 0),
{
    map.is_empty()
}

/// `HeaderMap::get` gives the first value of a name.
#[verifier::external_body]
pub(crate) fn get<'a>(map: &'a HeaderMap, name: &'static str) -> (value: Option<&'a HeaderValue>)
    requires
        plain_name(name@),
    ensures
        match value {
            Some(value) => value_of(fields(*map), name@) == Some(value_bytes(*value)),
            None => value_of(fields(*map), name@) is None,
        },
{
    map.get(name)
}

/// `HeaderMap::get_all` gives the values of a name in order.
#[verifier::external_body]
pub(crate) fn get_all<'a>(map: &'a HeaderMap, name: &'static str) -> (values: Vec<&'a HeaderValue>)
    requires
        plain_name(name@),
    ensures
        values@.len() == values_of(fields(*map), name@).len(),
        forall|i: int|
            0 <= i < values@.len() ==> value_bytes(*#[trigger] values@[i]) == values_of(
                fields(*map),
                name@,
            )[i],
{
    map.get_all(name).iter().collect()
}

/// The pairs that a map with these fields yields: each name once for each of its values.
pub open spec fn pairs_of(fields: Seq<Field>) -> Seq<(Seq<char>, Seq<u8>)>
    decreases fields.len(),
{
    if fields.len() == 0 {
        Seq::empty()
    } else {
        pairs_of(fields.drop_last()) + fields.last().1.map_values(
            |value: Seq<u8>| (fields.last().0, value),
        )
    }
}

/// `HeaderMap::iter` yields each name with each of its values.
#[verifier::external_body]
pub(crate) fn pairs(map: &HeaderMap) -> (pairs: Vec<(&HeaderName, &HeaderValue)>)
    ensures
        pairs@.len() == pairs_of(fields(*map)).len(),
        forall|i: int|
            0 <= i < pairs@.len() ==> (
                name_text(*(#[trigger] pairs@[i]).0),
                value_bytes(*pairs@[i].1),
            ) == pairs_of(fields(*map))[i],
{
    map.iter().collect()
}

/// `HeaderMap::try_insert` gives a name one value in place of those that it had. It fails where the
/// map cannot grow, which does not happen up to 6553 names, and leaves the fields as they are then.
#[verifier::external_body]
pub(crate) fn insert(map: &mut HeaderMap, name: HeaderName, value: HeaderValue) -> (done: bool)
    ensures
        done ==> fields(*final(map)) == with_field(
            fields(*old(map)),
            name_text(name),
            seq![value_bytes(value)],
        ),
        !done ==> fields(*final(map)) == fields(*old(map)) && fields(*old(map)).len() > MAP_ROOM,
{
    map.try_insert(name, value).is_ok()
}

/// `HeaderMap::try_append` adds a value behind those that a name has. It fails where the map cannot
/// grow, which does not happen up to 6553 names, and leaves the fields as they are then.
#[verifier::external_body]
pub(crate) fn append(map: &mut HeaderMap, name: HeaderName, value: HeaderValue) -> (done: bool)
    ensures
        done ==> fields(*final(map)) == with_value(
            fields(*old(map)),
            name_text(name),
            value_bytes(value),
        ),
        !done ==> fields(*final(map)) == fields(*old(map)) && fields(*old(map)).len() > MAP_ROOM,
{
    map.try_append(name, value).is_ok()
}

/// `HeaderName::from_str` takes a token of up to 65535 characters, in lower case.
#[verifier::external_body]
pub(crate) fn parse_name(text: &str) -> (name: Option<HeaderName>)
    ensures
        match name {
            Some(name) => field_name(text@) && name_text(name) == lowered(text@),
            None => !field_name(text@),
        },
{
    HeaderName::from_str(text).ok()
}

/// `HeaderName::from_static` takes a name in lower case. It panics on other text.
#[verifier::external_body]
pub(crate) fn static_name(text: &'static str) -> (name: HeaderName)
    requires
        plain_name(text@),
    ensures
        name_text(name) == text@,
{
    HeaderName::from_static(text)
}

/// `HeaderName::as_str` gives the text of the name.
pub assume_specification[ HeaderName::as_str ](name: &HeaderName) -> (text: &str)
    ensures
        text@ == name_text(*name),
;

/// `HeaderValue::from_bytes` takes bytes that are not control characters, and tabs.
#[verifier::external_body]
pub(crate) fn make_value(bytes: &[u8]) -> (value: Option<HeaderValue>)
    ensures
        match value {
            Some(value) => field_value(bytes@) && value_bytes(value) == bytes@,
            None => !field_value(bytes@),
        },
{
    HeaderValue::from_bytes(bytes).ok()
}

/// `HeaderValue::from_static` takes text that is visible in ASCII. It panics on other text.
#[verifier::external_body]
pub(crate) fn static_value(text: &'static str) -> (value: HeaderValue)
    requires
        visible(encode_utf8(text@)),
    ensures
        value_bytes(value) == encode_utf8(text@),
{
    HeaderValue::from_static(text)
}

/// `HeaderValue::as_bytes` gives the bytes of the value.
pub assume_specification[ HeaderValue::as_bytes ](value: &HeaderValue) -> (bytes: &[u8])
    ensures
        bytes@ == value_bytes(*value),
;

/// `HeaderValue::to_str` gives the text of the value, if its bytes are visible in ASCII or tabs.
#[verifier::external_body]
pub(crate) fn value_str(value: &HeaderValue) -> (text: Option<&str>)
    ensures
        match text {
            Some(text) => visible(value_bytes(*value)) && text@ == ascii_text(value_bytes(*value)),
            None => !visible(value_bytes(*value)),
        },
{
    value.to_str().ok()
}

/// `Clone` on a `HeaderName` keeps the text.
pub assume_specification[ <HeaderName as Clone>::clone ](name: &HeaderName) -> (copy: HeaderName)
    ensures
        name_text(copy) == name_text(*name),
;

/// `Clone` on a `HeaderValue` keeps the bytes.
pub assume_specification[ <HeaderValue as Clone>::clone ](value: &HeaderValue) -> (copy: HeaderValue)
    ensures
        value_bytes(copy) == value_bytes(*value),
;

/// The versions of HTTP.
#[derive(Copy, Clone, Debug, PartialEq, Eq, Structural)]
pub enum Version {
    Http09,
    Http10,
    Http11,
    Http2,
    Http3,
}

impl Version {
    /// The text of a version.
    pub open spec fn text(self) -> Seq<char> {
        match self {
            Version::Http09 => "HTTP/0.9"@,
            Version::Http10 => "HTTP/1.0"@,
            Version::Http11 => "HTTP/1.1"@,
            Version::Http2 => "HTTP/2.0"@,
            Version::Http3 => "HTTP/3.0"@,
        }
    }

    /// Whether a version came before HTTP/1.1.
    pub open spec fn too_low(self) -> bool {
        self is Http09 || self is Http10
    }

    /// The text of this version.
    pub fn as_str(&self) -> (text: &'static str)
        ensures
            text@ == self.text(),
    {
        match self {
            Version::Http09 => "HTTP/0.9",
            Version::Http10 => "HTTP/1.0",
            Version::Http11 => "HTTP/1.1",
            Version::Http2 => "HTTP/2.0",
            Version::Http3 => "HTTP/3.0",
        }
    }

    /// Whether this version came before HTTP/1.1.
    pub fn is_too_low(&self) -> (low: bool)
        ensures
            low == self.too_low(),
    {
        matches!(self, Version::Http09 | Version::Http10)
    }
}

/// The target of a request.
#[derive(Debug, PartialEq, Eq)]
pub struct Uri {
    /// The whole of it.
    pub text: String,
    /// The authority, if there is one.
    pub authority: Option<String>,
    /// The path and the query, if there is a path.
    pub path_and_query: Option<String>,
}

/// What a `Uri` says.
pub struct UriView {
    pub text: Seq<char>,
    pub authority: Option<Seq<char>>,
    pub path_and_query: Option<Seq<char>>,
}

impl View for Uri {
    type V = UriView;

    open spec fn view(&self) -> UriView {
        UriView {
            text: self.text@,
            authority: text_of(self.authority),
            path_and_query: text_of(self.path_and_query),
        }
    }
}

impl Clone for Uri {
    fn clone(&self) -> (copy: Uri)
        ensures
            copy@ == self@,
    {
        Uri {
            text: self.text.clone(),
            authority: copy_text(&self.authority),
            path_and_query: copy_text(&self.path_and_query),
        }
    }
}

/// Copies optional text.
pub(crate) fn copy_text(text: &Option<String>) -> (copy: Option<String>)
    ensures
        copy == *text,
{
    match text {
        Some(text) => Some(text.clone()),
        None => None,
    }
}

/// What `http::Uri::from_str` makes of text: a target, or the words in which it rejects the text.
pub uninterp spec fn uri_of(text: Seq<char>) -> Result<UriView, Seq<char>>;

/// `http::Uri::from_str` reads a target. What it makes of the text depends on the text alone.
#[verifier::external_body]
pub(crate) fn parse_uri(text: &str) -> (uri: Result<Uri, String>)
    ensures
        match uri {
            Ok(uri) => uri_of(text@) == Ok::<UriView, Seq<char>>(uri@),
            Err(fault) => uri_of(text@) == Err::<UriView, Seq<char>>(fault@),
        },
{
    let uri = http::Uri::from_str(text).map_err(|e| e.to_string())?;
    Ok(Uri {
        text: uri.to_string(),
        authority: uri.authority().map(|authority| authority.as_str().to_string()),
        path_and_query: uri.path_and_query().map(|path| path.to_string()),
    })
}

/// `Method::from_str` takes any token.
#[verifier::external_body]
pub(crate) fn is_method(text: &str) -> (method: bool)
    ensures
        method == token(text@),
{
    Method::from_str(text).is_ok()
}

/// `StatusCode::from_u16` takes numbers of three digits.
#[verifier::external_body]
pub(crate) fn is_status(code: u16) -> (status: bool)
    ensures
        status == (100 <= code <= 999),
{
    StatusCode::from_u16(code).is_ok()
}

/// The reason phrase that `StatusCode::canonical_reason` has for a status code.
pub uninterp spec fn reason_phrase(code: u16) -> Option<Seq<char>>;

/// `StatusCode::canonical_reason` gives the reason phrase of a status code, if it knows one.
#[verifier::external_body]
pub(crate) fn canonical_reason(code: u16) -> (reason: Option<String>)
    ensures
        text_of(reason) == reason_phrase(code),
        code == 101 ==> text_of(reason) == Some("Switching Protocols"@),
        code == 400 ==> text_of(reason) == Some("Bad Request"@),
{
    StatusCode::from_u16(code).ok()?.canonical_reason().map(|reason| reason.to_string())
}

/// A request without a body.
#[derive(Debug)]
pub struct Request {
    /// The method.
    pub method: String,
    /// The target.
    pub uri: Uri,
    /// The version.
    pub version: Version,
    /// The header fields.
    pub headers: HeaderMap,
}

/// What a `Request` says.
pub struct RequestView {
    pub method: Seq<char>,
    pub uri: UriView,
    pub version: Version,
    pub fields: Seq<Field>,
}

impl View for Request {
    type V = RequestView;

    open spec fn view(&self) -> RequestView {
        RequestView {
            method: self.method@,
            uri: self.uri@,
            version: self.version,
            fields: fields(self.headers),
        }
    }
}

impl Request {
    /// A request for `uri`, without header fields.
    pub fn get(uri: Uri) -> (request: Request)
        ensures
            request@ == (RequestView {
                method: "GET"@,
                uri: uri@,
                version: Version::Http11,
                fields: Seq::empty(),
            }),
    {
        Request {
            method: "GET".to_string(),
            uri,
            version: Version::Http11,
            headers: empty_map(),
        }
    }
}

/// A response without a body.
#[derive(Debug)]
pub struct Response {
    /// The status code.
    pub status: u16,
    /// The version.
    pub version: Version,
    /// The header fields.
    pub headers: HeaderMap,
}

/// What a `Response` says.
pub struct ResponseView {
    pub status: u16,
    pub version: Version,
    pub fields: Seq<Field>,
}

impl View for Response {
    type V = ResponseView;

    open spec fn view(&self) -> ResponseView {
        ResponseView { status: self.status, version: self.version, fields: fields(self.headers) }
    }
}

/// The name of the field with the host.
pub const HOST: &'static str = "host";

/// The name of the field with the connection options.
pub const CONNECTION: &'static str = "connection";

/// The name of the field with the protocol to switch to.
pub const UPGRADE: &'static str = "upgrade";

/// The name of the field with the location that a client is redirected to.
pub const LOCATION: &'static str = "location";

/// The name of the field with the version of the WebSocket protocol.
pub const SEC_WEBSOCKET_VERSION: &'static str = "sec-websocket-version";

/// The name of the field with the client's key.
pub const SEC_WEBSOCKET_KEY: &'static str = "sec-websocket-key";

/// The name of the field with the server's answer to the key.
pub const SEC_WEBSOCKET_ACCEPT: &'static str = "sec-websocket-accept";

/// The name of the field with the subprotocols.
pub const SEC_WEBSOCKET_PROTOCOL: &'static str = "sec-websocket-protocol";

/// The name of the field with the extensions.
pub const SEC_WEBSOCKET_EXTENSIONS: &'static str = "sec-websocket-extensions";

/// The names that the handshake uses are names in the form in which maps hold them.
pub proof fn lemma_plain_names()
    ensures
        plain_name(HOST@),
        plain_name(CONNECTION@),
        plain_name(UPGRADE@),
        plain_name(LOCATION@),
        plain_name(SEC_WEBSOCKET_VERSION@),
        plain_name(SEC_WEBSOCKET_KEY@),
        plain_name(SEC_WEBSOCKET_ACCEPT@),
        plain_name(SEC_WEBSOCKET_PROTOCOL@),
        plain_name(SEC_WEBSOCKET_EXTENSIONS@),
{
    reveal_strlit("host");
    reveal_strlit("connection");
    reveal_strlit("upgrade");
    reveal_strlit("location");
    reveal_strlit("sec-websocket-version");
    reveal_strlit("sec-websocket-key");
    reveal_strlit("sec-websocket-accept");
    reveal_strlit("sec-websocket-protocol");
    reveal_strlit("sec-websocket-extensions");
}

} // verus!
