//! The heads of requests and responses.

use crate::errors::{text_of, HttpError, HttpErrorView, InvalidHeader};
use crate::http_types::{
    empty_map, field_name, field_value, fields, insert, is_method, is_status, lemma_with_field,
    lowered, make_value, parse_name, parse_uri, token, uri_of, with_field, Field, Request,
    RequestView, Response, ResponseView, Version, MAP_ROOM,
};
use http::HeaderMap;
use vstd::prelude::*;
use vstd::utf8::{decode_utf8, valid_utf8};

verus! {

/// The number of fields that are read of a head.
pub const MAX_HEADERS: usize = 32;

/// A field as it was received: its name and its value.
pub type Line = (String, Vec<u8>);

/// What received fields say.
pub open spec fn lines_of(lines: Seq<Line>) -> Seq<(Seq<char>, Seq<u8>)> {
    Seq::new(lines.len(), |i: int| (lines[i].0@, lines[i].1@))
}

/// What has been read of the head of a request.
#[derive(Debug)]
pub struct RequestHead {
    /// The method.
    pub method: Option<String>,
    /// The target.
    pub path: Option<String>,
    /// The minor version.
    pub version: Option<u8>,
    /// The fields.
    pub headers: Vec<Line>,
}

/// What a `RequestHead` says.
pub struct RequestHeadView {
    pub method: Option<Seq<char>>,
    pub path: Option<Seq<char>>,
    pub version: Option<u8>,
    pub headers: Seq<(Seq<char>, Seq<u8>)>,
}

impl View for RequestHead {
    type V = RequestHeadView;

    open spec fn view(&self) -> RequestHeadView {
        RequestHeadView {
            method: text_of(self.method),
            path: text_of(self.path),
            version: self.version,
            headers: lines_of(self.headers@),
        }
    }
}

/// What has been read of the head of a response.
#[derive(Debug)]
pub struct ResponseHead {
    /// The minor version.
    pub version: Option<u8>,
    /// The status code.
    pub code: Option<u16>,
    /// The fields.
    pub headers: Vec<Line>,
}

/// What a `ResponseHead` says.
pub struct ResponseHeadView {
    pub version: Option<u8>,
    pub code: Option<u16>,
    pub headers: Seq<(Seq<char>, Seq<u8>)>,
}

impl View for ResponseHead {
    type V = ResponseHeadView;

    open spec fn view(&self) -> ResponseHeadView {
        ResponseHeadView {
            version: self.version,
            code: self.code,
            headers: lines_of(self.headers@),
        }
    }
}

/// What `httparse::Request::parse` makes of bytes, with room for 32 fields: what it has read of a
/// head, and the length of the head if it is complete; or the words in which it rejects the bytes.
pub uninterp spec fn request_head_of(bytes: Seq<u8>) -> Result<
    (RequestHeadView, Option<usize>),
    Seq<char>,
>;

/// `httparse::Request::parse` reads the head of a request. What it makes of the bytes depends on the
/// bytes alone. A complete head is not longer than the bytes and has at most 32 fields.
#[verifier::external_body]
pub(crate) fn read_request_head(bytes: &[u8]) -> (head: Result<
    (RequestHead, Option<usize>),
    String,
>)
    ensures
        match head {
            Ok((head, length)) => request_head_of(bytes@) == Ok::<
                (RequestHeadView, Option<usize>),
                Seq<char>,
            >((head@, length)) && head@.headers.len() <= MAX_HEADERS && (length matches Some(n)
                ==> n <= bytes@.len()),
            Err(fault) => request_head_of(bytes@) == Err::<
                (RequestHeadView, Option<usize>),
                Seq<char>,
            >(fault@),
        },
{
    let mut lines = [httparse::EMPTY_HEADER; MAX_HEADERS];
    let mut request = httparse::Request::new(&mut lines);
    let status = request.parse(bytes).map_err(|e| e.to_string())?;
    let length = match status {
        httparse::Status::Complete(length) => Some(length),
        httparse::Status::Partial => None,
    };
    let method = request.method.map(|method| method.to_string());
    let path = request.path.map(|path| path.to_string());
    let headers = request.headers.iter().map(|h| (h.name.to_string(), h.value.to_vec())).collect();
    Ok((RequestHead { method, path, version: request.version, headers }, length))
}

/// What `httparse::Response::parse` makes of bytes, with room for 32 fields: what it has read of a
/// head, and the length of the head if it is complete; or the words in which it rejects the bytes.
pub uninterp spec fn response_head_of(bytes: Seq<u8>) -> Result<
    (ResponseHeadView, Option<usize>),
    Seq<char>,
>;

/// `httparse::Response::parse` reads the head of a response. What it makes of the bytes depends on
/// the bytes alone. A complete head is not longer than the bytes and has at most 32 fields.
#[verifier::external_body]
pub(crate) fn read_response_head(bytes: &[u8]) -> (head: Result<
    (ResponseHead, Option<usize>),
    String,
>)
    ensures
        match head {
            Ok((head, length)) => response_head_of(bytes@) == Ok::<
                (ResponseHeadView, Option<usize>),
                Seq<char>,
            >((head@, length)) && head@.headers.len() <= MAX_HEADERS && (length matches Some(n)
                ==> n <= bytes@.len()),
            Err(fault) => response_head_of(bytes@) == Err::<
                (ResponseHeadView, Option<usize>),
                Seq<char>,
            >(fault@),
        },
{
    let mut lines = [httparse::EMPTY_HEADER; MAX_HEADERS];
    let mut response = httparse::Response::new(&mut lines);
    let status = response.parse(bytes).map_err(|e| e.to_string())?;
    let length = match status {
        httparse::Status::Complete(length) => Some(length),
        httparse::Status::Partial => None,
    };
    let headers = response.headers.iter().map(|h| (h.name.to_string(), h.value.to_vec())).collect();
    Ok((ResponseHead { version: response.version, code: response.code, headers }, length))
}

/// What `String::from_utf8_lossy` makes of bytes.
pub uninterp spec fn lossy(bytes: Seq<u8>) -> Seq<char>;

/// `String::from_utf8_lossy` gives the text that bytes encode, with replacements for those that are
/// not UTF-8.
#[verifier::external_body]
fn lossy_text(bytes: &[u8]) -> (text: String)
    ensures
        text@ == lossy(bytes@),
        valid_utf8(bytes@) ==> text@ == decode_utf8(bytes@),
{
    String::from_utf8_lossy(bytes).into_owned()
}

/// Whether a received field can be held by a map.
pub open spec fn valid_line(line: (Seq<char>, Seq<u8>)) -> bool {
    field_name(line.0) && field_value(line.1)
}

/// A received field in one line.
pub open spec fn line_text(line: (Seq<char>, Seq<u8>)) -> Seq<char> {
    line.0 + ": "@ + lossy(line.1)
}

/// The fields of a map that received fields have been put in, one after the other: of a name that
/// occurs more than once the last value stays.
pub open spec fn gathered(lines: Seq<(Seq<char>, Seq<u8>)>) -> Seq<Field>
    decreases lines.len(),
{
    if lines.len() == 0 {
        Seq::empty()
    } else {
        with_field(gathered(lines.drop_last()), lowered(lines.last().0), seq![lines.last().1])
    }
}

/// The position of the first received field that cannot be held by a map, or their number.
pub open spec fn first_invalid(lines: Seq<(Seq<char>, Seq<u8>)>) -> int
    decreases lines.len(),
{
    if lines.len() == 0 || !valid_line(lines[0]) {
        0
    } else {
        1 + first_invalid(lines.skip(1))
    }
}

/// The fields that received fields come to, or the one that is rejected.
pub open spec fn fields_of(lines: Seq<(Seq<char>, Seq<u8>)>) -> Result<Seq<Field>, Seq<char>> {
    if first_invalid(lines) < lines.len() {
        Err(line_text(lines[first_invalid(lines)]))
    } else {
        Ok(gathered(lines))
    }
}

/// The first invalid line, if the lines before `i` are valid and it is not.
proof fn lemma_first_invalid(lines: Seq<(Seq<char>, Seq<u8>)>, i: int)
    requires
        0 <= i <= lines.len(),
        forall|j: int| 0 <= j < i ==> valid_line(#[trigger] lines[j]),
        i < lines.len() ==> !valid_line(lines[i]),
    ensures
        first_invalid(lines) == i,
    decreases i,
{
    if i > 0 {
        assert(valid_line(lines[0]));
        assert forall|j: int| 0 <= j < i - 1 implies valid_line(#[trigger] lines.skip(1)[j]) by {
            assert(lines.skip(1)[j] == lines[j + 1]);
        }
        lemma_first_invalid(lines.skip(1), i - 1);
    }
}

/// A map has no more names than fields were added to it.
pub(crate) proof fn lemma_gathered_len(lines: Seq<(Seq<char>, Seq<u8>)>)
    ensures
        gathered(lines).len() <= lines.len(),
    decreases lines.len(),
{
    if lines.len() > 0 {
        lemma_gathered_len(lines.drop_last());
        let name = lowered(lines.last().0);
        lemma_with_field(gathered(lines.drop_last()), name, seq![lines.last().1], name);
    }
}

/// A map that more fields are put in has no fewer names.
proof fn lemma_gathered_grows(lines: Seq<(Seq<char>, Seq<u8>)>, count: int)
    requires
        0 <= count <= lines.len(),
    ensures
        gathered(lines.take(count)).len() <= gathered(lines).len(),
    decreases lines.len() - count,
{
    if count == lines.len() {
        assert(lines.take(count) =~= lines);
    } else {
        let name = lowered(lines[count].0);
        lemma_with_field(gathered(lines.take(count)), name, seq![lines[count].1], name);
        assert(lines.take(count + 1).drop_last() =~= lines.take(count));
        lemma_gathered_grows(lines, count + 1);
    }
}

/// Whether received fields were gathered as they should be. Of fields with more than 6553 names one may
/// be rejected because a map has no room for it.
pub open spec fn gathered_as(
    map: Result<HeaderMap, InvalidHeader>,
    lines: Seq<(Seq<char>, Seq<u8>)>,
) -> bool {
    match map {
        Ok(map) => fields_of(lines) == Ok::<Seq<Field>, Seq<char>>(fields(map)),
        Err(e) => {
            ||| fields_of(lines) == Err::<Seq<Field>, Seq<char>>(e.0@)
            ||| gathered(lines).len() > MAP_ROOM && exists|i: int|
                0 <= i < lines.len() && e.0@ == line_text(#[trigger] lines[i])
        },
    }
}

/// Writes a received field in one line.
fn one_line(name: &String, value: &Vec<u8>) -> (text: String)
    ensures
        text@ == line_text((name@, value@)),
{
    let mut text = name.clone();
    text.append(": ");
    text.append(lossy_text(value.as_slice()).as_str());
    text
}

/// Gathers received fields in a map. Of a name that occurs more than once the last value stays. A map
/// takes no more than 6553 names for certain.
pub fn gather(lines: &[Line]) -> (map: Result<HeaderMap, InvalidHeader>)
    ensures
        gathered_as(map, lines_of(lines@)),
{
    let ghost all = lines_of(lines@);
    let mut map = empty_map();
    let mut i: usize = 0;
    assert(all.take(0) =~= Seq::empty());
    while i < lines.len()
        invariant
            i <= lines@.len(),
            all == lines_of(lines@),
            fields(map) == gathered(all.take(i as int)),
            forall|j: int| 0 <= j < i ==> valid_line(#[trigger] all[j]),
        decreases lines@.len() - i,
    {
        let (name, value) = &lines[i];
        assert(all[i as int] == (name@, value@));
        proof {
            lemma_gathered_grows(all, i as int);
            assert(all.take(i + 1).drop_last() =~= all.take(i as int));
            assert(all.take(i + 1).last() == all[i as int]);
        }
        match (parse_name(name.as_str()), make_value(value.as_slice())) {
            (Some(parsed), Some(made)) => {
                if !insert(&mut map, parsed, made) {
                    return Err(InvalidHeader(one_line(name, value)));
                }
            },
            _ => {
                proof {
                    lemma_first_invalid(all, i as int);
                }
                return Err(InvalidHeader(one_line(name, value)));
            },
        }
        i = i + 1;
    }
    proof {
        lemma_first_invalid(all, all.len() as int);
        assert(all.take(all.len() as int) =~= all);
    }
    Ok(map)
}

/// The version of a minor version number.
pub open spec fn version_of(number: Option<u8>) -> Result<Version, HttpErrorView> {
    match number {
        Some(n) => if n == 0 {
            Ok(Version::Http10)
        } else if n == 1 {
            Ok(Version::Http11)
        } else {
            Err(HttpErrorView::VersionNumber(number))
        },
        None => Err(HttpErrorView::VersionNumber(None)),
    }
}

/// Reads a minor version number.
fn read_version(number: Option<u8>) -> (version: Result<Version, HttpError>)
    ensures
        match version {
            Ok(version) => version_of(number) == Ok::<Version, HttpErrorView>(version),
            Err(e) => version_of(number) == Err::<Version, HttpErrorView>(e@),
        },
{
    match number {
        Some(0) => Ok(Version::Http10),
        Some(1) => Ok(Version::Http11),
        other => Err(HttpError::VersionNumber(other)),
    }
}

/// The request that a head comes to, or what the head is rejected for.
pub open spec fn request_from(head: RequestHeadView) -> Result<RequestView, HttpErrorView> {
    match head.path {
        None => Err(HttpErrorView::MalformattedUri(Some("Missing request path"@))),
        Some(path) => match uri_of(path) {
            Err(fault) => Err(HttpErrorView::MalformattedUri(Some(fault))),
            Ok(uri) => match head.method {
                None => Err(HttpErrorView::HttpMethod(None)),
                Some(method) => if !token(method) {
                    Err(HttpErrorView::HttpMethod(Some(method)))
                } else {
                    match version_of(head.version) {
                        Err(e) => Err(e),
                        Ok(version) => match fields_of(head.headers) {
                            Err(line) => Err(HttpErrorView::MalformattedHeader(line)),
                            Ok(fields) => Ok(RequestView { method, uri, version, fields }),
                        },
                    }
                },
            },
        },
    }
}

/// Whether a request was made of a head as it should be. A head with more than 6553 names may be
/// rejected because a map has no room for them.
pub open spec fn requested_as(request: Result<Request, HttpError>, head: RequestHeadView) -> bool {
    match request {
        Ok(request) => request_from(head) == Ok::<RequestView, HttpErrorView>(request@),
        Err(e) => {
            ||| request_from(head) == Err::<RequestView, HttpErrorView>(e@)
            ||| gathered(head.headers).len() > MAP_ROOM && e@ is MalformattedHeader
        },
    }
}

impl RequestHead {
    /// Makes a request of a head.
    pub fn into_request(self) -> (request: Result<Request, HttpError>)
        ensures
            requested_as(request, self@),
    {
        let uri = match self.path {
            Some(path) => match parse_uri(path.as_str()) {
                Ok(uri) => uri,
                Err(fault) => return Err(HttpError::MalformattedUri(Some(fault))),
            },
            None => {
                return Err(HttpError::MalformattedUri(Some("Missing request path".to_string())));
            },
        };
        let method = match self.method {
            Some(method) => method,
            None => return Err(HttpError::HttpMethod(None)),
        };
        if !is_method(method.as_str()) {
            return Err(HttpError::HttpMethod(Some(method)));
        }
        let version = match read_version(self.version) {
            Ok(version) => version,
            Err(e) => return Err(e),
        };
        match gather(self.headers.as_slice()) {
            Ok(headers) => Ok(Request { method, uri, version, headers }),
            Err(InvalidHeader(line)) => Err(HttpError::MalformattedHeader(line)),
        }
    }
}

/// The response that a head comes to, or what the head is rejected for.
pub open spec fn response_from(head: ResponseHeadView) -> Result<ResponseView, HttpErrorView> {
    match head.code {
        None => Err(HttpErrorView::Status(None)),
        Some(status) => if !(100 <= status <= 999) {
            Err(HttpErrorView::Status(Some(status)))
        } else {
            match version_of(head.version) {
                Err(e) => Err(e),
                Ok(version) => match fields_of(head.headers) {
                    Err(line) => Err(HttpErrorView::MalformattedHeader(line)),
                    Ok(fields) => Ok(ResponseView { status, version, fields }),
                },
            }
        },
    }
}

/// Whether a response was made of a head as it should be. A head with more than 6553 names may be
/// rejected because a map has no room for them.
pub open spec fn responded_as(
    response: Result<Response, HttpError>,
    head: ResponseHeadView,
) -> bool {
    match response {
        Ok(response) => response_from(head) == Ok::<ResponseView, HttpErrorView>(response@),
        Err(e) => {
            ||| response_from(head) == Err::<ResponseView, HttpErrorView>(e@)
            ||| gathered(head.headers).len() > MAP_ROOM && e@ is MalformattedHeader
        },
    }
}

impl ResponseHead {
    /// Makes a response of a head.
    pub fn into_response(self) -> (response: Result<Response, HttpError>)
        ensures
            responded_as(response, self@),
    {
        let status: u16 = match self.code {
            Some(code) => code,
            None => return Err(HttpError::Status(None)),
        };
        if !is_status(status) {
            return Err(HttpError::Status(Some(status)));
        }
        let version = match read_version(self.version) {
            Ok(version) => version,
            Err(e) => return Err(e),
        };
        match gather(self.headers.as_slice()) {
            Ok(headers) => Ok(Response { status, version, headers }),
            Err(InvalidHeader(line)) => Err(HttpError::MalformattedHeader(line)),
        }
    }
}

/// A conversion that can fail.
pub trait TryMap<Target>: Sized {
    /// Error type returned if the mapping fails.
    type Error;

    /// Try and map this into `Target`.
    fn try_map(self) -> Result<Target, Self::Error>;
}

impl<'h> TryMap<HeaderMap> for &'h [Line] {
    type Error = InvalidHeader;

    fn try_map(self) -> (map: Result<HeaderMap, InvalidHeader>)
        ensures
            gathered_as(map, lines_of(self@)),
    {
        gather(self)
    }
}

impl TryMap<Request> for RequestHead {
    type Error = HttpError;

    fn try_map(self) -> (request: Result<Request, HttpError>)
        ensures
            requested_as(request, self@),
    {
        self.into_request()
    }
}

impl TryMap<Response> for ResponseHead {
    type Error = HttpError;

    fn try_map(self) -> (response: Result<Response, HttpError>)
        ensures
            responded_as(response, self@),
    {
        self.into_response()
    }
}

} // verus!
