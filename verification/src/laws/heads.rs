//! What the heads of requests and responses come to.

use crate::errors::{HttpError, HttpErrorView, InvalidHeader};
use crate::handshake::head::{
    first_invalid, gather, gathered, lemma_gathered_len, line_text, lines_of, lossy, valid_line,
    Line, RequestHead, ResponseHead,
};
use crate::handshake::server::{collected, pairs_in, InvalidStatusCode, WebSocketResponse};
use crate::http_types::{
    fields, lemma_with_field, lowered, token, uri_of, value_byte, values_of, Field, Request,
    Response, Uri, Version,
};
use http::{HeaderMap, HeaderName, HeaderValue};
use vstd::prelude::*;

verus! {

/// The values that a name has after lines were received: the value of the last line with that name,
/// but for the case of letters.
pub open spec fn last_value(lines: Seq<(Seq<char>, Seq<u8>)>, name: Seq<char>) -> Seq<Seq<u8>>
    decreases lines.len(),
{
    if lines.len() == 0 {
        Seq::empty()
    } else if lowered(lines.last().0) == name {
        seq![lines.last().1]
    } else {
        last_value(lines.drop_last(), name)
    }
}

/// The fields that lines come to.
proof fn lemma_gathered(lines: Seq<(Seq<char>, Seq<u8>)>, name: Seq<char>)
    ensures
        values_of(gathered(lines), name) == last_value(lines, name),
    decreases lines.len(),
{
    if lines.len() > 0 {
        lemma_gathered(lines.drop_last(), name);
        lemma_with_field(
            gathered(lines.drop_last()),
            lowered(lines.last().0),
            seq![lines.last().1],
            name,
        );
    }
}

/// Whether a line can be held by a map: its name is a token and its value has no control characters.
pub open spec fn acceptable(line: (Seq<char>, Seq<u8>)) -> bool {
    &&& token(line.0) && line.0.len() <= 65535
    &&& forall|i: int|
        0 <= i < line.1.len() ==> (#[trigger] line.1[i] >= 32 || line.1[i] == 9) && line.1[i] != 127
}

/// A line in words.
pub open spec fn in_words(line: (Seq<char>, Seq<u8>)) -> Seq<char> {
    line.0 + ": "@ + lossy(line.1)
}

/// Where the first line is that cannot be held by a map.
proof fn lemma_first_invalid(lines: Seq<(Seq<char>, Seq<u8>)>)
    ensures
        0 <= first_invalid(lines) <= lines.len(),
        first_invalid(lines) < lines.len() ==> !acceptable(lines[first_invalid(lines)]),
        forall|i: int| 0 <= i < first_invalid(lines) ==> acceptable(#[trigger] lines[i]),
    decreases lines.len(),
{
    if lines.len() > 0 {
        assert(valid_line(lines[0]) <==> acceptable(lines[0])) by {
            assert forall|i: int| 0 <= i < lines[0].1.len() implies ((#[trigger] lines[0].1[i] >= 32
                || lines[0].1[i] == 9) && lines[0].1[i] != 127 <==> value_byte(
                lines[0].1[i],
            )) by {}
        }
        if valid_line(lines[0]) {
            let others = lines.skip(1);
            lemma_first_invalid(others);
            assert forall|i: int| 0 <= i < first_invalid(lines) implies acceptable(
                #[trigger] lines[i],
            ) by {
                if i > 0 {
                    assert(others[i - 1] == lines[i]);
                }
            }
            if first_invalid(lines) < lines.len() {
                assert(others[first_invalid(others)] == lines[first_invalid(lines)]);
            }
        }
    }
}

/// Whether a line is the first that cannot be held by a map.
pub open spec fn first_refused(lines: Seq<(Seq<char>, Seq<u8>)>, i: int) -> bool {
    &&& 0 <= i < lines.len()
    &&& !acceptable(lines[i])
    &&& forall|j: int| 0 <= j < i ==> acceptable(#[trigger] lines[j])
}

/// Whether fields are what lines come to.
pub open spec fn hold(fields: Seq<Field>, lines: Seq<(Seq<char>, Seq<u8>)>) -> bool {
    &&& forall|i: int| 0 <= i < lines.len() ==> acceptable(#[trigger] lines[i])
    &&& forall|name: Seq<char>| #[trigger] values_of(fields, name) == last_value(lines, name)
}

/// Whether words are what lines are refused for: the first that cannot be held by a map, or any of
/// them if there are more names than a map can hold.
pub open spec fn refused_with(lines: Seq<(Seq<char>, Seq<u8>)>, words: Seq<char>) -> bool {
    ||| exists|i: int| #[trigger] first_refused(lines, i) && words == in_words(lines[i])
    ||| lines.len() > 6553 && exists|i: int|
        0 <= i < lines.len() && words == in_words(#[trigger] lines[i])
}

/// Lines that were received come to fields: each name has the value that it was given last. The
/// first line that cannot be held by a map is named in the error.
pub proof fn law_gathered(lines: &[Line], result: Result<HeaderMap, InvalidHeader>)
    requires
        call_ensures(gather, (lines,), result),
    ensures
        match result {
            Ok(map) => hold(fields(map), lines_of(lines@)),
            Err(e) => refused_with(lines_of(lines@), e.0@),
        },
{
    let all = lines_of(lines@);
    lemma_first_invalid(all);
    lemma_gathered_len(all);
    match result {
        Ok(map) => {
            assert forall|name: Seq<char>| #[trigger] values_of(fields(map), name) == last_value(
                all,
                name,
            ) by {
                lemma_gathered(all, name);
            }
        },
        Err(e) => {
            if first_invalid(all) < all.len() {
                assert(first_refused(all, first_invalid(all)));
            }
            assert(forall|i: int|
                0 <= i < all.len() ==> line_text(#[trigger] all[i]) == in_words(all[i]));
        },
    }
}

/// The version of a minor version number, if there is one.
pub open spec fn version_named(number: Option<u8>) -> Option<Version> {
    if number == Some(0u8) {
        Some(Version::Http10)
    } else if number == Some(1u8) {
        Some(Version::Http11)
    } else {
        None
    }
}

/// A response is made of a head with a status code, a version that is known and fields that can be
/// held by a map. The first of these that is missing or wrong is what the head is rejected for.
pub proof fn law_response_of_head(head: ResponseHead, result: Result<Response, HttpError>)
    requires
        head@.headers.len() <= 6553,
        call_ensures(ResponseHead::into_response, (head,), result),
    ensures
        ({
            let refused = |e: HttpErrorView| result matches Err(error) && error@ == e;
            if head@.code is None || !(100 <= head@.code->0 <= 999) {
                refused(HttpErrorView::Status(head@.code))
            } else if version_named(head@.version) is None {
                refused(HttpErrorView::VersionNumber(head@.version))
            } else {
                match result {
                    Ok(response) => {
                        &&& response@.status == head@.code->0
                        &&& version_named(head@.version) == Some(response@.version)
                        &&& hold(response@.fields, head@.headers)
                    },
                    Err(e) => e@ matches HttpErrorView::MalformattedHeader(words) && refused_with(
                        head@.headers,
                        words,
                    ),
                }
            }
        }),
{
    let all = head@.headers;
    lemma_first_invalid(all);
    lemma_gathered_len(all);
    if first_invalid(all) < all.len() {
        assert(first_refused(all, first_invalid(all)));
    }
    if let Ok(response) = result {
        assert forall|name: Seq<char>| #[trigger] values_of(response@.fields, name) == last_value(
            all,
            name,
        ) by {
            lemma_gathered(all, name);
        }
    }
}

/// A request is made of a head with a target, a method, a version that is known and fields that can
/// be held by a map. The first of these that is missing or wrong is what the head is rejected for.
pub proof fn law_request_of_head(head: RequestHead, result: Result<Request, HttpError>)
    requires
        head@.headers.len() <= 6553,
        call_ensures(RequestHead::into_request, (head,), result),
    ensures
        ({
            let refused = |e: HttpErrorView| result matches Err(error) && error@ == e;
            match head@.path {
                None => refused(HttpErrorView::MalformattedUri(Some("Missing request path"@))),
                Some(path) => match uri_of(path) {
                    Err(fault) => refused(HttpErrorView::MalformattedUri(Some(fault))),
                    Ok(uri) => if head@.method is None || !token(head@.method->0) {
                        refused(HttpErrorView::HttpMethod(head@.method))
                    } else if version_named(head@.version) is None {
                        refused(HttpErrorView::VersionNumber(head@.version))
                    } else {
                        match result {
                            Ok(request) => {
                                &&& request@.uri == uri
                                &&& request@.method == head@.method->0
                                &&& version_named(head@.version) == Some(request@.version)
                                &&& hold(request@.fields, head@.headers)
                            },
                            Err(e) => e@ matches HttpErrorView::MalformattedHeader(words)
                                && refused_with(head@.headers, words),
                        }
                    },
                },
            }
        }),
{
    let all = head@.headers;
    lemma_first_invalid(all);
    lemma_gathered_len(all);
    if first_invalid(all) < all.len() {
        assert(first_refused(all, first_invalid(all)));
    }
    if let Ok(request) = result {
        assert forall|name: Seq<char>| #[trigger] values_of(request@.fields, name) == last_value(
            all,
            name,
        ) by {
            lemma_gathered(all, name);
        }
    }
}

/// The values that a name has after pairs were added: all that it was given, in order.
pub open spec fn all_values(pairs: Seq<(Seq<char>, Seq<u8>)>, name: Seq<char>) -> Seq<Seq<u8>>
    decreases pairs.len(),
{
    if pairs.len() == 0 {
        Seq::empty()
    } else if pairs.last().0 == name {
        all_values(pairs.drop_last(), name).push(pairs.last().1)
    } else {
        all_values(pairs.drop_last(), name)
    }
}

/// The fields that pairs come to.
proof fn lemma_collected(pairs: Seq<(Seq<char>, Seq<u8>)>, name: Seq<char>)
    ensures
        values_of(collected(pairs), name) == all_values(pairs, name),
    decreases pairs.len(),
{
    if pairs.len() > 0 {
        let before = collected(pairs.drop_last());
        let last = pairs.last();
        lemma_collected(pairs.drop_last(), name);
        lemma_with_field(before, last.0, values_of(before, last.0).push(last.1), name);
    }
}

/// A response that rejects a connection has the status code and all of the fields that it is given.
/// A code that is none is rejected.
pub proof fn law_rejection_made(
    code: u16,
    headers: Vec<(HeaderName, HeaderValue)>,
    result: Result<WebSocketResponse, InvalidStatusCode>,
)
    requires
        call_ensures(WebSocketResponse::with_headers, (code, headers), result),
    ensures
        if 100 <= code <= 999 {
            result matches Ok(response) && response.code() == code && forall|name: Seq<char>|
                #[trigger] values_of(response.fields(), name) == all_values(
                    pairs_in(headers@),
                    name,
                )
        } else {
            result == Err::<WebSocketResponse, InvalidStatusCode>(InvalidStatusCode(code))
        },
{
    if let Ok(response) = result {
        assert forall|name: Seq<char>| #[trigger] values_of(response.fields(), name) == all_values(
            pairs_in(headers@),
            name,
        ) by {
            lemma_collected(pairs_in(headers@), name);
        }
    }
}

/// A response with more names than a map may hold is made in the same way, or not at all.
pub proof fn law_large_rejection_made(
    code: u16,
    headers: Vec<(HeaderName, HeaderValue)>,
    result: Result<Option<WebSocketResponse>, InvalidStatusCode>,
)
    requires
        call_ensures(WebSocketResponse::try_with_headers, (code, headers), result),
    ensures
        match result {
            Ok(Some(response)) => {
                &&& 100 <= code <= 999
                &&& response.code() == code
                &&& forall|name: Seq<char>| #[trigger]
                    values_of(response.fields(), name) == all_values(pairs_in(headers@), name)
            },
            Ok(None) => 100 <= code <= 999 && headers@.len() > 6553,
            Err(e) => !(100 <= code <= 999) && e == InvalidStatusCode(code),
        },
{
    lemma_collected_len(pairs_in(headers@));
    if let Ok(Some(response)) = result {
        assert forall|name: Seq<char>| #[trigger] values_of(response.fields(), name) == all_values(
            pairs_in(headers@),
            name,
        ) by {
            lemma_collected(pairs_in(headers@), name);
        }
    }
}

/// Pairs come to no more fields than there are of them.
proof fn lemma_collected_len(pairs: Seq<(Seq<char>, Seq<u8>)>)
    ensures
        collected(pairs).len() <= pairs.len(),
    decreases pairs.len(),
{
    if pairs.len() > 0 {
        let before = collected(pairs.drop_last());
        let last = pairs.last();
        lemma_collected_len(pairs.drop_last());
        lemma_with_field(before, last.0, values_of(before, last.0).push(last.1), last.0);
    }
}

/// A response without fields is made in the same way.
pub proof fn law_bare_rejection_made(
    code: u16,
    result: Result<WebSocketResponse, InvalidStatusCode>,
)
    requires
        call_ensures(WebSocketResponse::new, (code,), result),
    ensures
        if 100 <= code <= 999 {
            result matches Ok(response) && response.code() == code && response.fields().len() == 0
        } else {
            result == Err::<WebSocketResponse, InvalidStatusCode>(InvalidStatusCode(code))
        },
{
}

/// The request for a target is a `GET` of HTTP/1.1 without fields.
pub proof fn law_request_for(uri: Uri, request: Request)
    requires
        call_ensures(Request::get, (uri,), request),
    ensures
        request@.method == "GET"@,
        request@.uri == uri@,
        request@.version is Http11,
        request@.fields.len() == 0,
{
}

} // verus!
