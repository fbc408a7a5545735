//! Responses to requests that open a connection.

use crate::buffer::contents;
use crate::errors::text_of;
use crate::http_types::{
    canonical_reason, fields, has_no_fields, name_text, pairs, pairs_of, reason_phrase, value_bytes,
    Field,
};
use crate::text::{decimal, decimal_text};
use bytes::BytesMut;
use http::HeaderMap;
use vstd::prelude::*;
use vstd::utf8::encode_utf8;

verus! {

/// The lines of fields, each in front of a line break.
pub open spec fn field_lines(pairs: Seq<(Seq<char>, Seq<u8>)>) -> Seq<u8>
    decreases pairs.len(),
{
    if pairs.len() == 0 {
        Seq::empty()
    } else {
        field_lines(pairs.drop_last()) + encode_utf8(pairs.last().0) + encode_utf8(": "@)
            + pairs.last().1 + encode_utf8("\r\n"@)
    }
}

/// The bytes of the line with a status and a reason phrase, if there is one.
pub open spec fn status_line(status: u16, reason: Option<Seq<char>>) -> Seq<u8> {
    let start = encode_utf8("HTTP/1.1 "@) + encode_utf8(decimal(status as nat));
    match reason {
        Some(reason) => start + encode_utf8(" "@) + encode_utf8(reason) + encode_utf8(" \r\n"@),
        None => start + encode_utf8("\r\n"@),
    }
}

/// The bytes of a response with a reason phrase, if there is one.
pub open spec fn response_with(
    status: u16,
    reason: Option<Seq<char>>,
    fields: Seq<Field>,
    body: Option<Seq<char>>,
) -> Seq<u8> {
    let head = status_line(status, reason) + field_lines(pairs_of(fields));
    let text = match body {
        Some(body) => head + encode_utf8(body),
        None => head,
    };
    text + encode_utf8(
        if fields.len() == 0 {
            "\r\n\r\n"@
        } else {
            "\r\n"@
        },
    )
}

/// The bytes of a response.
pub open spec fn response_bytes(
    status: u16,
    fields: Seq<Field>,
    body: Option<Seq<char>>,
) -> Seq<u8> {
    response_with(status, reason_phrase(status), fields, body)
}

/// Writes text to a buffer.
fn put_text(buf: &mut BytesMut, text: &str)
    ensures
        contents(*final(buf)) == contents(*old(buf)) + encode_utf8(text@),
{
    buf.extend_from_slice(text.as_bytes());
}

/// Replaces the contents of a buffer by a response.
pub fn write_response(buf: &mut BytesMut, status: u16, headers: &HeaderMap, body: Option<String>)
    ensures
        contents(*final(buf)) == response_bytes(status, fields(*headers), text_of(body)),
        status == 101 ==> contents(*final(buf)) == response_with(
            101,
            Some("Switching Protocols"@),
            fields(*headers),
            text_of(body),
        ),
        status == 400 ==> contents(*final(buf)) == response_with(
            400,
            Some("Bad Request"@),
            fields(*headers),
            text_of(body),
        ),
{
    write_response_with(buf, status, canonical_reason(status), headers, body);
}

/// Replaces the contents of a buffer by a response with a reason phrase, if there is one.
pub fn write_response_with(
    buf: &mut BytesMut,
    status: u16,
    reason: Option<String>,
    headers: &HeaderMap,
    body: Option<String>,
)
    ensures
        contents(*final(buf)) == response_with(
            status,
            text_of(reason),
            fields(*headers),
            text_of(body),
        ),
{
    buf.clear();
    put_text(buf, "HTTP/1.1 ");
    put_text(buf, decimal_text(status as u64).as_str());
    let ghost phrase = text_of(reason);
    match reason {
        Some(reason) => {
            put_text(buf, " ");
            put_text(buf, reason.as_str());
            put_text(buf, " \r\n");
        },
        None => put_text(buf, "\r\n"),
    }
    assert(contents(*buf) =~= status_line(status, phrase));
    let lines = pairs(headers);
    let ghost all = pairs_of(fields(*headers));
    let mut i: usize = 0;
    assert(all.take(0) =~= Seq::empty());
    assert(contents(*buf) =~= status_line(status, phrase) + field_lines(all.take(0)));
    while i < lines.len()
        invariant
            i <= lines@.len(),
            lines@.len() == all.len(),
            forall|j: int|
                0 <= j < lines@.len() ==> (
                    name_text(*(#[trigger] lines@[j]).0),
                    value_bytes(*lines@[j].1),
                ) == all[j],
            contents(*buf) == status_line(status, phrase) + field_lines(all.take(i as int)),
        decreases lines@.len() - i,
    {
        let (name, value) = &lines[i];
        put_text(buf, name.as_str());
        put_text(buf, ": ");
        buf.extend_from_slice(value.as_bytes());
        put_text(buf, "\r\n");
        proof {
            assert(all.take(i + 1).drop_last() =~= all.take(i as int));
            assert(all.take(i + 1).last() == all[i as int]);
            assert(contents(*buf) =~= status_line(status, phrase) + field_lines(all.take(i + 1)));
        }
        i = i + 1;
    }
    assert(all.take(all.len() as int) =~= all);
    if let Some(body) = body {
        put_text(buf, body.as_str());
    }
    if has_no_fields(headers) {
        put_text(buf, "\r\n\r\n");
    } else {
        put_text(buf, "\r\n");
    }
}

} // verus!
