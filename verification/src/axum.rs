//! Upgrades of requests that another HTTP server has received.

use crate::ascii::{contains_ignore_case, eq_bytes, mentions};
use crate::crypto::{accept_key, answer_to, base64_char};
use crate::handshake::{lemma_plain_values, UPGRADE_STR, WEBSOCKET_STR, WEBSOCKET_VERSION_STR};
use crate::http_types::{
    copy_map, empty_map, field_value, fields, get, insert, lemma_plain_names, lemma_with_field,
    make_value, static_name, static_value, value_of, value_str, visible, with_field, Field,
    Response, ResponseView, Version, CONNECTION, SEC_WEBSOCKET_ACCEPT, SEC_WEBSOCKET_EXTENSIONS,
    SEC_WEBSOCKET_KEY, SEC_WEBSOCKET_VERSION, UPGRADE,
};
use http::HeaderMap;
use vstd::prelude::*;
use vstd::utf8::{encode_utf8, is_ascii_chars, is_ascii_chars_encode_utf8};

verus! {

/// The extension that compresses messages.
pub const PERMESSAGE_DEFLATE: &'static str = "permessage-deflate";

/// The status code of a request that is not as it should be.
pub const BAD_REQUEST: u16 = 400;

/// A request to upgrade a connection.
#[derive(Debug)]
pub struct WebSocketUpgrade {
    /// The answer to the client's key.
    pub key: String,
    /// The header fields of the request.
    pub headers: HeaderMap,
    /// Whether the client offers to compress messages.
    pub permessage_deflate: bool,
}

/// Whether the fields of a request mention the extension that compresses messages.
pub open spec fn offers_deflate(fields: Seq<Field>) -> bool {
    match value_of(fields, SEC_WEBSOCKET_EXTENSIONS@) {
        Some(value) => visible(value) && mentions(value, encode_utf8(PERMESSAGE_DEFLATE@)),
        None => false,
    }
}

/// Whether the fields of a request ask for an upgrade.
pub open spec fn asks_for_upgrade(fields: Seq<Field>) -> bool {
    &&& value_of(fields, SEC_WEBSOCKET_KEY@) is Some
    &&& value_of(fields, SEC_WEBSOCKET_VERSION@) == Some(encode_utf8(WEBSOCKET_VERSION_STR@))
}

/// The fields of the response to an upgrade.
pub open spec fn upgrade_fields(answer: Seq<char>, deflate: bool) -> Seq<Field> {
    let start = with_field(
        with_field(
            with_field(Seq::empty(), CONNECTION@, seq![encode_utf8(UPGRADE_STR@)]),
            UPGRADE@,
            seq![encode_utf8(WEBSOCKET_STR@)],
        ),
        SEC_WEBSOCKET_ACCEPT@,
        seq![encode_utf8(answer)],
    );
    if deflate {
        with_field(start, SEC_WEBSOCKET_EXTENSIONS@, seq![encode_utf8(PERMESSAGE_DEFLATE@)])
    } else {
        start
    }
}

impl WebSocketUpgrade {
    /// The answer to the client's key.
    pub open spec fn answer(self) -> Seq<char> {
        self.key@
    }

    /// The fields of the request.
    pub open spec fn received(self) -> Seq<Field> {
        fields(self.headers)
    }

    /// The answer is written in Base64.
    pub open spec fn wf(self) -> bool {
        forall|i: int| 0 <= i < self.answer().len() ==> base64_char(#[trigger] self.answer()[i])
    }

    /// Reads a request to upgrade a connection from its header fields. `upgradable` tells whether the
    /// connection that it came on can be upgraded. Fails with a status code.
    pub fn from_request_parts(headers: &HeaderMap, upgradable: bool) -> (result: Result<
        WebSocketUpgrade,
        u16,
    >)
        ensures
            match result {
                Ok(upgrade) => {
                    &&& asks_for_upgrade(fields(*headers)) && upgradable
                    &&& upgrade.wf()
                    &&& upgrade.answer() == answer_to(
                        value_of(fields(*headers), SEC_WEBSOCKET_KEY@)->0,
                    )
                    &&& upgrade.received() == fields(*headers)
                    &&& upgrade.permessage_deflate == offers_deflate(fields(*headers))
                },
                Err(status) => !(asks_for_upgrade(fields(*headers)) && upgradable) && status
                    == BAD_REQUEST,
            },
    {
        proof {
            lemma_plain_names();
        }
        let key = match get(headers, SEC_WEBSOCKET_KEY) {
            Some(key) => key,
            None => return Err(BAD_REQUEST),
        };
        match get(headers, SEC_WEBSOCKET_VERSION) {
            Some(version) if eq_bytes(
                version.as_bytes(),
                WEBSOCKET_VERSION_STR.as_bytes(),
            ) => {},
            _ => return Err(BAD_REQUEST),
        }
        let permessage_deflate = match get(headers, SEC_WEBSOCKET_EXTENSIONS) {
            Some(value) => value_str(value).is_some() && contains_ignore_case(
                value.as_bytes(),
                PERMESSAGE_DEFLATE.as_bytes(),
            ),
            None => false,
        };
        if !upgradable {
            return Err(BAD_REQUEST);
        }
        let key = accept_key(key.as_bytes());
        Ok(WebSocketUpgrade { key, headers: copy_map(headers), permessage_deflate })
    }

    /// The response that upgrades the connection, and the fields of the request.
    pub fn upgrade(self) -> (result: (Response, HeaderMap))
        requires
            self.wf(),
        ensures
            result.0@ == (ResponseView {
                status: 101,
                version: Version::Http11,
                fields: upgrade_fields(self.answer(), self.permessage_deflate),
            }),
            fields(result.1) == self.received(),
    {
        let mut headers = empty_map();
        proof {
            lemma_plain_names();
            lemma_plain_values();
            assert(is_ascii_chars(self.key@));
            is_ascii_chars_encode_utf8(self.key@);
            assert(field_value(encode_utf8(self.key@)));
            lemma_deflate_visible();
            lemma_with_field(
                Seq::empty(),
                CONNECTION@,
                seq![encode_utf8(UPGRADE_STR@)],
                CONNECTION@,
            );
        }
        let _done = insert(&mut headers, static_name(CONNECTION), static_value(UPGRADE_STR));
        proof {
            lemma_with_field(
                fields(headers),
                UPGRADE@,
                seq![encode_utf8(WEBSOCKET_STR@)],
                UPGRADE@,
            );
        }
        let _done = insert(&mut headers, static_name(UPGRADE), static_value(WEBSOCKET_STR));
        proof {
            lemma_with_field(
                fields(headers),
                SEC_WEBSOCKET_ACCEPT@,
                seq![encode_utf8(self.key@)],
                SEC_WEBSOCKET_ACCEPT@,
            );
        }
        if let Some(answer) = make_value(self.key.as_str().as_bytes()) {
            let _done = insert(&mut headers, static_name(SEC_WEBSOCKET_ACCEPT), answer);
        }
        if self.permessage_deflate {
            let _done = insert(
                &mut headers,
                static_name(SEC_WEBSOCKET_EXTENSIONS),
                static_value(PERMESSAGE_DEFLATE),
            );
        }
        (Response { status: 101, version: Version::Http11, headers }, self.headers)
    }
}

/// The name of the extension that compresses messages is visible in ASCII.
proof fn lemma_deflate_visible()
    ensures
        visible(encode_utf8(PERMESSAGE_DEFLATE@)),
{
    reveal_strlit("permessage-deflate");
    assert(is_ascii_chars(PERMESSAGE_DEFLATE@));
    is_ascii_chars_encode_utf8(PERMESSAGE_DEFLATE@);
}

} // verus!
