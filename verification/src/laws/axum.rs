//! What upgrades within another HTTP server come to.

use crate::ascii::{mentions, same_but_case};
use crate::axum::WebSocketUpgrade;
use crate::handshake::laws::lemma_name_lengths;
use crate::http_types::{
    fields, lemma_with_field, value_of, values_of, visible, with_field, Response,
};
use crate::laws::client::owed_answer;
use crate::laws::values::same_letters;
use http::HeaderMap;
use vstd::prelude::*;
use vstd::utf8::encode_utf8;

verus! {

/// Whether a value offers to compress messages: the name of that extension stands somewhere in it,
/// without regard to the case of letters.
pub open spec fn offers_compression(value: Seq<u8>) -> bool {
    visible(value) && exists|i: int, j: int|
        0 <= i <= j <= value.len() && same_letters(
            #[trigger] value.subrange(i, j),
            encode_utf8("permessage-deflate"@),
        )
}

/// A request is upgraded if it has a key and names version 13 of the protocol, and if its
/// connection can be upgraded. Everything else is a bad request. The response answers the key and
/// compresses messages if and only if the client offers to.
pub proof fn law_request_upgraded(
    headers: &HeaderMap,
    upgradable: bool,
    result: Result<WebSocketUpgrade, u16>,
    response: Response,
    received: HeaderMap,
)
    requires
        call_ensures(WebSocketUpgrade::from_request_parts, (headers, upgradable), result),
        result matches Ok(upgrade) ==> call_ensures(
            WebSocketUpgrade::upgrade,
            (upgrade,),
            (response, received),
        ),
    ensures
        ({
            let asked = fields(*headers);
            let key = value_of(asked, "sec-websocket-key"@);
            let fits = key is Some && value_of(asked, "sec-websocket-version"@) == Some(
                encode_utf8("13"@),
            ) && upgradable;
            let compressed = value_of(asked, "sec-websocket-extensions"@) matches Some(value)
                && offers_compression(value);
            match result {
                Err(status) => !fits && status == 400,
                Ok(upgrade) => {
                    &&& fits
                    &&& upgrade.permessage_deflate == compressed
                    &&& response@.status == 101
                    &&& response@.version is Http11
                    &&& values_of(response@.fields, "connection"@) == seq![encode_utf8("upgrade"@)]
                    &&& values_of(response@.fields, "upgrade"@) == seq![encode_utf8("websocket"@)]
                    &&& values_of(response@.fields, "sec-websocket-accept"@) == seq![
                        encode_utf8(owed_answer(key->0)),
                    ]
                    &&& values_of(response@.fields, "sec-websocket-extensions"@) == if compressed {
                        seq![encode_utf8("permessage-deflate"@)]
                    } else {
                        Seq::empty()
                    }
                    &&& fields(received) == asked
                },
            }
        }),
{
    lemma_name_lengths();
    let asked = fields(*headers);
    if let Some(value) = value_of(asked, "sec-websocket-extensions"@) {
        lemma_mentions(value);
    }
    if let Ok(upgrade) = result {
        let connection = seq![encode_utf8("upgrade"@)];
        let protocol = seq![encode_utf8("websocket"@)];
        let answer = seq![encode_utf8(upgrade.answer())];
        let compression = seq![encode_utf8("permessage-deflate"@)];
        let f1 = with_field(Seq::empty(), "connection"@, connection);
        let f2 = with_field(f1, "upgrade"@, protocol);
        let f3 = with_field(f2, "sec-websocket-accept"@, answer);
        assert forall|name: Seq<char>| #[trigger] values_of(response@.fields, name) == (
        if upgrade.permessage_deflate && name == "sec-websocket-extensions"@ {
            compression
        } else if name == "sec-websocket-accept"@ {
            answer
        } else if name == "upgrade"@ {
            protocol
        } else if name == "connection"@ {
            connection
        } else {
            Seq::empty()
        }) by {
            lemma_with_field(Seq::empty(), "connection"@, connection, name);
            lemma_with_field(f1, "upgrade"@, protocol, name);
            lemma_with_field(f2, "sec-websocket-accept"@, answer, name);
            lemma_with_field(f3, "sec-websocket-extensions"@, compression, name);
        }
    }
}

/// What a value that mentions an extension is.
proof fn lemma_mentions(value: Seq<u8>)
    ensures
        visible(value) && mentions(value, encode_utf8("permessage-deflate"@))
            <==> offers_compression(value),
{
    let name = encode_utf8("permessage-deflate"@);
    if visible(value) && mentions(value, name) {
        let i = choose|i: int|
            0 <= i && i + name.len() <= value.len() && same_but_case(
                #[trigger] value.subrange(i, i + name.len()),
                name,
            );
        let part = value.subrange(i, i + name.len());
        assert(same_letters(part, name));
    }
    if offers_compression(value) {
        let (i, j) = choose|i: int, j: int|
            0 <= i <= j <= value.len() && same_letters(#[trigger] value.subrange(i, j), name);
        assert(value.subrange(i, j) == value.subrange(i, i + name.len()));
        assert(same_but_case(value.subrange(i, i + name.len()), name));
    }
}

} // verus!
