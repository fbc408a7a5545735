//! Laws of the opening handshake.

use crate::ascii::{item_at, lists, lower_byte, same_but_case, separator};
use crate::crypto::answer_to;
use crate::errors::{ErrorView, HttpErrorView};
use crate::handshake::client::encoding::{completed, settled, ValidatedRequestView};
use crate::handshake::client::response_check;
use crate::handshake::server::{answered, host_fault, single, upgrade_fault};
use crate::handshake::subprotocols::{
    accepted, blank, first_comma, first_of, listed, offers, selected, trimmed, with_listing,
};
use crate::handshake::{
    item_fault, value_fault, UPGRADE_OPTION, UPGRADE_STR, WEBSOCKET_STR, WEBSOCKET_VERSION_STR,
};
use crate::http_types::{
    ascii_text, lemma_with_field, value_of, values_of, visible, visible_byte, with_field, Field,
    ResponseView, UriView, Version, CONNECTION, HOST, SEC_WEBSOCKET_ACCEPT,
    SEC_WEBSOCKET_EXTENSIONS, SEC_WEBSOCKET_KEY, SEC_WEBSOCKET_PROTOCOL, SEC_WEBSOCKET_VERSION,
    UPGRADE,
};
use vstd::prelude::*;
use vstd::utf8::{encode_utf8, is_ascii_chars, is_ascii_chars_encode_utf8};

verus! {

/// The names that the handshake uses have different lengths.
pub(crate) proof fn lemma_name_lengths()
    ensures
        HOST@.len() == 4,
        UPGRADE@.len() == 7,
        CONNECTION@.len() == 10,
        SEC_WEBSOCKET_KEY@.len() == 17,
        SEC_WEBSOCKET_ACCEPT@.len() == 20,
        SEC_WEBSOCKET_VERSION@.len() == 21,
        SEC_WEBSOCKET_PROTOCOL@.len() == 22,
        SEC_WEBSOCKET_EXTENSIONS@.len() == 24,
{
    reveal_strlit("host");
    reveal_strlit("upgrade");
    reveal_strlit("connection");
    reveal_strlit("sec-websocket-key");
    reveal_strlit("sec-websocket-accept");
    reveal_strlit("sec-websocket-version");
    reveal_strlit("sec-websocket-protocol");
    reveal_strlit("sec-websocket-extensions");
}

/// Whether every character of text is visible in ASCII or a tab.
pub open spec fn visible_text(text: Seq<char>) -> bool {
    forall|i: int| 0 <= i < text.len() ==> ' ' <= #[trigger] text[i] <= '~' || text[i] == '\t'
}

/// Visible text is read back from its bytes.
proof fn lemma_visible_text(text: Seq<char>)
    requires
        visible_text(text),
    ensures
        visible(encode_utf8(text)),
        ascii_text(encode_utf8(text)) == text,
{
    assert(is_ascii_chars(text));
    is_ascii_chars_encode_utf8(text);
    let bytes = encode_utf8(text);
    assert forall|i: int| 0 <= i < bytes.len() implies visible_byte(#[trigger] bytes[i]) by {
        assert(text[i] as u8 == bytes[i]);
    }
    assert forall|i: int| 0 <= i < text.len() implies ascii_text(bytes)[i] == text[i] by {
        assert(text[i] as u8 == bytes[i]);
    }
    assert(ascii_text(bytes) =~= text);
}

/// A subprotocol that is both offered and selected, as the client reads it.
proof fn lemma_accepted_back(name: Seq<char>, offered: Seq<Seq<char>>)
    requires
        visible_text(name),
        offered.contains(name),
    ensures
        accepted(seq![encode_utf8(name)], offered) == Ok::<
            Option<Seq<char>>,
            crate::errors::ProtocolErrorView,
        >(Some(name)),
{
    lemma_visible_text(name);
}

/// What the fields of an answer are.
pub(crate) proof fn lemma_answered_fields(
    extra: Seq<Field>,
    key: Seq<u8>,
    connection: Seq<char>,
    subprotocol: Option<Seq<char>>,
    extension_header: Option<Seq<u8>>,
    name: Seq<char>,
)
    requires
        answered(extra, key, connection, subprotocol, extension_header) is Ok,
    ensures
        ({
            let fields = answered(extra, key, connection, subprotocol, extension_header)->Ok_0;
            values_of(fields, name) == if extension_header is Some && name
                == SEC_WEBSOCKET_EXTENSIONS@ {
                seq![extension_header->0]
            } else if subprotocol is Some && name == SEC_WEBSOCKET_PROTOCOL@ {
                seq![encode_utf8(subprotocol->0)]
            } else if name == CONNECTION@ {
                seq![encode_utf8(connection)]
            } else if name == UPGRADE@ {
                seq![encode_utf8(WEBSOCKET_STR@)]
            } else if name == SEC_WEBSOCKET_ACCEPT@ {
                seq![encode_utf8(answer_to(key))]
            } else {
                values_of(extra, name)
            }
        }),
{
    lemma_name_lengths();
    let answer = seq![encode_utf8(answer_to(key))];
    let f1 = with_field(extra, SEC_WEBSOCKET_ACCEPT@, answer);
    let f2 = with_field(f1, UPGRADE@, seq![encode_utf8(WEBSOCKET_STR@)]);
    let f3 = with_field(f2, CONNECTION@, seq![encode_utf8(connection)]);
    lemma_with_field(extra, SEC_WEBSOCKET_ACCEPT@, answer, name);
    lemma_with_field(f1, UPGRADE@, seq![encode_utf8(WEBSOCKET_STR@)], name);
    lemma_with_field(f2, CONNECTION@, seq![encode_utf8(connection)], name);
    let f4 = match subprotocol {
        Some(protocol) => {
            lemma_with_field(f3, SEC_WEBSOCKET_PROTOCOL@, seq![encode_utf8(protocol)], name);
            with_field(f3, SEC_WEBSOCKET_PROTOCOL@, seq![encode_utf8(protocol)])
        },
        None => f3,
    };
    if let Some(value) = extension_header {
        lemma_with_field(f4, SEC_WEBSOCKET_EXTENSIONS@, seq![value], name);
    }
}

/// The option of a connection that responses have differs from what clients expect at most in the case
/// of letters.
proof fn lemma_connection_option()
    ensures
        same_but_case(encode_utf8(UPGRADE_OPTION@), encode_utf8(UPGRADE_STR@)),
{
    reveal_strlit("Upgrade");
    reveal_strlit("upgrade");
    assert(is_ascii_chars(UPGRADE_OPTION@));
    assert(is_ascii_chars(UPGRADE_STR@));
    is_ascii_chars_encode_utf8(UPGRADE_OPTION@);
    is_ascii_chars_encode_utf8(UPGRADE_STR@);
}

/// The answer of a server to a client's key is accepted by that client, with the subprotocol that the
/// server has selected, if the client has offered it.
pub proof fn lemma_answer_accepted(
    extra: Seq<Field>,
    key: Seq<u8>,
    connection: Seq<char>,
    subprotocol: Option<Seq<char>>,
    extension_header: Option<Seq<u8>>,
    offered: Seq<Seq<char>>,
)
    requires
        connection == UPGRADE_STR@ || connection == UPGRADE_OPTION@,
        answered(extra, key, connection, subprotocol, extension_header) is Ok,
        match subprotocol {
            Some(name) => visible_text(name) && offered.contains(name),
            None => values_of(extra, SEC_WEBSOCKET_PROTOCOL@).len() == 0,
        },
    ensures
        response_check(
            ResponseView {
                status: 101,
                version: Version::Http11,
                fields: answered(extra, key, connection, subprotocol, extension_header)->Ok_0,
            },
            key,
            offered,
        ) == Ok::<Option<Seq<char>>, ErrorView>(subprotocol),
{
    lemma_name_lengths();
    lemma_connection_option();
    lemma_answered_fields(extra, key, connection, subprotocol, extension_header, UPGRADE@);
    lemma_answered_fields(extra, key, connection, subprotocol, extension_header, CONNECTION@);
    lemma_answered_fields(extra, key, connection, subprotocol, extension_header, SEC_WEBSOCKET_ACCEPT@);
    lemma_answered_fields(extra, key, connection, subprotocol, extension_header, SEC_WEBSOCKET_PROTOCOL@);
    if let Some(name) = subprotocol {
        lemma_accepted_back(name, offered);
    }
}

/// An answer to one key is rejected by a client that has sent another one, unless both have the same
/// answer.
pub proof fn lemma_other_answer_rejected(
    extra: Seq<Field>,
    key: Seq<u8>,
    sent: Seq<u8>,
    connection: Seq<char>,
    subprotocol: Option<Seq<char>>,
    extension_header: Option<Seq<u8>>,
    offered: Seq<Seq<char>>,
)
    requires
        connection == UPGRADE_STR@ || connection == UPGRADE_OPTION@,
        answered(extra, key, connection, subprotocol, extension_header) is Ok,
        encode_utf8(answer_to(key)) != encode_utf8(answer_to(sent)),
    ensures
        response_check(
            ResponseView {
                status: 101,
                version: Version::Http11,
                fields: answered(extra, key, connection, subprotocol, extension_header)->Ok_0,
            },
            sent,
            offered,
        ) == Err::<Option<Seq<char>>, ErrorView>(
            crate::errors::http_fault(HttpErrorView::KeyMismatch),
        ),
{
    lemma_name_lengths();
    lemma_connection_option();
    lemma_answered_fields(extra, key, connection, subprotocol, extension_header, UPGRADE@);
    lemma_answered_fields(extra, key, connection, subprotocol, extension_header, CONNECTION@);
    lemma_answered_fields(extra, key, connection, subprotocol, extension_header, SEC_WEBSOCKET_ACCEPT@);
}

/// What a field that has been settled is, and that the others are left.
pub(crate) proof fn lemma_settled(fields: Seq<Field>, name: Seq<char>, expected: Seq<u8>, other: Seq<char>)
    requires
        settled(fields, name, expected) is Ok,
    ensures
        ({
            let after = settled(fields, name, expected)->Ok_0;
            &&& value_of(after, name) matches Some(value) && same_but_case(value, expected)
            &&& values_of(fields, name).len() <= 1 ==> values_of(after, name).len() == 1
            &&& other != name ==> values_of(after, other) == values_of(fields, other)
        }),
{
    lemma_with_field(fields, name, seq![expected], name);
    lemma_with_field(fields, name, seq![expected], other);
}

/// Bytes that differ from a single item only in the case of letters are a single item.
proof fn lemma_single_but_case(a: Seq<u8>, b: Seq<u8>)
    requires
        same_but_case(a, b),
        single(b),
    ensures
        single(a),
        lists(a, b),
{
    assert forall|i: int| 0 <= i < a.len() implies !separator(#[trigger] a[i]) by {
        assert(lower_byte(a[i]) == lower_byte(b[i]));
        assert(!separator(b[i]));
    }
    assert(item_at(a, 0, a.len() as int));
    assert(a.subrange(0, a.len() as int) =~= a);
}

/// The request of a client is accepted by a server, up to the subprotocols and extensions: if the
/// target's authority is one host, and if the fields that the user and the extension have added name
/// no more than one host.
pub proof fn lemma_request_accepted(
    uri: UriView,
    extended: Seq<Field>,
    listing: Option<Seq<u8>>,
    request: ValidatedRequestView,
    key: Seq<u8>,
)
    requires
        completed(uri, Version::Http11, extended, listing) == Ok::<ValidatedRequestView, ErrorView>(
            request,
        ),
        values_of(extended, HOST@).len() <= 1,
        single(encode_utf8(request.host)),
    ensures
        upgrade_fault(
            Version::Http11,
            "GET"@,
            with_field(request.fields, SEC_WEBSOCKET_KEY@, seq![key]),
        ) is None,
        value_of(
            with_field(request.fields, SEC_WEBSOCKET_KEY@, seq![key]),
            SEC_WEBSOCKET_KEY@,
        ) == Some(key),
{
    lemma_name_lengths();
    let host = encode_utf8(request.host);
    let upgrade = encode_utf8(UPGRADE_STR@);
    let websocket = encode_utf8(WEBSOCKET_STR@);
    let number = encode_utf8(WEBSOCKET_VERSION_STR@);
    let f1 = settled(extended, HOST@, host)->Ok_0;
    let f2 = settled(f1, CONNECTION@, upgrade)->Ok_0;
    let f3 = settled(f2, UPGRADE@, websocket)->Ok_0;
    let f4 = settled(f3, SEC_WEBSOCKET_VERSION@, number)->Ok_0;
    let f5 = with_listing(f4, listing);
    let f6 = with_field(f5, SEC_WEBSOCKET_KEY@, seq![key]);
    assert(request.fields == f5);
    assert forall|name: Seq<char>|
        name == HOST@ || name == CONNECTION@ || name == UPGRADE@ || name
            == SEC_WEBSOCKET_VERSION@ implies #[trigger] values_of(f6, name) == values_of(
        f4,
        name,
    ) by {
        lemma_with_field(f5, SEC_WEBSOCKET_KEY@, seq![key], name);
        if let Some(value) = listing {
            lemma_with_field(f4, SEC_WEBSOCKET_PROTOCOL@, seq![value], name);
        }
    }
    lemma_with_field(f5, SEC_WEBSOCKET_KEY@, seq![key], SEC_WEBSOCKET_KEY@);
    lemma_settled(extended, HOST@, host, HOST@);
    lemma_settled(f1, CONNECTION@, upgrade, HOST@);
    lemma_settled(f2, UPGRADE@, websocket, HOST@);
    lemma_settled(f3, SEC_WEBSOCKET_VERSION@, number, HOST@);
    lemma_settled(f2, UPGRADE@, websocket, CONNECTION@);
    lemma_settled(f3, SEC_WEBSOCKET_VERSION@, number, CONNECTION@);
    lemma_settled(f3, SEC_WEBSOCKET_VERSION@, number, UPGRADE@);
    assert(values_of(f6, HOST@) == values_of(f1, HOST@));
    assert(values_of(f6, CONNECTION@) == values_of(f2, CONNECTION@));
    assert(values_of(f6, UPGRADE@) == values_of(f3, UPGRADE@));
    assert(values_of(f6, SEC_WEBSOCKET_VERSION@) == values_of(f4, SEC_WEBSOCKET_VERSION@));
    lemma_single_but_case(values_of(f1, HOST@)[0], host);
    lemma_upgrade_single();
    lemma_single_but_case(values_of(f2, CONNECTION@)[0], upgrade);
    assert(host_fault(f6) is None);
    assert(item_fault(f6, CONNECTION@, UPGRADE_STR@) is None);
    assert(value_fault(f6, UPGRADE@, WEBSOCKET_STR@) is None);
    assert(value_fault(f6, SEC_WEBSOCKET_VERSION@, WEBSOCKET_VERSION_STR@) is None);
}

/// The option of a connection that switches protocols is a single item.
proof fn lemma_upgrade_single()
    ensures
        single(encode_utf8(UPGRADE_STR@)),
{
    reveal_strlit("upgrade");
    assert(is_ascii_chars(UPGRADE_STR@));
    is_ascii_chars_encode_utf8(UPGRADE_STR@);
}

/// Whether text can be an item of a list: it has no comma and no blanks at its ends.
pub open spec fn item_text(text: Seq<char>) -> bool {
    &&& forall|i: int| 0 <= i < text.len() ==> #[trigger] text[i] != ','
    &&& trimmed(text) == text
}

/// Where the first comma is.
proof fn lemma_comma_at(text: Seq<char>)
    ensures
        0 <= first_comma(text) <= text.len(),
        first_comma(text) < text.len() ==> text[first_comma(text)] == ',',
        forall|i: int| 0 <= i < first_comma(text) ==> #[trigger] text[i] != ',',
    decreases text.len(),
{
    if text.len() > 0 && text[0] != ',' {
        lemma_comma_at(text.skip(1));
        assert forall|i: int| 0 <= i < first_comma(text) implies #[trigger] text[i] != ',' by {
            if i > 0 {
                assert(text.skip(1)[i - 1] == text[i]);
            }
        }
    }
}

/// There is only one first comma.
pub(crate) proof fn lemma_comma_is(text: Seq<char>, end: int)
    requires
        0 <= end <= text.len(),
        forall|i: int| 0 <= i < end ==> #[trigger] text[i] != ',',
        end < text.len() ==> text[end] == ',',
    ensures
        first_comma(text) == end,
{
    lemma_comma_at(text);
    let found = first_comma(text);
    if found < end {
        assert(text[found] != ',');
    } else if end < found {
        assert(text[end] != ',');
    }
}

/// An item behind a list, and a comma between them, is the last item of the whole.
pub(crate) proof fn lemma_offers_append(list: Seq<char>, item: Seq<char>)
    requires
        forall|i: int| 0 <= i < item.len() ==> #[trigger] item[i] != ',',
    ensures
        offers(list + seq![','] + item) == offers(list).push(trimmed(item)),
    decreases list.len(),
{
    let whole = list + seq![','] + item;
    let end = first_comma(list);
    lemma_comma_at(list);
    assert(whole[list.len() as int] == ',');
    assert forall|i: int| 0 <= i < end implies #[trigger] whole[i] != ',' by {
        assert(whole[i] == list[i]);
    }
    if end < list.len() {
        assert(whole[end] == list[end]);
        lemma_comma_is(whole, end);
        assert(whole.take(end) =~= list.take(end));
        assert(whole.skip(end + 1) =~= list.skip(end + 1) + seq![','] + item);
        lemma_offers_append(list.skip(end + 1), item);
        assert(offers(whole) =~= offers(list).push(trimmed(item)));
    } else {
        lemma_comma_is(whole, end);
        assert(whole.take(end) =~= list);
        assert(whole.skip(end + 1) =~= item);
        lemma_comma_is(item, item.len() as int);
        assert(offers(item) =~= seq![trimmed(item)]);
        assert(offers(whole) =~= offers(list).push(trimmed(item)));
    }
}

/// The items of a list are the texts that were put in it, in order.
pub proof fn lemma_listed_offers(names: Seq<Seq<char>>)
    requires
        names.len() > 0,
        forall|i: int| 0 <= i < names.len() ==> item_text(#[trigger] names[i]),
    ensures
        offers(listed(names)) == names,
    decreases names.len(),
{
    let last = names.last();
    if names.len() == 1 {
        assert(item_text(names[0]));
        lemma_comma_is(names[0], names[0].len() as int);
        assert(offers(listed(names)) =~= names);
    } else {
        let before = names.drop_last();
        assert forall|i: int| 0 <= i < before.len() implies item_text(#[trigger] before[i]) by {
            assert(before[i] == names[i]);
        }
        lemma_listed_offers(before);
        assert(item_text(last));
        reveal_strlit(", ");
        let spaced = seq![' '] + last;
        assert(listed(names) =~= listed(before) + seq![','] + spaced);
        assert forall|i: int| 0 <= i < spaced.len() implies #[trigger] spaced[i] != ',' by {
            if i > 0 {
                assert(spaced[i] == last[i - 1]);
            }
        }
        lemma_offers_append(listed(before), spaced);
        assert(blank(spaced[0]));
        assert(spaced.skip(1) =~= last);
        assert(trimmed(spaced) == trimmed(last));
        assert(offers(listed(names)) =~= names);
    }
}

/// A list of visible texts is visible.
proof fn lemma_listed_visible(names: Seq<Seq<char>>)
    requires
        forall|i: int| 0 <= i < names.len() ==> visible_text(#[trigger] names[i]),
    ensures
        visible_text(listed(names)),
    decreases names.len(),
{
    if names.len() == 1 {
        assert(visible_text(names[0]));
    } else if names.len() > 1 {
        lemma_listed_visible(names.drop_last());
        assert(visible_text(names[names.len() - 1]));
        reveal_strlit(", ");
    }
}

/// The first of the offers that is registered is one of them, and registered.
proof fn lemma_first_of(offered: Seq<Seq<char>>, registered: Seq<Seq<char>>)
    ensures
        first_of(offered, registered) matches Some(name) ==> offered.contains(name)
            && registered.contains(name),
    decreases offered.len(),
{
    if offered.len() > 0 && !registered.contains(offered[0]) {
        lemma_first_of(offered.skip(1), registered);
        if let Some(name) = first_of(offered, registered) {
            let i = choose|i: int| 0 <= i < offered.skip(1).len() && offered.skip(1)[i] == name;
            assert(offered[i + 1] == name);
        }
    }
}

/// Client and server agree on a subprotocol: of those that the client has listed, the server selects
/// the first one that it supports, and the client accepts it.
pub proof fn lemma_subprotocol_agreed(offered: Seq<Seq<char>>, supported: Seq<Seq<char>>)
    requires
        offered.len() > 0,
        forall|i: int| 0 <= i < offered.len() ==> item_text(#[trigger] offered[i]) && visible_text(
            offered[i],
        ),
    ensures
        selected(seq![encode_utf8(listed(offered))], supported) == Ok::<
            Option<Seq<char>>,
            crate::errors::ProtocolErrorView,
        >(first_of(offered, supported)),
        first_of(offered, supported) matches Some(name) ==> accepted(
            seq![encode_utf8(name)],
            offered,
        ) == Ok::<Option<Seq<char>>, crate::errors::ProtocolErrorView>(Some(name)),
{
    let value = encode_utf8(listed(offered));
    lemma_listed_visible(offered);
    lemma_visible_text(listed(offered));
    lemma_listed_offers(offered);
    assert(selected(seq![value].skip(1), supported) == Ok::<
        Option<Seq<char>>,
        crate::errors::ProtocolErrorView,
    >(None)) by {
        assert(seq![value].skip(1) =~= Seq::empty());
    }
    lemma_first_of(offered, supported);
    if let Some(name) = first_of(offered, supported) {
        let i = choose|i: int| 0 <= i < offered.len() && offered[i] == name;
        assert(visible_text(offered[i]));
        lemma_accepted_back(name, offered);
    }
}

/// A server never selects a subprotocol that it does not support.
pub proof fn lemma_selected_is_supported(values: Seq<Seq<u8>>, supported: Seq<Seq<char>>)
    ensures
        selected(values, supported) matches Ok(Some(name)) ==> supported.contains(name),
    decreases values.len(),
{
    if values.len() > 0 && visible(values[0]) {
        lemma_first_of(offers(ascii_text(values[0])), supported);
        lemma_selected_is_supported(values.skip(1), supported);
    }
}

} // verus!
