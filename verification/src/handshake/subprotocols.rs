//! Negotiation of subprotocols.

use crate::errors::{http_fault, Error, HttpError, HttpErrorView, ProtocolError, ProtocolErrorView};
use crate::http_types::{
    ascii_text, field_value, fields, get_all, insert, lemma_plain_names, make_value, static_name,
    value_bytes, value_str, values_of, visible, with_field, Field, MAP_ROOM, SEC_WEBSOCKET_PROTOCOL,
};
use crate::text::eq_text;
use http::{HeaderMap, HeaderValue};
use vstd::prelude::*;
use vstd::utf8::encode_utf8;

verus! {

/// A subprotocol registry that is used for negotiating a possible subprotocol to use for a
/// connection.
#[derive(Debug)]
pub struct SubprotocolRegistry {
    registrants: Vec<String>,
    header: Option<HeaderValue>,
}

/// The texts of strings.
pub open spec fn texts_of(strings: Seq<String>) -> Seq<Seq<char>> {
    Seq::new(strings.len(), |i: int| strings[i]@)
}

/// Texts, each only where it occurs first.
pub open spec fn distinct(texts: Seq<Seq<char>>) -> Seq<Seq<char>>
    decreases texts.len(),
{
    if texts.len() == 0 {
        Seq::empty()
    } else {
        let before = distinct(texts.drop_last());
        if before.contains(texts.last()) {
            before
        } else {
            before.push(texts.last())
        }
    }
}

/// Texts in a list, separated by a comma and a space.
pub open spec fn listed(texts: Seq<Seq<char>>) -> Seq<char>
    decreases texts.len(),
{
    if texts.len() == 0 {
        Seq::empty()
    } else if texts.len() == 1 {
        texts[0]
    } else {
        listed(texts.drop_last()) + ", "@ + texts.last()
    }
}

/// Whether a character is trimmed off the ends of a list's items.
pub open spec fn blank(c: char) -> bool {
    c == ' ' || c == '\t'
}

/// Text without the blanks in front.
pub open spec fn trim_start(text: Seq<char>) -> Seq<char>
    decreases text.len(),
{
    if text.len() > 0 && blank(text[0]) {
        trim_start(text.skip(1))
    } else {
        text
    }
}

/// Text without the blanks behind.
pub open spec fn trim_end(text: Seq<char>) -> Seq<char>
    decreases text.len(),
{
    if text.len() > 0 && blank(text.last()) {
        trim_end(text.drop_last())
    } else {
        text
    }
}

/// Text without the blanks on both sides.
pub open spec fn trimmed(text: Seq<char>) -> Seq<char> {
    trim_end(trim_start(text))
}

/// The position of the first comma, or the length.
pub open spec fn first_comma(text: Seq<char>) -> int
    decreases text.len(),
{
    if text.len() == 0 || text[0] == ',' {
        0
    } else {
        1 + first_comma(text.skip(1))
    }
}

/// The items of a list that is separated by commas.
pub open spec fn offers(text: Seq<char>) -> Seq<Seq<char>>
    decreases text.len(),
{
    let end = first_comma(text);
    if 0 <= end < text.len() {
        seq![trimmed(text.take(end))] + offers(text.skip(end + 1))
    } else {
        seq![trimmed(text)]
    }
}

/// The first of the offers that is among the registered subprotocols.
pub open spec fn first_of(offers: Seq<Seq<char>>, registered: Seq<Seq<char>>) -> Option<Seq<char>>
    decreases offers.len(),
{
    if offers.len() == 0 {
        None
    } else if registered.contains(offers[0]) {
        Some(offers[0])
    } else {
        first_of(offers.skip(1), registered)
    }
}

/// The subprotocol that is selected of those that a client offers in the values of a field: the first
/// one that is registered. A value that is not text is an error, if it is reached.
pub open spec fn selected(values: Seq<Seq<u8>>, registered: Seq<Seq<char>>) -> Result<
    Option<Seq<char>>,
    ProtocolErrorView,
>
    decreases values.len(),
{
    if values.len() == 0 {
        Ok(None)
    } else if !visible(values[0]) {
        Err(ProtocolErrorView::Encoding)
    } else {
        match first_of(offers(ascii_text(values[0])), registered) {
            Some(protocol) => Ok(Some(protocol)),
            None => selected(values.skip(1), registered),
        }
    }
}

/// The subprotocol that a server has accepted in the values of a field.
pub open spec fn accepted(values: Seq<Seq<u8>>, registered: Seq<Seq<char>>) -> Result<
    Option<Seq<char>>,
    ProtocolErrorView,
> {
    if values.len() > 1 {
        Err(
            ProtocolErrorView::InvalidSubprotocolHeader("Server returned too many subprotocols"@),
        )
    } else if values.len() == 0 {
        Ok(None)
    } else if !visible(values[0]) {
        Err(ProtocolErrorView::Encoding)
    } else if registered.contains(ascii_text(values[0])) {
        Ok(Some(ascii_text(values[0])))
    } else {
        Err(ProtocolErrorView::InvalidSubprotocolHeader(ascii_text(values[0])))
    }
}

/// Whether a negotiation came to what it should.
pub open spec fn negotiated_as(
    result: Result<Option<String>, ProtocolError>,
    expected: Result<Option<Seq<char>>, ProtocolErrorView>,
) -> bool {
    match result {
        Ok(Some(protocol)) => expected == Ok::<Option<Seq<char>>, ProtocolErrorView>(
            Some(protocol@),
        ),
        Ok(None) => expected == Ok::<Option<Seq<char>>, ProtocolErrorView>(None),
        Err(e) => expected == Err::<Option<Seq<char>>, ProtocolErrorView>(e@),
    }
}

/// Tells whether text is among strings.
fn contains(strings: &Vec<String>, text: &str) -> (found: bool)
    ensures
        found == texts_of(strings@).contains(text@),
{
    let mut i: usize = 0;
    while i < strings.len()
        invariant
            i <= strings@.len(),
            forall|j: int| 0 <= j < i ==> strings@[j]@ != text@,
        decreases strings@.len() - i,
    {
        if eq_text(strings[i].as_str(), text) {
            assert(texts_of(strings@)[i as int] == text@);
            return true;
        }
        i = i + 1;
    }
    assert forall|j: int| 0 <= j < texts_of(strings@).len() implies texts_of(strings@)[j]
        != text@ by {
        assert(strings@[j]@ != text@);
    }
    false
}

/// ASCII text without the blanks on both sides.
fn trim(text: &str) -> (rest: &str)
    requires
        text.is_ascii(),
    ensures
        rest@ == trimmed(text@),
        rest.is_ascii(),
{
    let len: usize = text.unicode_len();
    let mut start: usize = 0;
    assert(text@.skip(0) =~= text@);
    while start < len && (text.get_ascii(start) == 32 || text.get_ascii(start) == 9)
        invariant
            text.is_ascii(),
            len == text@.len(),
            start <= len,
            trim_start(text@.skip(start as int)) == trim_start(text@),
        decreases len - start,
    {
        assert(blank(text@.skip(start as int)[0]));
        assert(text@.skip(start as int).skip(1) =~= text@.skip(start + 1));
        start = start + 1;
    }
    let ghost front = text@.skip(start as int);
    assert(trim_start(text@) == front);
    let mut end: usize = len;
    assert(front.take(len - start) =~= front);
    while start < end && (text.get_ascii(end - 1) == 32 || text.get_ascii(end - 1) == 9)
        invariant
            text.is_ascii(),
            len == text@.len(),
            start <= end <= len,
            front == text@.skip(start as int),
            trim_end(front.take(end - start)) == trim_end(front),
        decreases end,
    {
        assert(front.take(end - start).last() == text@[end - 1]);
        assert(blank(front.take(end - start).last()));
        assert(front.take(end - start).drop_last() =~= front.take(end - 1 - start));
        end = end - 1;
    }
    assert(text@.subrange(start as int, end as int) =~= front.take(end - start));
    if start < end {
        assert(front.take(end - start).last() == text@[end - 1]);
    }
    text.substring_ascii(start, end)
}

/// Where the first comma is, if there is none before `end` and there is one at `end`.
proof fn lemma_first_comma(text: Seq<char>, end: int)
    requires
        0 <= end <= text.len(),
        forall|i: int| 0 <= i < end ==> #[trigger] text[i] != ',',
        end < text.len() ==> text[end] == ',',
    ensures
        first_comma(text) == end,
    decreases end,
{
    if end > 0 {
        assert forall|i: int| 0 <= i < end - 1 implies #[trigger] text.skip(1)[i] != ',' by {
            assert(text.skip(1)[i] == text[i + 1]);
        }
        assert(text[0] != ',');
        lemma_first_comma(text.skip(1), end - 1);
    }
}

/// The first item of a list, and the others.
proof fn lemma_first_of_offers(text: Seq<char>, registered: Seq<Seq<char>>)
    ensures
        first_of(offers(text), registered) == {
            let end = first_comma(text);
            if 0 <= end < text.len() {
                let item = trimmed(text.take(end));
                if registered.contains(item) {
                    Some(item)
                } else {
                    first_of(offers(text.skip(end + 1)), registered)
                }
            } else if registered.contains(trimmed(text)) {
                Some(trimmed(text))
            } else {
                None
            }
        },
{
    let end = first_comma(text);
    if 0 <= end < text.len() {
        assert(offers(text).skip(1) =~= offers(text.skip(end + 1)));
    } else {
        assert(offers(text).skip(1) =~= Seq::<Seq<char>>::empty());
        assert(first_of(offers(text).skip(1), registered) is None);
    }
}

/// Finds the first item of a list that is registered.
fn find_offer(text: &str, registrants: &Vec<String>) -> (offer: Option<String>)
    requires
        text.is_ascii(),
    ensures
        match offer {
            Some(offer) => first_of(offers(text@), texts_of(registrants@)) == Some(offer@),
            None => first_of(offers(text@), texts_of(registrants@)) is None,
        },
{
    let ghost registered = texts_of(registrants@);
    let len: usize = text.unicode_len();
    let mut start: usize = 0;
    let mut end: usize = 0;
    assert(text@.skip(0) =~= text@);
    loop
        invariant
            text.is_ascii(),
            registered == texts_of(registrants@),
            len == text@.len(),
            start <= end <= len,
            forall|i: int| start <= i < end ==> #[trigger] text@[i] != ',',
            first_of(offers(text@), registered) == first_of(
                offers(text@.skip(start as int)),
                registered,
            ),
        decreases len - end,
    {
        if end == len || text.get_ascii(end) == 44 {
            let ghost rest = text@.skip(start as int);
            let item = trim(text.substring_ascii(start, end));
            proof {
                assert forall|i: int| 0 <= i < end - start implies #[trigger] rest[i] != ',' by {
                    assert(rest[i] == text@[start + i]);
                }
                if end < len {
                    assert(rest[end - start] == text@[end as int]);
                }
                lemma_first_comma(rest, end - start);
                lemma_first_of_offers(rest, registered);
                assert(text@.subrange(start as int, end as int) =~= rest.take(end - start));
                if end == len {
                    assert(rest.take(end - start) =~= rest);
                } else {
                    assert(rest.skip(end - start + 1) =~= text@.skip(end + 1));
                }
            }
            if contains(registrants, item) {
                return Some(item.to_string());
            }
            if end == len {
                return None;
            }
            start = end + 1;
        }
        end = end + 1;
    }
}

impl SubprotocolRegistry {
    /// The registered subprotocols, in the order of their priority.
    pub closed spec fn registered(self) -> Seq<Seq<char>> {
        texts_of(self.registrants@)
    }

    /// The value of the field that lists the registered subprotocols.
    pub closed spec fn listing(self) -> Option<Seq<u8>> {
        match self.header {
            Some(value) => Some(value_bytes(value)),
            None => None,
        }
    }

    /// Construct a new protocol registry that will allow the provided subprotocols. The priority of
    /// the subprotocols is specified by their order.
    pub fn new(protocols: Vec<String>) -> (registry: Result<SubprotocolRegistry, Error>)
        ensures
            ({
                let names = distinct(texts_of(protocols@));
                let list = listed(names);
                match registry {
                    Ok(registry) => {
                        &&& field_value(encode_utf8(list))
                        &&& registry.registered() == names
                        &&& registry.listing() == Some(encode_utf8(list))
                    },
                    Err(e) => !field_value(encode_utf8(list)) && e@ == http_fault(
                        HttpErrorView::MalformattedHeader(list),
                    ),
                }
            }),
    {
        let ghost all = texts_of(protocols@);
        let mut registrants: Vec<String> = Vec::new();
        let mut i: usize = 0;
        assert(texts_of(registrants@) =~= distinct(all.take(0)));
        while i < protocols.len()
            invariant
                i <= protocols@.len(),
                all == texts_of(protocols@),
                texts_of(registrants@) == distinct(all.take(i as int)),
            decreases protocols@.len() - i,
        {
            let ghost before = registrants@;
            assert(all.take(i + 1).drop_last() =~= all.take(i as int));
            assert(all.take(i + 1).last() == protocols@[i as int]@);
            if !contains(&registrants, protocols[i].as_str()) {
                registrants.push(protocols[i].clone());
                assert(texts_of(registrants@) =~= texts_of(before).push(protocols@[i as int]@));
            }
            i = i + 1;
        }
        assert(all.take(all.len() as int) =~= all);
        let list = join(&registrants);
        match make_value(list.as_str().as_bytes()) {
            Some(header) => Ok(SubprotocolRegistry { registrants, header: Some(header) }),
            None => Err(Error::http(HttpError::MalformattedHeader(list))),
        }
    }

    /// Attempts to negotiate a subprotocol offered by a client.
    ///
    /// # Returns
    /// The subprotocol that was negotiated if one was offered. Or an error if the client sent a
    /// malformed header.
    pub fn negotiate_client(&self, header_map: &HeaderMap) -> (result: Result<
        Option<String>,
        ProtocolError,
    >)
        ensures
            negotiated_as(
                result,
                selected(
                    values_of(fields(*header_map), SEC_WEBSOCKET_PROTOCOL@),
                    self.registered(),
                ),
            ),
    {
        proof {
            lemma_plain_names();
        }
        let ghost values = values_of(fields(*header_map), SEC_WEBSOCKET_PROTOCOL@);
        let headers = get_all(header_map, SEC_WEBSOCKET_PROTOCOL);
        let mut i: usize = 0;
        assert(values.skip(0) =~= values);
        while i < headers.len()
            invariant
                i <= headers@.len(),
                values == values_of(fields(*header_map), SEC_WEBSOCKET_PROTOCOL@),
                headers@.len() == values.len(),
                forall|j: int| 0 <= j < headers@.len() ==> value_bytes(*#[trigger] headers@[j])
                    == values[j],
                selected(values, self.registered()) == selected(
                    values.skip(i as int),
                    self.registered(),
                ),
            decreases headers@.len() - i,
        {
            assert(values.skip(i as int)[0] == values[i as int]);
            assert(values.skip(i as int).skip(1) =~= values.skip(i + 1));
            match value_str(headers[i]) {
                Some(text) => {
                    assert(text.is_ascii());
                    if let Some(offer) = find_offer(text, &self.registrants) {
                        return Ok(Some(offer));
                    }
                },
                None => return Err(ProtocolError::Encoding),
            }
            i = i + 1;
        }
        Ok(None)
    }

    /// Validate a server's response for the subprotocol. A server may send at most one
    /// `sec-websocket-protocol` header, and it must contain a subprotocol that was offered by the
    /// client.
    ///
    /// # Returns
    /// The subprotocol that was accepted by the server if one was offered. Or an error if the server
    /// responded with a malformed header.
    pub fn validate_accepted_subprotocol(&self, header_map: &HeaderMap) -> (result: Result<
        Option<String>,
        ProtocolError,
    >)
        ensures
            negotiated_as(
                result,
                accepted(
                    values_of(fields(*header_map), SEC_WEBSOCKET_PROTOCOL@),
                    self.registered(),
                ),
            ),
    {
        proof {
            lemma_plain_names();
        }
        let headers = get_all(header_map, SEC_WEBSOCKET_PROTOCOL);
        if headers.len() > 1 {
            return Err(
                ProtocolError::InvalidSubprotocolHeader(
                    "Server returned too many subprotocols".to_string(),
                ),
            );
        }
        if headers.len() == 0 {
            return Ok(None);
        }
        match value_str(headers[0]) {
            Some(text) => {
                if contains(&self.registrants, text) {
                    Ok(Some(text.to_string()))
                } else {
                    Err(ProtocolError::InvalidSubprotocolHeader(text.to_string()))
                }
            },
            None => Err(ProtocolError::Encoding),
        }
    }

    /// Applies a `sec-websocket-protocol` header to `target` if one has been registered. A map with
    /// up to 6553 names always has room for it: for a map with more, see `try_apply_to`.
    pub fn apply_to(&self, target: &mut HeaderMap)
        requires
            self.listing() is None || fields(*old(target)).len() <= MAP_ROOM,
        ensures
            fields(*final(target)) == with_listing(fields(*old(target)), self.listing()),
    {
        let _done = self.try_apply_to(target);
    }

    /// Applies a `sec-websocket-protocol` header to `target` if one has been registered. Returns
    /// whether the map had room for it. A map without room is left as it is.
    pub fn try_apply_to(&self, target: &mut HeaderMap) -> (done: bool)
        ensures
            done ==> fields(*final(target)) == with_listing(fields(*old(target)), self.listing()),
            !done ==> self.listing() is Some && fields(*old(target)).len() > MAP_ROOM
                && fields(*final(target)) == fields(*old(target)),
    {
        proof {
            lemma_plain_names();
        }
        match &self.header {
            Some(header) => insert(target, static_name(SEC_WEBSOCKET_PROTOCOL), header.clone()),
            None => true,
        }
    }
}

/// The fields after the registered subprotocols have been listed among them.
pub open spec fn with_listing(fields: Seq<Field>, listing: Option<Seq<u8>>) -> Seq<Field> {
    match listing {
        Some(value) => with_field(fields, SEC_WEBSOCKET_PROTOCOL@, seq![value]),
        None => fields,
    }
}

impl Default for SubprotocolRegistry {
    fn default() -> (registry: SubprotocolRegistry)
        ensures
            registry.registered() == Seq::<Seq<char>>::empty(),
            registry.listing() is None,
    {
        let registry = SubprotocolRegistry { registrants: Vec::new(), header: None };
        assert(registry.registered() =~= Seq::empty());
        registry
    }
}

impl Clone for SubprotocolRegistry {
    fn clone(&self) -> (copy: SubprotocolRegistry)
        ensures
            copy.registered() == self.registered(),
            copy.listing() == self.listing(),
    {
        let header = match &self.header {
            Some(header) => Some(header.clone()),
            None => None,
        };
        let mut registrants: Vec<String> = Vec::new();
        let mut i: usize = 0;
        while i < self.registrants.len()
            invariant
                i <= self.registrants@.len(),
                registrants@.len() == i,
                forall|j: int| 0 <= j < i ==> registrants@[j] == self.registrants@[j],
            decreases self.registrants@.len() - i,
        {
            registrants.push(self.registrants[i].clone());
            i = i + 1;
        }
        assert(texts_of(registrants@) =~= texts_of(self.registrants@));
        SubprotocolRegistry { registrants, header }
    }
}

/// Puts strings in a list, separated by a comma and a space.
fn join(strings: &Vec<String>) -> (list: String)
    ensures
        list@ == listed(texts_of(strings@)),
{
    let ghost all = texts_of(strings@);
    let mut list = String::new();
    let mut i: usize = 0;
    assert(all.take(0) =~= Seq::empty());
    while i < strings.len()
        invariant
            i <= strings@.len(),
            all == texts_of(strings@),
            list@ == listed(all.take(i as int)),
        decreases strings@.len() - i,
    {
        let ghost before = list@;
        assert(all.take(i + 1).drop_last() =~= all.take(i as int));
        assert(all.take(i + 1).last() == strings@[i as int]@);
        if i > 0 {
            list.append(", ");
        }
        list.append(strings[i].as_str());
        if i == 0 {
            assert(list@ =~= strings@[0]@);
        }
        i = i + 1;
    }
    assert(all.take(all.len() as int) =~= all);
    list
}

} // verus!
